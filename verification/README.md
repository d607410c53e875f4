# Trust Breaker

Retrieves vulnerability data for the packages of a software bill of materials
from OSV, RHTPA and Exhort, compares the sources, and explains what RHTPA does
not report.

`src/` is the library, written in Verus: every function has a contract, and the
contracts are proved. `app/` is the program around it: arguments, files, network
requests and the `rpmdev-vercmp` program. `tests/` run the library.

| Module | What it holds |
|--------|---------------|
| `text`, `str_map`, `pair_map`, `json`, `chunks` | texts, maps in insertion order, JSON documents, lists in chunks |
| `pattern`, `scores` | patterns and CVSS scores, by way of the `regex` and `cvss` crates |
| `sbom`, `sbom_cdx`, `dependencies` | package URLs, files, dependency trees |
| `osv`, `osv_batch`, `osv_index`, `osv_details`, `osv_packages` | what OSV is asked and what follows from its answers |
| `tpa_analyze`, `exhort`, `snyk_api_lib` | the other sources |
| `compare` | what one source has and another has not |
| `rpm`, `versions`, `categorize`, `refine` | what advisories, CSAF documents and CVE records say of a gap |
| `advisories`, `gaps`, `run`, `report` | the gaps of a comparison, from the table to its findings |

What has to be done outside is asked for as a value. Comparing versions is one
such thing: a question that cannot be answered yet comes back as the pair of
versions to compare. `run::Categorization` ties the steps together.

The items that are trusted rather than proved stand in `text`, `pattern`,
`scores` and `snyk_api_lib`, each with what it claims of the function it calls.
Functions named `law_...` state what holds across functions.

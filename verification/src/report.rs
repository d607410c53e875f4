//! The comparison with its findings: the columns, the rows and the counts.

use vstd::prelude::*;
use vstd::string::*;

use crate::categorize::{
    finding_priority, is_finding, law_verdict_follows_finding, or_empty, priority,
    redhat_advisory, verdict_on, Category, CategoryText, FINDING_CROSS_PACKAGE,
    FINDING_CVE_WITHDRAWN, FINDING_ECO_MISMATCH, FINDING_TPA_MISS, FINDING_UNKNOWN,
    FINDING_VERSION_NA, VERDICT_OSV_NOISE, VERDICT_TPA_GAP,
};
use crate::gaps::{
    cell, cell_before, cell_of, gap_texts, limited, reported_set, tpa_gap, tpa_gaps, GapText,
};
use crate::pair_map::{Pair, PairMap};
use crate::run::{
    law_judged_is_a_finding, law_same_evidence_same_categories, same_evidence, Categorization,
};
use crate::str_map::StrMap;
use crate::text::{copy_texts, same_text, texts};

verus! {

/// The column for the finding.
pub const FINDING_COLUMN: &'static str = "finding";

/// The column for the verdict.
pub const VERDICT_COLUMN: &'static str = "verdict";

/// The column for the advisory that the finding is from.
pub const ADVISORY_COLUMN: &'static str = "matched_advisory";

/// The columns with one more at the end, where it is not there yet.
pub open spec fn with_column(fields: Seq<Seq<char>>, name: Seq<char>) -> Seq<Seq<char>> {
    if fields.contains(name) {
        fields
    } else {
        fields.push(name)
    }
}

/// The columns with those for findings.
pub open spec fn with_findings(fields: Seq<Seq<char>>) -> Seq<Seq<char>> {
    with_column(
        with_column(with_column(fields, FINDING_COLUMN@), VERDICT_COLUMN@),
        ADVISORY_COLUMN@,
    )
}

fn add_column(fields: &mut Vec<String>, name: &str)
    ensures
        texts(final(fields)@) == with_column(texts(old(fields)@), name@),
{
    for i in 0..fields.len()
        invariant
            fields@ == old(fields)@,
            forall|j: int| 0 <= j < i ==> #[trigger] texts(fields@)[j] != name@,
    {
        if same_text(fields[i].as_str(), name) {
            assert(texts(fields@)[i as int] == name@);
            return ;
        }
    }
    fields.push(name.to_owned());
    assert(texts(fields@) =~= texts(old(fields)@).push(name@));
}

/// The columns of the comparison with its findings.
pub fn output_fields(fields: &Vec<String>) -> (r: Vec<String>)
    ensures
        texts(r@) == with_findings(texts(fields@)),
{
    let mut r = copy_texts(fields);
    add_column(&mut r, FINDING_COLUMN);
    add_column(&mut r, VERDICT_COLUMN);
    add_column(&mut r, ADVISORY_COLUMN);
    r
}

/// A finding without verdict and advisory.
pub open spec fn bare(finding: Seq<char>) -> CategoryText {
    CategoryText { finding, verdict: Seq::empty(), matched_advisory: Seq::empty() }
}

/// What is written into a row's three columns. A row that TPA does not have gets
/// its category, or blanks where it is not reported on; one that OSV does not
/// have gets blanks; another keeps what it has (`None`).
pub open spec fn row_label(
    fields: Seq<Seq<char>>,
    record: Seq<Seq<char>>,
    reported: Set<Pair>,
    categories: Map<Pair, Category>,
) -> Option<CategoryText> {
    let missing_in = or_empty(cell(fields, record, "missing_in"@));
    let p = (or_empty(cell(fields, record, "purl"@)), or_empty(cell(fields, record, "cve_id"@)));
    if missing_in == "TPA"@ {
        Some(
            if !reported.contains(p) {
                bare(Seq::empty())
            } else if categories.contains_key(p) {
                categories[p]@
            } else {
                bare(FINDING_UNKNOWN@)
            },
        )
    } else if missing_in == "OSV"@ {
        Some(bare(Seq::empty()))
    } else {
        None
    }
}

/// What is written into a column of a row.
pub open spec fn out_cell(
    fields: Seq<Seq<char>>,
    record: Seq<Seq<char>>,
    label: Option<CategoryText>,
    name: Seq<char>,
) -> Seq<char> {
    match label {
        Some(c) => if name == FINDING_COLUMN@ {
            c.finding
        } else if name == VERDICT_COLUMN@ {
            c.verdict
        } else if name == ADVISORY_COLUMN@ {
            c.matched_advisory
        } else {
            or_empty(cell(fields, record, name))
        },
        None => or_empty(cell(fields, record, name)),
    }
}

/// A row of the comparison with its findings.
pub open spec fn out_row(
    fields: Seq<Seq<char>>,
    record: Seq<Seq<char>>,
    label: Option<CategoryText>,
) -> Seq<Seq<char>> {
    with_findings(fields).map_values(|name: Seq<char>| out_cell(fields, record, label, name))
}

fn cell_or_blank<'a>(fields: &Vec<String>, record: &'a Vec<String>, name: &str) -> (r: &'a str)
    ensures
        r@ == or_empty(cell(texts(fields@), texts(record@), name@)),
{
    match cell_of(fields, record, name) {
        Some(s) => s,
        None => {
            proof {
                reveal_strlit("");
                assert(""@ =~= Seq::<char>::empty());
            }
            ""
        },
    }
}

fn bare_label(finding: &str) -> (r: Category)
    ensures
        r@ == bare(finding@),
{
    proof {
        reveal_strlit("");
        assert(""@ =~= Seq::<char>::empty());
    }
    Category {
        finding: finding.to_owned(),
        verdict: "".to_owned(),
        matched_advisory: "".to_owned(),
    }
}

fn label_of(
    fields: &Vec<String>,
    record: &Vec<String>,
    reported: &PairMap<bool>,
    categories: &PairMap<Category>,
) -> (r: Option<Category>)
    ensures
        match r {
            Some(c) => row_label(
                texts(fields@),
                texts(record@),
                reported@.dom(),
                categories@,
            ) == Some(c@),
            None => row_label(
                texts(fields@),
                texts(record@),
                reported@.dom(),
                categories@,
            ) is None,
        },
{
    proof {
        reveal_strlit("");
        assert(""@ =~= Seq::<char>::empty());
    }
    let missing_in = cell_or_blank(fields, record, "missing_in");
    if same_text(missing_in, "TPA") {
        let purl = cell_or_blank(fields, record, "purl");
        let cve_id = cell_or_blank(fields, record, "cve_id");
        if !reported.contains_key(purl, cve_id) {
            return Some(bare_label(""));
        }
        match categories.get(purl, cve_id) {
            Some(c) => Some(
                Category {
                    finding: c.finding.clone(),
                    verdict: c.verdict.clone(),
                    matched_advisory: c.matched_advisory.clone(),
                },
            ),
            None => Some(bare_label(FINDING_UNKNOWN)),
        }
    } else if same_text(missing_in, "OSV") {
        Some(bare_label(""))
    } else {
        None
    }
}

fn cell_text(
    fields: &Vec<String>,
    record: &Vec<String>,
    label: &Option<Category>,
    name: &str,
) -> (r: String)
    ensures
        r@ == out_cell(
            texts(fields@),
            texts(record@),
            match *label {
                Some(c) => Some(c@),
                None => None,
            },
            name@,
        ),
{
    if let Some(c) = label {
        if same_text(name, FINDING_COLUMN) {
            return c.finding.clone();
        }
        if same_text(name, VERDICT_COLUMN) {
            return c.verdict.clone();
        }
        if same_text(name, ADVISORY_COLUMN) {
            return c.matched_advisory.clone();
        }
    }
    cell_or_blank(fields, record, name).to_owned()
}

/// A row of the comparison with its findings, under the columns of
/// `output_fields`.
pub fn output_row(
    fields: &Vec<String>,
    record: &Vec<String>,
    reported: &PairMap<bool>,
    categories: &PairMap<Category>,
) -> (r: Vec<String>)
    ensures
        texts(r@) == out_row(
            texts(fields@),
            texts(record@),
            row_label(texts(fields@), texts(record@), reported@.dom(), categories@),
        ),
{
    let names = output_fields(fields);
    let label = label_of(fields, record, reported, categories);
    let ghost fs = texts(fields@);
    let ghost rs = texts(record@);
    let ghost l = row_label(fs, rs, reported@.dom(), categories@);
    let ghost full = out_row(fs, rs, l);
    let mut r: Vec<String> = Vec::new();
    for i in 0..names.len()
        invariant
            fs == texts(fields@),
            rs == texts(record@),
            l == (match label {
                Some(c) => Some(c@),
                None => None,
            }),
            texts(names@) == with_findings(fs),
            full == out_row(fs, rs, l),
            texts(r@) == full.take(i as int),
    {
        let ghost before = r@;
        assert(texts(names@)[i as int] == names@[i as int]@);
        r.push(cell_text(fields, record, &label, names[i].as_str()));
        assert(texts(r@) =~= texts(before).push(full[i as int]));
        assert(full.take(i + 1) =~= full.take(i as int).push(full[i as int]));
    }
    assert(texts(names@).len() == names@.len());
    assert(full.take(full.len() as int) =~= full);
    r
}

proof fn lemma_with_column(fields: Seq<Seq<char>>, name: Seq<char>)
    ensures
        with_column(fields, name).contains(name),
        fields.is_prefix_of(with_column(fields, name)),
        forall|other: Seq<char>|
            fields.contains(other) ==> #[trigger] with_column(fields, name).contains(other),
{
    let more = with_column(fields, name);
    if !fields.contains(name) {
        assert(more[fields.len() as int] == name);
    }
    assert forall|other: Seq<char>| fields.contains(other) implies #[trigger] more.contains(
        other,
    ) by {
        let i = choose|i: int| 0 <= i < fields.len() && fields[i] == other;
        assert(more[i] == other);
    }
}

/// The columns for findings are added once: all three are there, behind the
/// columns that were there, and asking again adds none.
pub proof fn law_columns_added_once(fields: Seq<Seq<char>>)
    ensures
        fields.is_prefix_of(with_findings(fields)),
        with_findings(fields).contains(FINDING_COLUMN@),
        with_findings(fields).contains(VERDICT_COLUMN@),
        with_findings(fields).contains(ADVISORY_COLUMN@),
        with_findings(with_findings(fields)) == with_findings(fields),
{
    let one = with_column(fields, FINDING_COLUMN@);
    let two = with_column(one, VERDICT_COLUMN@);
    lemma_with_column(fields, FINDING_COLUMN@);
    lemma_with_column(one, VERDICT_COLUMN@);
    lemma_with_column(two, ADVISORY_COLUMN@);
    assert(two.contains(FINDING_COLUMN@));
}

proof fn lemma_cell(fields: Seq<Seq<char>>, record: Seq<Seq<char>>, i: int, n: int)
    requires
        fields.no_duplicates(),
        0 <= i < n <= fields.len(),
        i < record.len(),
    ensures
        cell_before(fields, record, fields[i], n) == Some(record[i]),
    decreases n,
{
    if i < n - 1 {
        assert(fields[n - 1] != fields[i]);
        lemma_cell(fields, record, i, n - 1);
    }
}

/// Whatever is found, a row keeps what it has in the columns that are not for
/// findings.
pub proof fn law_other_columns_kept(
    fields: Seq<Seq<char>>,
    record: Seq<Seq<char>>,
    label: Option<CategoryText>,
    i: int,
)
    requires
        fields.no_duplicates(),
        0 <= i < fields.len(),
        i < record.len(),
        label is None || fields[i] != FINDING_COLUMN@ && fields[i] != VERDICT_COLUMN@ && fields[i]
            != ADVISORY_COLUMN@,
    ensures
        out_row(fields, record, label)[i] == record[i],
{
    law_columns_added_once(fields);
    assert(with_findings(fields)[i] == fields[i]);
    lemma_cell(fields, record, i, fields.len() as int);
}

/// The rows of the comparison with its findings.
pub open spec fn out_rows(
    fields: Seq<Seq<char>>,
    records: Seq<Seq<Seq<char>>>,
    reported: Set<Pair>,
    categories: Map<Pair, Category>,
) -> Seq<Seq<Seq<char>>> {
    records.map_values(
        |record: Seq<Seq<char>>|
            out_row(fields, record, row_label(fields, record, reported, categories)),
    )
}

proof fn lemma_written_cell(
    fields: Seq<Seq<char>>,
    record: Seq<Seq<char>>,
    label: Option<CategoryText>,
    name: Seq<char>,
    n: int,
)
    requires
        0 <= n <= with_findings(fields).len(),
    ensures
        cell_before(with_findings(fields), out_row(fields, record, label), name, n) == (
        if with_findings(fields).take(n).contains(name) {
            Some(out_cell(fields, record, label, name))
        } else {
            None
        }),
    decreases n,
{
    let names = with_findings(fields);
    if n > 0 {
        lemma_written_cell(fields, record, label, name, n - 1);
        let less = names.take(n - 1);
        let more = names.take(n);
        assert(more[n - 1] == names[n - 1]);
        if less.contains(name) {
            let i = choose|i: int| 0 <= i < less.len() && less[i] == name;
            assert(more[i] == name);
        }
        if more.contains(name) && names[n - 1] != name {
            let i = choose|i: int| 0 <= i < more.len() && more[i] == name;
            assert(less[i] == name);
        }
    }
}

proof fn lemma_has_cell(
    fields: Seq<Seq<char>>,
    record: Seq<Seq<char>>,
    name: Seq<char>,
    n: int,
)
    requires
        0 <= n <= fields.len(),
    ensures
        cell_before(fields, record, name, n) is Some <==> fields.take(n).contains(name),
    decreases n,
{
    if n > 0 {
        lemma_has_cell(fields, record, name, n - 1);
        let less = fields.take(n - 1);
        let more = fields.take(n);
        assert(more[n - 1] == fields[n - 1]);
        if less.contains(name) {
            let i = choose|i: int| 0 <= i < less.len() && less[i] == name;
            assert(more[i] == name);
        }
        if more.contains(name) && fields[n - 1] != name {
            let i = choose|i: int| 0 <= i < more.len() && more[i] == name;
            assert(less[i] == name);
        }
    }
}

proof fn lemma_no_new_column(fields: Seq<Seq<char>>, name: Seq<char>)
    requires
        name != FINDING_COLUMN@,
        name != VERDICT_COLUMN@,
        name != ADVISORY_COLUMN@,
    ensures
        with_findings(fields).contains(name) <==> fields.contains(name),
{
    law_columns_added_once(fields);
    let names = with_findings(fields);
    if names.contains(name) {
        let i = choose|i: int| 0 <= i < names.len() && names[i] == name;
        assert(i < fields.len());
        assert(fields[i] == names[i]);
    }
    if fields.contains(name) {
        let i = choose|i: int| 0 <= i < fields.len() && fields[i] == name;
        assert(names[i] == fields[i]);
    }
}

/// A written row says of its package URL, of its CVE and of where it is missing
/// what the row that was read says.
pub proof fn law_written_row_says_the_same(
    fields: Seq<Seq<char>>,
    record: Seq<Seq<char>>,
    label: Option<CategoryText>,
    name: Seq<char>,
)
    requires
        name == "purl"@ || name == "cve_id"@ || name == "missing_in"@,
    ensures
        cell(with_findings(fields), out_row(fields, record, label), name) == cell(
            fields,
            record,
            name,
        ),
{
    let names = with_findings(fields);
    reveal_strlit("purl");
    reveal_strlit("cve_id");
    reveal_strlit("missing_in");
    reveal_strlit("finding");
    reveal_strlit("verdict");
    reveal_strlit("matched_advisory");
    assert("purl"@.len() == 4);
    assert("cve_id"@.len() == 6);
    assert("missing_in"@.len() == 10);
    assert(FINDING_COLUMN@.len() == 7);
    assert(VERDICT_COLUMN@.len() == 7);
    assert(ADVISORY_COLUMN@.len() == 16);
    lemma_written_cell(fields, record, label, name, names.len() as int);
    lemma_has_cell(fields, record, name, fields.len() as int);
    lemma_no_new_column(fields, name);
    assert(names.take(names.len() as int) =~= names);
    assert(fields.take(fields.len() as int) =~= fields);
}

/// A row that is written again with the same label stays as it is.
proof fn lemma_row_written_again(
    fields: Seq<Seq<char>>,
    record: Seq<Seq<char>>,
    label: Option<CategoryText>,
)
    ensures
        out_row(with_findings(fields), out_row(fields, record, label), label) == out_row(
            fields,
            record,
            label,
        ),
{
    let names = with_findings(fields);
    let row = out_row(fields, record, label);
    law_columns_added_once(fields);
    assert(names.take(names.len() as int) =~= names);
    assert forall|k: int| 0 <= k < names.len() implies out_cell(
        names,
        row,
        label,
        #[trigger] names[k],
    ) == row[k] by {
        lemma_written_cell(fields, record, label, names[k], names.len() as int);
        assert(names.contains(names[k]));
    }
    assert(out_row(names, row, label) =~= row);
}

proof fn lemma_gaps_read_again(
    fields: Seq<Seq<char>>,
    records: Seq<Seq<Seq<char>>>,
    reported: Set<Pair>,
    categories: Map<Pair, Category>,
    n: int,
)
    requires
        0 <= n <= records.len(),
    ensures
        tpa_gaps(with_findings(fields), out_rows(fields, records, reported, categories).take(n))
            == tpa_gaps(fields, records.take(n)),
    decreases n,
{
    let names = with_findings(fields);
    let written = out_rows(fields, records, reported, categories);
    let f = |r: Seq<Seq<char>>| tpa_gap(names, r);
    let g = |r: Seq<Seq<char>>| tpa_gap(fields, r);
    if n == 0 {
        assert(written.take(0).filter_map(f) =~= Seq::<GapText>::empty());
        assert(records.take(0).filter_map(g) =~= Seq::<GapText>::empty());
    } else {
        lemma_gaps_read_again(fields, records, reported, categories, n - 1);
        written.lemma_filter_map_take_succ(f, n - 1);
        records.lemma_filter_map_take_succ(g, n - 1);
        let record = records[n - 1];
        let label = row_label(fields, record, reported, categories);
        law_written_row_says_the_same(fields, record, label, "purl"@);
        law_written_row_says_the_same(fields, record, label, "cve_id"@);
        law_written_row_says_the_same(fields, record, label, "missing_in"@);
        assert(f(written[n - 1]) == g(record));
    }
}

/// The written comparison has the gaps of the comparison that was read, so that
/// categorizing it takes up the same rows.
pub proof fn law_written_table_has_the_same_gaps(
    fields: Seq<Seq<char>>,
    records: Seq<Seq<Seq<char>>>,
    reported: Set<Pair>,
    categories: Map<Pair, Category>,
)
    ensures
        tpa_gaps(with_findings(fields), out_rows(fields, records, reported, categories))
            == tpa_gaps(fields, records),
{
    let written = out_rows(fields, records, reported, categories);
    lemma_gaps_read_again(fields, records, reported, categories, records.len() as int);
    assert(written.take(written.len() as int) =~= written);
    assert(records.take(records.len() as int) =~= records);
}

/// Categorizing the written comparison a second time, with the same evidence,
/// leaves it as it is: the same columns and the same rows, none added and none
/// lost.
pub proof fn law_second_categorization_changes_nothing(
    fields: Seq<Seq<char>>,
    records: Seq<Seq<Seq<char>>>,
    limit: int,
    first: Categorization,
    second: Categorization,
)
    requires
        first.wf() && first.stage is Finished,
        gap_texts(first.gaps@) == limited(tpa_gaps(fields, records), limit),
        second.wf() && second.stage is Finished,
        gap_texts(second.gaps@) == limited(
            tpa_gaps(
                with_findings(fields),
                out_rows(
                    fields,
                    records,
                    reported_set(gap_texts(first.gaps@)),
                    first.categories@,
                ),
            ),
            limit,
        ),
        same_evidence(first, second),
    ensures
        with_findings(with_findings(fields)) == with_findings(fields),
        out_rows(
            with_findings(fields),
            out_rows(fields, records, reported_set(gap_texts(first.gaps@)), first.categories@),
            reported_set(gap_texts(second.gaps@)),
            second.categories@,
        ) == out_rows(
            fields,
            records,
            reported_set(gap_texts(first.gaps@)),
            first.categories@,
        ),
{
    let names = with_findings(fields);
    let reported = reported_set(gap_texts(first.gaps@));
    let written = out_rows(fields, records, reported, first.categories@);
    law_columns_added_once(fields);
    law_written_table_has_the_same_gaps(fields, records, reported, first.categories@);
    law_same_evidence_same_categories(first, second);
    assert forall|i: int| 0 <= i < records.len() implies #[trigger] out_rows(
        names,
        written,
        reported,
        second.categories@,
    )[i] == written[i] by {
        let record = records[i];
        let label = row_label(fields, record, reported, first.categories@);
        let row = out_row(fields, record, label);
        assert(written[i] == row);
        law_written_row_says_the_same(fields, record, label, "purl"@);
        law_written_row_says_the_same(fields, record, label, "cve_id"@);
        law_written_row_says_the_same(fields, record, label, "missing_in"@);
        let p = (or_empty(cell(fields, record, "purl"@)), or_empty(cell(fields, record, "cve_id"@)));
        assert(first.categories@.contains_key(p) <==> second.categories@.contains_key(p));
        assert(row_label(names, row, reported, second.categories@) == label);
        lemma_row_written_again(fields, record, label);
    }
    assert(out_rows(names, written, reported, second.categories@) =~= written);
}

/// What is written into the columns for findings, where the comparison did not
/// have them: one of the findings, a verdict on a gap or on noise and an advisory
/// of Red Hat's, or blanks.
pub proof fn law_written_findings(
    fields: Seq<Seq<char>>,
    record: Seq<Seq<char>>,
    run: Categorization,
)
    requires
        run.wf() && run.stage is Finished,
        !fields.contains(FINDING_COLUMN@),
        !fields.contains(VERDICT_COLUMN@),
        !fields.contains(ADVISORY_COLUMN@),
    ensures
        ({
            let reported = reported_set(gap_texts(run.gaps@));
            let label = row_label(fields, record, reported, run.categories@);
            let finding = out_cell(fields, record, label, FINDING_COLUMN@);
            let verdict = out_cell(fields, record, label, VERDICT_COLUMN@);
            let advisory = out_cell(fields, record, label, ADVISORY_COLUMN@);
            &&& finding.len() == 0 || is_finding(finding)
            &&& verdict == verdict_on(finding)
            &&& verdict.len() == 0 || verdict == VERDICT_TPA_GAP@ || verdict == VERDICT_OSV_NOISE@
            &&& advisory.len() == 0 || redhat_advisory(advisory)
        }),
{
    let p = (or_empty(cell(fields, record, "purl"@)), or_empty(cell(fields, record, "cve_id"@)));
    let nothing = Seq::<char>::empty();
    reveal_strlit("finding");
    reveal_strlit("verdict");
    reveal_strlit("matched_advisory");
    assert(FINDING_COLUMN@[0] == 'f');
    assert(VERDICT_COLUMN@[0] == 'v');
    assert(ADVISORY_COLUMN@[0] == 'm');
    lemma_has_cell(fields, record, FINDING_COLUMN@, fields.len() as int);
    lemma_has_cell(fields, record, VERDICT_COLUMN@, fields.len() as int);
    lemma_has_cell(fields, record, ADVISORY_COLUMN@, fields.len() as int);
    assert(fields.take(fields.len() as int) =~= fields);
    law_verdict_follows_finding(FINDING_UNKNOWN@);
    reveal_strlit("TPA_MISS");
    reveal_strlit("VERSION_NOT_AFFECTED");
    reveal_strlit("ECOSYSTEM_MISMATCH");
    reveal_strlit("CROSS_PACKAGE");
    reveal_strlit("CVE_WITHDRAWN");
    assert(verdict_on(nothing) =~= nothing);
    if run.categories@.contains_key(p) {
        law_judged_is_a_finding(run, p, run.categories@[p]@);
    }
}

/// How many of the pairs are of that sort.
pub open spec fn tally(pairs: Seq<Pair>, which: spec_fn(Pair) -> bool) -> nat
    decreases pairs.len(),
{
    if pairs.len() == 0 {
        0
    } else {
        tally(pairs.drop_last(), which) + if which(pairs.last()) {
            1nat
        } else {
            0
        }
    }
}

/// Reported with that finding.
pub open spec fn found_as(
    categories: Map<Pair, Category>,
    reported: Set<Pair>,
    finding: Seq<char>,
) -> spec_fn(Pair) -> bool {
    |p: Pair| reported.contains(p) && categories[p]@.finding == finding
}

/// Reported with that verdict.
pub open spec fn judged_as(
    categories: Map<Pair, Category>,
    reported: Set<Pair>,
    verdict: Seq<char>,
) -> spec_fn(Pair) -> bool {
    |p: Pair| reported.contains(p) && categories[p]@.verdict == verdict
}

/// The pairs reported with a finding, for each finding.
pub open spec fn by_finding(categories: Map<Pair, Category>, reported: Set<Pair>) -> spec_fn(
    Seq<char>,
) -> spec_fn(Pair) -> bool {
    |finding: Seq<char>| found_as(categories, reported, finding)
}

/// The pairs reported with a verdict, for each verdict.
pub open spec fn by_verdict(categories: Map<Pair, Category>, reported: Set<Pair>) -> spec_fn(
    Seq<char>,
) -> spec_fn(Pair) -> bool {
    |verdict: Seq<char>| judged_as(categories, reported, verdict)
}

/// Reported with a finding that says something.
pub open spec fn classified(categories: Map<Pair, Category>, reported: Set<Pair>) -> spec_fn(
    Pair,
) -> bool {
    |p: Pair| reported.contains(p) && priority(categories[p]@.finding) < 5
}

/// Reported with a finding that explains the row away.
pub open spec fn explained(categories: Map<Pair, Category>, reported: Set<Pair>) -> spec_fn(
    Pair,
) -> bool {
    |p: Pair| reported.contains(p) && 0 < priority(categories[p]@.finding) < 5
}

/// What was found, in numbers.
pub struct Summary {
    /// How often there is each finding.
    pub findings: StrMap<usize>,
    /// How often there is each verdict.
    pub verdicts: StrMap<usize>,
    /// How many are genuine misses.
    pub tpa_miss: usize,
    /// How many are explained away.
    pub osv_noise: usize,
    /// How many could be classified.
    pub classifiable: usize,
}

fn count_up(counts: &mut StrMap<usize>, label: &String)
    requires
        old(counts)@.contains_key(label@) ==> old(counts)@[label@] < usize::MAX,
    ensures
        final(counts)@ == old(counts)@.insert(
            label@,
            (if old(counts)@.contains_key(label@) {
                old(counts)@[label@] + 1
            } else {
                1
            }) as usize,
        ),
{
    let n: usize = match counts.get(label.as_str()) {
        Some(n) => *n + 1,
        None => 1,
    };
    counts.insert(label.clone(), n);
}

proof fn lemma_tally_bound(pairs: Seq<Pair>, which: spec_fn(Pair) -> bool)
    ensures
        tally(pairs, which) <= pairs.len(),
    decreases pairs.len(),
{
    if pairs.len() > 0 {
        lemma_tally_bound(pairs.drop_last(), which);
    }
}

/// Whether the counts are those of the pairs with each label, as far as there
/// are any.
pub open spec fn counts_of(
    counts: Map<Seq<char>, usize>,
    pairs: Seq<Pair>,
    sort: spec_fn(Seq<char>) -> spec_fn(Pair) -> bool,
    label: Seq<char>,
) -> bool {
    &&& counts.contains_key(label) <==> tally(pairs, sort(label)) > 0
    &&& counts.contains_key(label) ==> counts[label] == tally(pairs, sort(label))
}

/// Whether the counts are those of all labels, the blank one with them or not.
pub open spec fn all_counts_of(
    counts: Map<Seq<char>, usize>,
    pairs: Seq<Pair>,
    sort: spec_fn(Seq<char>) -> spec_fn(Pair) -> bool,
    blank: bool,
) -> bool {
    forall|label: Seq<char>|
        blank || label.len() > 0 ==> #[trigger] counts_of(counts, pairs, sort, label)
}

/// Counts the findings on the pairs that are reported on.
pub fn summarize(categories: &PairMap<Category>, reported: &PairMap<bool>) -> (r: Summary)
    ensures
        categories.coherent(),
        all_counts_of(
            r.findings@,
            categories.keys(),
            by_finding(categories@, reported@.dom()),
            true,
        ),
        all_counts_of(
            r.verdicts@,
            categories.keys(),
            by_verdict(categories@, reported@.dom()),
            false,
        ),
        forall|label: Seq<char>| #[trigger] r.verdicts@.contains_key(label) ==> label.len() > 0,
        r.tpa_miss == tally(
            categories.keys(),
            found_as(categories@, reported@.dom(), FINDING_TPA_MISS@),
        ),
        r.osv_noise == tally(categories.keys(), explained(categories@, reported@.dom())),
        r.classifiable == tally(categories.keys(), classified(categories@, reported@.dom())),
{
    let ghost known = categories@;
    let ghost rep = reported@.dom();
    let ghost keys = categories.keys();
    let ghost findings_sort = by_finding(known, rep);
    let ghost verdicts_sort = by_verdict(known, rep);
    let n = categories.len();
    let mut findings: StrMap<usize> = StrMap::new();
    let mut verdicts: StrMap<usize> = StrMap::new();
    let mut tpa_miss: usize = 0;
    let mut osv_noise: usize = 0;
    let mut classifiable: usize = 0;
    for i in 0..n
        invariant
            known == categories@,
            rep == reported@.dom(),
            keys == categories.keys(),
            n == keys.len(),
            findings_sort == by_finding(known, rep),
            verdicts_sort == by_verdict(known, rep),
            all_counts_of(findings@, keys.take(i as int), findings_sort, true),
            all_counts_of(verdicts@, keys.take(i as int), verdicts_sort, false),
            forall|label: Seq<char>| #[trigger] verdicts@.contains_key(label) ==> label.len() > 0,
            tpa_miss == tally(keys.take(i as int), found_as(known, rep, FINDING_TPA_MISS@)),
            osv_noise == tally(keys.take(i as int), explained(known, rep)),
            classifiable == tally(keys.take(i as int), classified(known, rep)),
    {
        let ghost held = keys.take(i as int);
        let ghost now = keys.take(i + 1);
        let ghost findings_before = findings@;
        let ghost verdicts_before = verdicts@;
        let category = categories.value_at(i);
        let (purl, cve_id) = categories.key_at(i);
        proof {
            assert(now.drop_last() =~= held);
            assert(now.last() == keys[i as int]);
            lemma_tally_bound(held, found_as(known, rep, FINDING_TPA_MISS@));
            lemma_tally_bound(held, explained(known, rep));
            lemma_tally_bound(held, classified(known, rep));
            lemma_tally_bound(held, findings_sort(category.finding@));
            lemma_tally_bound(held, verdicts_sort(category.verdict@));
            assert(counts_of(findings@, held, findings_sort, category.finding@));
            assert(category.verdict@.len() > 0 ==> counts_of(
                verdicts@,
                held,
                verdicts_sort,
                category.verdict@,
            ));
        }
        if reported.contains_key(purl, cve_id) {
            count_up(&mut findings, &category.finding);
            if !category.verdict.as_str().is_empty() {
                count_up(&mut verdicts, &category.verdict);
            }
            let counts = finding_priority(category.finding.as_str());
            if counts < 5 {
                classifiable += 1;
                if counts > 0 {
                    osv_noise += 1;
                } else {
                    tpa_miss += 1;
                }
            }
        }
        proof {
            assert forall|label: Seq<char>| #[trigger]
                counts_of(findings@, now, findings_sort, label) by {
                assert(counts_of(findings_before, held, findings_sort, label));
            }
            assert forall|label: Seq<char>| label.len() > 0 implies #[trigger] counts_of(
                verdicts@,
                now,
                verdicts_sort,
                label,
            ) by {
                assert(counts_of(verdicts_before, held, verdicts_sort, label));
            }
        }
    }
    assert(keys.take(n as int) =~= keys);
    Summary { findings, verdicts, tpa_miss, osv_noise, classifiable }
}

/// Every row that could be classified is either a genuine miss or explained away
/// by exactly one of the four findings that do so.
pub proof fn law_classified_adds_up(
    pairs: Seq<Pair>,
    categories: Map<Pair, Category>,
    reported: Set<Pair>,
)
    ensures
        tally(pairs, classified(categories, reported)) == tally(
            pairs,
            found_as(categories, reported, FINDING_TPA_MISS@),
        ) + tally(pairs, explained(categories, reported)),
        tally(pairs, explained(categories, reported)) == tally(
            pairs,
            found_as(categories, reported, FINDING_VERSION_NA@),
        ) + tally(pairs, found_as(categories, reported, FINDING_ECO_MISMATCH@)) + tally(
            pairs,
            found_as(categories, reported, FINDING_CROSS_PACKAGE@),
        ) + tally(pairs, found_as(categories, reported, FINDING_CVE_WITHDRAWN@)),
    decreases pairs.len(),
{
    if pairs.len() > 0 {
        law_classified_adds_up(pairs.drop_last(), categories, reported);
        law_verdict_follows_finding(categories[pairs.last()]@.finding);
    }
}

/// A row that is missing in TPA gets, in the columns for findings, the finding, the
/// verdict and the advisory of its category where it is reported on, and blanks
/// where it is not. A row that is missing in OSV gets blanks, and any other row
/// keeps what it has.
pub proof fn law_row_gets_its_category(
    fields: Seq<Seq<char>>,
    record: Seq<Seq<char>>,
    reported: Set<Pair>,
    categories: Map<Pair, Category>,
    purl: Seq<char>,
    cve_id: Seq<char>,
    k: int,
)
    requires
        cell(fields, record, "purl"@) == Some(purl),
        cell(fields, record, "cve_id"@) == Some(cve_id),
        0 <= k < with_findings(fields).len(),
    ensures
        ({
            let name = with_findings(fields)[k];
            let written = out_row(
                fields,
                record,
                row_label(fields, record, reported, categories),
            )[k];
            let p = (purl, cve_id);
            let missing_in = cell(fields, record, "missing_in"@);
            &&& missing_in == Some("TPA"@) && reported.contains(p) && categories.contains_key(p)
                ==> {
                &&& name == "finding"@ ==> written == categories[p].finding@
                &&& name == "verdict"@ ==> written == categories[p].verdict@
                &&& name == "matched_advisory"@ ==> written == categories[p].matched_advisory@
            }
            &&& (missing_in == Some("TPA"@) && !reported.contains(p) || missing_in == Some("OSV"@))
                && (name == "finding"@ || name == "verdict"@ || name == "matched_advisory"@)
                ==> written.len() == 0
            &&& missing_in == Some("TPA"@) && reported.contains(p) && !categories.contains_key(p)
                ==> {
                &&& name == "finding"@ ==> written == "UNKNOWN"@
                &&& name == "verdict"@ || name == "matched_advisory"@ ==> written.len() == 0
            }
            &&& missing_in != Some("TPA"@) && missing_in != Some("OSV"@) || name != "finding"@
                && name != "verdict"@ && name != "matched_advisory"@ ==> written == or_empty(
                cell(fields, record, name),
            )
        }),
{
    reveal_strlit("finding");
    reveal_strlit("verdict");
    reveal_strlit("matched_advisory");
    reveal_strlit("TPA");
    reveal_strlit("OSV");
    assert("finding"@[0] == 'f' && "verdict"@[0] == 'v' && "matched_advisory"@[0] == 'm');
    assert("TPA"@[0] == 'T' && "OSV"@[0] == 'O');
}

/// The count of a sort of pairs is the number of pairs of that sort.
pub proof fn law_tally_counts(pairs: Seq<Pair>, which: spec_fn(Pair) -> bool)
    ensures
        tally(pairs, which) == pairs.filter(which).len(),
    decreases pairs.len(),
{
    reveal(Seq::filter);
    if pairs.len() > 0 {
        law_tally_counts(pairs.drop_last(), which);
    }
}

/// The numbers of a summary are those of the pairs that are reported on: with each
/// finding, with each verdict that is not blank, missed, explained away and
/// classified.
pub proof fn law_summary_counts(
    summary: Summary,
    pairs: Seq<Pair>,
    categories: Map<Pair, Category>,
    reported: Set<Pair>,
    label: Seq<char>,
)
    requires
        all_counts_of(summary.findings@, pairs, by_finding(categories, reported), true),
        all_counts_of(summary.verdicts@, pairs, by_verdict(categories, reported), false),
    ensures
        summary.findings@.contains_key(label) <==> pairs.filter(
            |p: Pair| reported.contains(p) && categories[p].finding@ == label,
        ).len() > 0,
        summary.findings@.contains_key(label) ==> summary.findings@[label] == pairs.filter(
            |p: Pair| reported.contains(p) && categories[p].finding@ == label,
        ).len(),
        label.len() > 0 ==> {
            &&& summary.verdicts@.contains_key(label) <==> pairs.filter(
                |p: Pair| reported.contains(p) && categories[p].verdict@ == label,
            ).len() > 0
            &&& summary.verdicts@.contains_key(label) ==> summary.verdicts@[label] == pairs.filter(
                |p: Pair| reported.contains(p) && categories[p].verdict@ == label,
            ).len()
        },
{
    assert(counts_of(summary.findings@, pairs, by_finding(categories, reported), label));
    law_tally_counts(pairs, found_as(categories, reported, label));
    law_tally_counts(pairs, judged_as(categories, reported, label));
    assert(found_as(categories, reported, label) =~= |p: Pair|
        reported.contains(p) && categories[p].finding@ == label);
    assert(judged_as(categories, reported, label) =~= |p: Pair|
        reported.contains(p) && categories[p].verdict@ == label);
    if label.len() > 0 {
        assert(counts_of(summary.verdicts@, pairs, by_verdict(categories, reported), label));
    }
}

/// A pair counts as missed, explained away or classified by its finding alone.
pub proof fn law_headline_counts(categories: Map<Pair, Category>, reported: Set<Pair>, p: Pair)
    requires
        is_finding(categories[p].finding@),
    ensures
        found_as(categories, reported, FINDING_TPA_MISS@)(p) <==> reported.contains(p)
            && categories[p].finding@ == "TPA_MISS"@,
        classified(categories, reported)(p) <==> reported.contains(p) && categories[p].finding@
            != "UNKNOWN"@,
        explained(categories, reported)(p) <==> reported.contains(p) && categories[p].finding@
            != "UNKNOWN"@ && categories[p].finding@ != "TPA_MISS"@,
{
    law_verdict_follows_finding(categories[p].finding@);
}

/// Where the comparison has none of them, the three columns come behind its own, in
/// that order.
pub proof fn law_columns_in_order(fields: Seq<Seq<char>>)
    requires
        !fields.contains("finding"@),
        !fields.contains("verdict"@),
        !fields.contains("matched_advisory"@),
    ensures
        with_findings(fields) == fields + seq!["finding"@, "verdict"@, "matched_advisory"@],
{
    reveal_strlit("finding");
    reveal_strlit("verdict");
    reveal_strlit("matched_advisory");
    assert("finding"@[0] == 'f' && "verdict"@[0] == 'v' && "matched_advisory"@[0] == 'm');
    let one = fields.push("finding"@);
    let two = one.push("verdict"@);
    assert(!one.contains("verdict"@)) by {
        if one.contains("verdict"@) {
            let i = choose|i: int| 0 <= i < one.len() && one[i] == "verdict"@;
            assert(fields[i] == "verdict"@);
        }
    }
    assert(!two.contains("matched_advisory"@)) by {
        if two.contains("matched_advisory"@) {
            let i = choose|i: int| 0 <= i < two.len() && two[i] == "matched_advisory"@;
            assert(fields[i] == "matched_advisory"@);
        }
    }
    assert(with_findings(fields) =~= fields + seq![
        "finding"@,
        "verdict"@,
        "matched_advisory"@,
    ]);
}

} // verus!

//! The patterns that advisory identifiers, package releases, ecosystems and
//! product identifiers are read with, and what they mean.

use vstd::prelude::*;
use vstd::string::*;
use vstd::utf8::is_ascii_chars;

use crate::text::{all_digits, is_digit, occurs_in, stands_at};

verus! {

/// A Red Hat advisory: RHSA, RHBA or RHEA, a year and a number.
pub const ADVISORY_ID: &'static str = "^RH(?:SA|BA|EA)-\\d{4}:\\d+$";

/// The distribution tag in a package's release.
pub const RELEASE_TAG: &'static str = "\\.el(\\d+)(?:_|\\.|$)";

/// The major release in the name of an ecosystem.
pub const ECOSYSTEM_MAJOR: &'static str = ":enterprise_linux:(\\d+):";

/// What stands behind the package's name in a product identifier, up to the
/// architecture.
pub const PRODUCT_VERSION: &'static str = "(.+?)\\.[a-z]";

/// Whether a character has a meaning of its own in a pattern.
pub open spec fn is_meta(c: char) -> bool {
    c == '\\' || c == '.' || c == '+' || c == '*' || c == '?' || c == '(' || c == ')' || c == '|'
        || c == '[' || c == ']' || c == '{' || c == '}' || c == '^' || c == '$' || c == '#' || c
        == '&' || c == '-' || c == '~'
}

/// The pattern that matches a text as it stands: a backslash before each
/// character that has a meaning of its own.
pub open spec fn escaped(s: Seq<char>) -> Seq<char>
    decreases s.len(),
{
    if s.len() == 0 {
        s
    } else if is_meta(s.last()) {
        escaped(s.drop_last()).push('\\').push(s.last())
    } else {
        escaped(s.drop_last()).push(s.last())
    }
}

/// `regex::escape`: a backslash before each meta character, everything else as
/// it is.
#[verifier::external_body]
pub(crate) fn regex_escape(s: &str) -> (r: String)
    ensures
        r@ == escaped(s@),
{
    regex::escape(s)
}

/// Where the run of digits that starts at `i` ends.
pub open spec fn run_end(s: Seq<char>, i: int) -> int
    decreases s.len() - i,
{
    if 0 <= i < s.len() && is_digit(s[i]) {
        run_end(s, i + 1)
    } else {
        i
    }
}

/// Whether a text is a Red Hat advisory identifier, such as `RHSA-2024:1234`.
pub open spec fn is_advisory_id(s: Seq<char>) -> bool {
    &&& s.len() > 10
    &&& s[0] == 'R' && s[1] == 'H'
    &&& (s[2] == 'S' || s[2] == 'B' || s[2] == 'E') && s[3] == 'A'
    &&& s[4] == '-'
    &&& all_digits(s.subrange(5, 9))
    &&& s[9] == ':'
    &&& all_digits(s.skip(10))
}

/// The digits of the leftmost `.el<digits>` at or after `i` that ends the text or
/// is followed by `_` or `.`.
pub open spec fn release_digits(s: Seq<char>, i: int) -> Option<Seq<char>>
    decreases s.len() - i,
{
    let end = run_end(s, i + 3);
    if i >= s.len() {
        None
    } else if stands_at(".el"@, s, i) && end > i + 3 && (end == s.len() || s[end] == '_' || s[end]
        == '.') {
        Some(s.subrange(i + 3, end))
    } else {
        release_digits(s, i + 1)
    }
}

/// The digits of the leftmost `:enterprise_linux:<digits>:` at or after `i`.
pub open spec fn ecosystem_digits(s: Seq<char>, i: int) -> Option<Seq<char>>
    decreases s.len() - i,
{
    let start = i + ":enterprise_linux:"@.len();
    let end = run_end(s, start);
    if i >= s.len() {
        None
    } else if stands_at(":enterprise_linux:"@, s, i) && start < end < s.len() && s[end] == ':' {
        Some(s.subrange(start, end))
    } else {
        ecosystem_digits(s, i + 1)
    }
}

/// Where a version that starts at `start` ends, looked for from `j` on: before
/// the first dot that a lower case letter follows, on the same line, and not
/// before its first character.
pub open spec fn version_end(s: Seq<char>, start: int, j: int) -> Option<int>
    decreases s.len() - j,
{
    if j < start || j >= s.len() {
        None
    } else if j > start && s[j] == '.' && j + 1 < s.len() && 'a' <= s[j + 1] <= 'z' {
        Some(j)
    } else if s[j] == '\n' {
        None
    } else {
        version_end(s, start, j + 1)
    }
}

/// The version behind the leftmost `lead`, at or after `i`, that one follows.
pub open spec fn version_after(lead: Seq<char>, s: Seq<char>, i: int) -> Option<Seq<char>>
    decreases s.len() - i,
{
    let start = i + lead.len();
    if i >= s.len() {
        None
    } else if stands_at(lead, s, i) && version_end(s, start, start) is Some {
        Some(s.subrange(start, version_end(s, start, start)->0))
    } else {
        version_after(lead, s, i + 1)
    }
}

/// How long a literal text may be for the claims on patterns made of it: far
/// below the size at which a pattern is refused.
pub const LITERAL_LIMIT: usize = 1000;

/// Whether `regex::Regex::is_match` holds of a text, for the pattern that
/// `Regex::new` makes of `pattern`; false where it makes none.
pub uninterp spec fn regex_is_match(pattern: Seq<char>, s: Seq<char>) -> bool;

/// What the first group of `regex::Regex::captures` holds on a text, for the
/// pattern that `Regex::new` makes of `pattern`; nothing where it makes none,
/// where the text does not match and where the group is not part of the match.
pub uninterp spec fn regex_first_group(pattern: Seq<char>, s: Seq<char>) -> Option<Seq<char>>;

/// `regex::Regex::is_match`. Its result is named. Two things are claimed beside:
/// that the pattern for advisory identifiers, on ASCII text, accepts what
/// `is_advisory_id` says (beyond ASCII `\d` takes other digits too), and that
/// an escaped literal matches a text exactly where it occurs in it.
#[verifier::external_body]
pub(crate) fn is_match(pattern: &str, s: &str) -> (r: bool)
    ensures
        r == regex_is_match(pattern@, s@),
        pattern@ == ADVISORY_ID@ && is_ascii_chars(s@) ==> r == is_advisory_id(s@),
        forall|p: Seq<char>|
            pattern@ == #[trigger] escaped(p) && p.len() <= LITERAL_LIMIT ==> r == occurs_in(p, s@),
{
    match regex::Regex::new(pattern) {
        Ok(re) => re.is_match(s),
        Err(_) => false,
    }
}

/// `regex::Regex::captures`, the first group. Its result is named. Claimed
/// beside, as the leftmost match and the preference for more or for fewer
/// characters give it: what the patterns for a release and for an ecosystem
/// find in ASCII text, and what the one for a product's version finds behind an
/// escaped literal.
#[verifier::external_body]
pub(crate) fn first_group(pattern: &str, s: &str) -> (r: Option<String>)
    ensures
        match r {
            Some(g) => regex_first_group(pattern@, s@) == Some(g@),
            None => regex_first_group(pattern@, s@) is None,
        },
        pattern@ == RELEASE_TAG@ && is_ascii_chars(s@) ==> group_is(r, release_digits(s@, 0)),
        pattern@ == ECOSYSTEM_MAJOR@ && is_ascii_chars(s@) ==> group_is(r, ecosystem_digits(s@, 0)),
        forall|p: Seq<char>|
            pattern@ == #[trigger] escaped(p) + PRODUCT_VERSION@ && p.len() <= LITERAL_LIMIT
                ==> group_is(r, version_after(p, s@, 0)),
{
    let re = regex::Regex::new(pattern).ok()?;
    let found = re.captures(s)?;
    Some(found.get(1)?.as_str().to_owned())
}

/// Whether a group holds that text.
pub open spec fn group_is(r: Option<String>, expected: Option<Seq<char>>) -> bool {
    match r {
        Some(g) => expected == Some(g@),
        None => expected is None,
    }
}

proof fn lemma_run_end(s: Seq<char>, i: int, end: int)
    requires
        0 <= i <= end <= s.len(),
        forall|j: int| i <= j < end ==> is_digit(#[trigger] s[j]),
        end == s.len() || !is_digit(s[end]),
    ensures
        run_end(s, i) == end,
    decreases end - i,
{
    if i < end {
        assert(is_digit(s[i]));
        lemma_run_end(s, i + 1, end);
    }
}

proof fn lemma_release_from(s: Seq<char>, i: int, k: int)
    requires
        0 <= i <= k <= s.len(),
        forall|j: int| 0 <= j < k ==> !#[trigger] stands_at(".el"@, s, j),
    ensures
        release_digits(s, i) == release_digits(s, k),
    decreases k - i,
{
    if i < k {
        assert(!stands_at(".el"@, s, i));
        lemma_release_from(s, i + 1, k);
    }
}

/// The distribution tag of a version is read as the digits behind its first `.el`,
/// where an underscore, a dot or nothing follows them. A version without `.el` has
/// no tag.
pub proof fn law_release_is_read(lead: Seq<char>, digits: Seq<char>, tail: Seq<char>)
    requires
        digits.len() > 0,
        all_digits(digits),
        tail.len() == 0 || tail[0] == '_' || tail[0] == '.',
        forall|j: int|
            0 <= j < lead.len() ==> !#[trigger] stands_at(
                ".el"@,
                lead + ".el"@ + digits + tail,
                j,
            ),
    ensures
        release_digits(lead + ".el"@ + digits + tail, 0) == Some(digits),
        forall|s: Seq<char>|
            (forall|j: int| !#[trigger] stands_at(".el"@, s, j)) ==> #[trigger] release_digits(s, 0)
                is None,
{
    reveal_strlit(".el");
    assert(".el"@.len() == 3);
    let s = lead + ".el"@ + digits + tail;
    let i = lead.len() as int;
    let end = i + 3 + digits.len();
    lemma_release_from(s, 0, i);
    assert(s.subrange(i, i + 3) =~= ".el"@);
    assert forall|j: int| i + 3 <= j < end implies is_digit(#[trigger] s[j]) by {
        assert(s[j] == digits[j - i - 3]);
    }
    if end < s.len() {
        assert(s[end] == tail[0]);
    }
    lemma_run_end(s, i + 3, end);
    assert(s.subrange(i + 3, end) =~= digits);
    assert forall|s: Seq<char>|
        (forall|j: int| !#[trigger] stands_at(".el"@, s, j)) implies #[trigger] release_digits(s, 0)
        is None by {
        lemma_release_from(s, 0, s.len() as int);
    }
}

proof fn lemma_ecosystem_from(s: Seq<char>, i: int, k: int)
    requires
        0 <= i <= k <= s.len(),
        forall|j: int| 0 <= j < k ==> !#[trigger] stands_at(":enterprise_linux:"@, s, j),
    ensures
        ecosystem_digits(s, i) == ecosystem_digits(s, k),
    decreases k - i,
{
    if i < k {
        assert(!stands_at(":enterprise_linux:"@, s, i));
        lemma_ecosystem_from(s, i + 1, k);
    }
}

/// The major release of an ecosystem is read as the digits between its first
/// `:enterprise_linux:` and a colon. The name of an ecosystem without that has none.
pub proof fn law_ecosystem_is_read(lead: Seq<char>, digits: Seq<char>, tail: Seq<char>)
    requires
        digits.len() > 0,
        all_digits(digits),
        forall|j: int|
            0 <= j < lead.len() ==> !#[trigger] stands_at(
                ":enterprise_linux:"@,
                lead + ":enterprise_linux:"@ + digits + seq![':'] + tail,
                j,
            ),
    ensures
        ecosystem_digits(lead + ":enterprise_linux:"@ + digits + seq![':'] + tail, 0) == Some(
            digits,
        ),
        forall|s: Seq<char>|
            (forall|j: int| !#[trigger] stands_at(":enterprise_linux:"@, s, j))
                ==> #[trigger] ecosystem_digits(s, 0) is None,
{
    let mark = ":enterprise_linux:"@;
    let s = lead + mark + digits + seq![':'] + tail;
    let i = lead.len() as int;
    let start = i + mark.len();
    let end = start + digits.len();
    lemma_ecosystem_from(s, 0, i);
    assert(s.subrange(i, start) =~= mark);
    assert forall|j: int| start <= j < end implies is_digit(#[trigger] s[j]) by {
        assert(s[j] == digits[j - start]);
    }
    assert(s[end] == ':');
    lemma_run_end(s, start, end);
    assert(s.subrange(start, end) =~= digits);
    assert forall|s: Seq<char>|
        (forall|j: int| !#[trigger] stands_at(":enterprise_linux:"@, s, j))
            implies #[trigger] ecosystem_digits(
        s,
        0,
    ) is None by {
        lemma_ecosystem_from(s, 0, s.len() as int);
    }
}

proof fn lemma_version_from(lead: Seq<char>, s: Seq<char>, i: int, k: int)
    requires
        0 <= i <= k <= s.len(),
        forall|j: int| 0 <= j < k ==> !#[trigger] stands_at(lead, s, j),
    ensures
        version_after(lead, s, i) == version_after(lead, s, k),
    decreases k - i,
{
    if i < k {
        assert(!stands_at(lead, s, i));
        lemma_version_from(lead, s, i + 1, k);
    }
}

proof fn lemma_version_end(s: Seq<char>, start: int, j: int, end: int)
    requires
        0 <= start <= j <= end,
        start < end,
        end + 1 < s.len(),
        s[end] == '.',
        'a' <= s[end + 1] <= 'z',
        forall|k: int| start <= k < end ==> #[trigger] s[k] != '\n',
        forall|k: int| start < k < end && #[trigger] s[k] == '.' ==> !('a' <= s[k + 1] <= 'z'),
    ensures
        version_end(s, start, j) == Some(end),
    decreases end - j,
{
    if j < end {
        assert(s[j] != '\n');
        lemma_version_end(s, start, j + 1, end);
    }
}

/// The version of a product is what stands between the package's name and the first
/// dot that a lower case letter follows.
pub proof fn law_version_is_read(
    before: Seq<char>,
    lead: Seq<char>,
    version: Seq<char>,
    tail: Seq<char>,
)
    requires
        version.len() > 0,
        tail.len() > 0,
        'a' <= tail[0] <= 'z',
        !version.contains('\n'),
        forall|k: int|
            0 < k < version.len() - 1 && #[trigger] version[k] == '.' ==> !('a' <= version[k + 1]
                <= 'z'),
        forall|j: int|
            0 <= j < before.len() ==> !#[trigger] stands_at(
                lead,
                before + lead + version + seq!['.'] + tail,
                j,
            ),
    ensures
        version_after(lead, before + lead + version + seq!['.'] + tail, 0) == Some(version),
{
    let s = before + lead + version + seq!['.'] + tail;
    let i = before.len() as int;
    let start = i + lead.len();
    let end = start + version.len();
    lemma_version_from(lead, s, 0, i);
    assert(s.subrange(i, start) =~= lead);
    assert(s[end] == '.' && s[end + 1] == tail[0]);
    assert forall|k: int| start <= k < end implies #[trigger] s[k] != '\n' by {
        assert(s[k] == version[k - start]);
        assert(version.contains(version[k - start]));
    }
    assert forall|k: int| start < k < end && #[trigger] s[k] == '.' implies !('a' <= s[k + 1]
        <= 'z') by {
        assert(s[k] == version[k - start]);
        if k + 1 < end {
            assert(s[k + 1] == version[k + 1 - start]);
        }
    }
    lemma_version_end(s, start, start, end);
    assert(s.subrange(start, end) =~= version);
}

/// Whether `.el` stands at `i`, digits behind it up to `end`, and behind those an
/// underscore, a dot or nothing.
pub open spec fn tagged_at(s: Seq<char>, i: int, end: int) -> bool {
    &&& stands_at(".el"@, s, i)
    &&& i + 3 < end <= s.len()
    &&& all_digits(s.subrange(i + 3, end))
    &&& end == s.len() || s[end] == '_' || s[end] == '.'
}

proof fn lemma_run_of(s: Seq<char>, i: int, end: int)
    requires
        0 <= i <= end <= s.len(),
        all_digits(s.subrange(i, end)),
        end == s.len() || !is_digit(s[end]),
    ensures
        run_end(s, i) == end,
{
    assert forall|j: int| i <= j < end implies is_digit(#[trigger] s[j]) by {
        assert(is_digit(s.subrange(i, end)[j - i]));
    }
    lemma_run_end(s, i, end);
}

proof fn lemma_run_is_digits(s: Seq<char>, i: int)
    requires
        0 <= i <= s.len(),
    ensures
        i <= run_end(s, i) <= s.len(),
        all_digits(s.subrange(i, run_end(s, i))),
    decreases s.len() - i,
{
    if i < s.len() && is_digit(s[i]) {
        lemma_run_is_digits(s, i + 1);
        let end = run_end(s, i + 1);
        assert forall|j: int| 0 <= j < end - i implies is_digit(#[trigger] s.subrange(i, end)[j]) by {
            if j > 0 {
                assert(is_digit(s.subrange(i + 1, end)[j - 1]));
            }
        }
    }
}

proof fn lemma_tag_from(s: Seq<char>, i: int, k: int)
    requires
        0 <= i <= k <= s.len(),
        forall|j: int, end: int| 0 <= j < k ==> !#[trigger] tagged_at(s, j, end),
    ensures
        release_digits(s, i) == release_digits(s, k),
    decreases k - i,
{
    if i < k {
        reveal_strlit(".el");
        assert(".el"@.len() == 3);
        if stands_at(".el"@, s, i) {
            lemma_run_is_digits(s, i + 3);
            assert(!tagged_at(s, i, run_end(s, i + 3)));
        }
        lemma_tag_from(s, i + 1, k);
    }
}

/// The digits of the distribution tag are those of the first tag in a version, and
/// a version without a tag has none.
pub proof fn law_first_tag_counts(s: Seq<char>, i: int, end: int)
    ensures
        tagged_at(s, i, end) && (forall|j: int, e: int|
            0 <= j < i ==> !#[trigger] tagged_at(s, j, e)) ==> release_digits(s, 0) == Some(
            s.subrange(i + 3, end),
        ),
        (forall|j: int, e: int| !#[trigger] tagged_at(s, j, e)) ==> release_digits(s, 0) is None,
{
    reveal_strlit(".el");
    assert(".el"@.len() == 3);
    if tagged_at(s, i, end) && (forall|j: int, e: int|
        0 <= j < i ==> !#[trigger] tagged_at(s, j, e)) {
        lemma_tag_from(s, 0, i);
        lemma_run_of(s, i + 3, end);
    }
    if forall|j: int, e: int| !#[trigger] tagged_at(s, j, e) {
        lemma_tag_from(s, 0, s.len() as int);
    }
}

/// Whether `:enterprise_linux:` stands at `i`, digits behind it up to `end`, and
/// behind those a colon.
pub open spec fn released_at(s: Seq<char>, i: int, end: int) -> bool {
    let start = i + ":enterprise_linux:"@.len();
    &&& stands_at(":enterprise_linux:"@, s, i)
    &&& start < end < s.len()
    &&& all_digits(s.subrange(start, end))
    &&& s[end] == ':'
}

proof fn lemma_released_from(s: Seq<char>, i: int, k: int)
    requires
        0 <= i <= k <= s.len(),
        forall|j: int, end: int| 0 <= j < k ==> !#[trigger] released_at(s, j, end),
    ensures
        ecosystem_digits(s, i) == ecosystem_digits(s, k),
    decreases k - i,
{
    if i < k {
        let start = i + ":enterprise_linux:"@.len();
        if stands_at(":enterprise_linux:"@, s, i) {
            lemma_run_is_digits(s, start);
            assert(!released_at(s, i, run_end(s, start)));
        }
        lemma_released_from(s, i + 1, k);
    }
}

/// The digits of the major release are those of the first release in the name of an
/// ecosystem, and a name without a release has none.
pub proof fn law_first_release_counts(s: Seq<char>, i: int, end: int)
    ensures
        released_at(s, i, end) && (forall|j: int, e: int|
            0 <= j < i ==> !#[trigger] released_at(s, j, e)) ==> ecosystem_digits(s, 0) == Some(
            s.subrange(i + ":enterprise_linux:"@.len(), end),
        ),
        (forall|j: int, e: int| !#[trigger] released_at(s, j, e)) ==> ecosystem_digits(s, 0) is None,
{
    if released_at(s, i, end) && (forall|j: int, e: int|
        0 <= j < i ==> !#[trigger] released_at(s, j, e)) {
        lemma_released_from(s, 0, i);
        lemma_run_of(s, i + ":enterprise_linux:"@.len(), end);
        reveal_strlit(":enterprise_linux:");
        assert(":enterprise_linux:"@.len() > 0);
    }
    if forall|j: int, e: int| !#[trigger] released_at(s, j, e) {
        lemma_released_from(s, 0, s.len() as int);
    }
}

/// Whether the text stands at `i` and behind it, up to `end`, a version that a dot
/// and a lower case letter follow for the first time, all on one line.
pub open spec fn versioned_at(lead: Seq<char>, s: Seq<char>, i: int, end: int) -> bool {
    let start = i + lead.len();
    &&& stands_at(lead, s, i)
    &&& start < end
    &&& end + 1 < s.len()
    &&& s[end] == '.' && 'a' <= s[end + 1] <= 'z'
    &&& forall|k: int| start <= k < end ==> #[trigger] s[k] != '\n'
    &&& forall|k: int| start < k < end && #[trigger] s[k] == '.' ==> !('a' <= s[k + 1] <= 'z')
}

proof fn lemma_end_is_one(s: Seq<char>, start: int, j: int)
    requires
        0 <= start <= j,
        forall|k: int| start <= k < j ==> #[trigger] s[k] != '\n',
        forall|k: int|
            start < k < j && k + 1 < s.len() && #[trigger] s[k] == '.' ==> !('a' <= s[k + 1]
                <= 'z'),
    ensures
        version_end(s, start, j) matches Some(end) ==> {
            &&& start < end
            &&& end + 1 < s.len()
            &&& s[end] == '.' && 'a' <= s[end + 1] <= 'z'
            &&& forall|k: int| start <= k < end ==> #[trigger] s[k] != '\n'
            &&& forall|k: int|
                start < k < end && #[trigger] s[k] == '.' ==> !('a' <= s[k + 1] <= 'z')
        },
    decreases s.len() - j,
{
    if j < s.len() && s[j] != '\n' && !(j > start && s[j] == '.' && j + 1 < s.len() && 'a' <= s[j
        + 1] <= 'z') {
        lemma_end_is_one(s, start, j + 1);
    }
}

proof fn lemma_versioned_from(lead: Seq<char>, s: Seq<char>, i: int, k: int)
    requires
        0 <= i <= k <= s.len(),
        forall|j: int, end: int| 0 <= j < k ==> !#[trigger] versioned_at(lead, s, j, end),
    ensures
        version_after(lead, s, i) == version_after(lead, s, k),
    decreases k - i,
{
    if i < k {
        let start = i + lead.len();
        if stands_at(lead, s, i) {
            lemma_end_is_one(s, start, start);
            if let Some(end) = version_end(s, start, start) {
                assert(versioned_at(lead, s, i, end));
            }
        }
        lemma_versioned_from(lead, s, i + 1, k);
    }
}

/// The version behind a text is that of the first place where the text has one
/// behind it; without such a place there is none.
pub proof fn law_first_version_counts(lead: Seq<char>, s: Seq<char>, i: int, end: int)
    requires
        lead.len() > 0,
    ensures
        versioned_at(lead, s, i, end) && (forall|j: int, e: int|
            0 <= j < i ==> !#[trigger] versioned_at(lead, s, j, e)) ==> version_after(lead, s, 0)
            == Some(s.subrange(i + lead.len(), end)),
        (forall|j: int, e: int| !#[trigger] versioned_at(lead, s, j, e)) ==> version_after(
            lead,
            s,
            0,
        ) is None,
{
    if versioned_at(lead, s, i, end) && (forall|j: int, e: int|
        0 <= j < i ==> !#[trigger] versioned_at(lead, s, j, e)) {
        lemma_versioned_from(lead, s, 0, i);
        lemma_version_end(s, i + lead.len(), i + lead.len(), end);
    }
    if forall|j: int, e: int| !#[trigger] versioned_at(lead, s, j, e) {
        lemma_versioned_from(lead, s, 0, s.len() as int);
    }
}

/// A text is made a pattern character by character: a backslash goes before each one
/// that means something in a pattern.
pub proof fn law_escaped(s: Seq<char>, c: char)
    ensures
        escaped(Seq::empty()).len() == 0,
        is_meta(c) ==> escaped(s.push(c)) == escaped(s) + seq!['\\', c],
        !is_meta(c) ==> escaped(s.push(c)) == escaped(s) + seq![c],
        is_meta(c) <==> "\\.+*?()|[]{}^$#&-~"@.contains(c),
{
    reveal_strlit("\\.+*?()|[]{}^$#&-~");
    let meta = "\\.+*?()|[]{}^$#&-~"@;
    assert(meta[0] == '\\' && meta[1] == '.' && meta[2] == '+' && meta[3] == '*' && meta[4] == '?');
    assert(meta[5] == '(' && meta[6] == ')' && meta[7] == '|' && meta[8] == '[' && meta[9] == ']');
    assert(meta[10] == '{' && meta[11] == '}' && meta[12] == '^' && meta[13] == '$');
    assert(meta[14] == '#' && meta[15] == '&' && meta[16] == '-' && meta[17] == '~');
    let more = s.push(c);
    assert(more.drop_last() =~= s);
    assert(escaped(more) =~= if is_meta(c) {
        escaped(s) + seq!['\\', c]
    } else {
        escaped(s) + seq![c]
    });
}

} // verus!

//! Text operations on `&str` and `String`, each stated over the characters of
//! the text.

use vstd::prelude::*;
use vstd::string::*;
use vstd::utf8::{encode_utf8_decode_utf8, is_ascii_chars};

verus! {

/// `String::push` puts the character behind the text.
pub assume_specification[ String::push ](s: &mut String, c: char)
    ensures
        final(s)@ == old(s)@.push(c),
;

/// `str`'s `==`: whether two texts hold the same characters, which they do where
/// they have the same bytes.
pub(crate) fn same_text(a: &str, b: &str) -> (same: bool)
    ensures
        same == (a@ == b@),
{
    let x = a.as_bytes();
    let y = b.as_bytes();
    proof {
        encode_utf8_decode_utf8(a@);
        encode_utf8_decode_utf8(b@);
    }
    if x.len() != y.len() {
        return false;
    }
    for i in 0..x.len()
        invariant
            x@.len() == y@.len(),
            x@ == a.spec_bytes(),
            y@ == b.spec_bytes(),
            forall|j: int| 0 <= j < i ==> x@[j] == y@[j],
    {
        if x[i] != y[i] {
            return false;
        }
    }
    assert(x@ =~= y@);
    true
}

/// What `str::to_lowercase` returns for a text: the Unicode lower case mapping.
pub uninterp spec fn lowercase_of(s: Seq<char>) -> Seq<char>;

/// An ASCII text in lower case.
pub open spec fn ascii_lowered(s: Seq<char>) -> Seq<char> {
    s.map_values(
        |c: char|
            if 'A' <= c <= 'Z' {
                (c as u32 + 32) as char
            } else {
                c
            },
    )
}

/// A text in lower case.
pub open spec fn lowered(s: Seq<char>) -> Seq<char> {
    if is_ascii_chars(s) {
        ascii_lowered(s)
    } else {
        lowercase_of(s)
    }
}

/// `str::to_lowercase`. Beyond ASCII its result rests on the Unicode tables and
/// is named, not stated; in ASCII text the letters `A` to `Z` change and nothing
/// else.
#[verifier::external_body]
pub(crate) fn lowercase(s: &str) -> (r: String)
    ensures
        r@ == lowercase_of(s@),
        is_ascii_chars(s@) ==> r@ == ascii_lowered(s@),
{
    s.to_lowercase()
}

/// Whether a character is white space: whether it has the Unicode property
/// `White_Space`.
pub open spec fn is_white_space(c: char) -> bool {
    let n = c as u32;
    ||| 0x9 <= n <= 0xd
    ||| n == 0x20
    ||| n == 0x85
    ||| n == 0xa0
    ||| n == 0x1680
    ||| 0x2000 <= n <= 0x200a
    ||| n == 0x2028
    ||| n == 0x2029
    ||| n == 0x202f
    ||| n == 0x205f
    ||| n == 0x3000
}

/// `char::is_whitespace`.
pub fn char_is_whitespace(c: char) -> (r: bool)
    ensures
        r == is_white_space(c),
{
    let n = c as u32;
    0x9 <= n && n <= 0xd || n == 0x20 || n == 0x85 || n == 0xa0 || n == 0x1680 || 0x2000 <= n && n
        <= 0x200a || n == 0x2028 || n == 0x2029 || n == 0x202f || n == 0x205f || n == 0x3000
}

/// The texts of a list of strings.
pub open spec fn texts(v: Seq<String>) -> Seq<Seq<char>> {
    v.map_values(|s: String| s@)
}

/// The text that may be there.
pub open spec fn string_in(s: Option<String>) -> Option<Seq<char>> {
    match s {
        Some(s) => Some(s@),
        None => None,
    }
}

/// The text that may be there once more.
pub(crate) fn copy_string(s: &Option<String>) -> (r: Option<String>)
    ensures
        string_in(r) == string_in(*s),
{
    match s {
        Some(s) => Some(s.clone()),
        None => None,
    }
}

/// The same texts once more.
pub(crate) fn copy_texts(v: &Vec<String>) -> (r: Vec<String>)
    ensures
        texts(r@) == texts(v@),
{
    let mut r: Vec<String> = Vec::new();
    for i in 0..v.len()
        invariant
            texts(r@) == texts(v@).take(i as int),
    {
        let ghost before = r@;
        r.push(v[i].clone());
        assert(texts(r@) =~= texts(before).push(v@[i as int]@));
        assert(texts(v@).take(i + 1) =~= texts(v@).take(i as int).push(v@[i as int]@));
    }
    assert(texts(v@).take(v@.len() as int) =~= texts(v@));
    r
}

/// The index of the first `c` of `s` at or after `from`; the length of `s` where
/// there is none.
pub open spec fn find(s: Seq<char>, c: char, from: int) -> int
    decreases s.len() - from,
{
    if from >= s.len() {
        s.len() as int
    } else if s[from] == c {
        from
    } else {
        find(s, c, from + 1)
    }
}

/// The text before the first `c` and the text after it.
pub open spec fn split_at_first(s: Seq<char>, c: char) -> Option<(Seq<char>, Seq<char>)> {
    let i = find(s, c, 0);
    if i < s.len() {
        Some((s.take(i), s.skip(i + 1)))
    } else {
        None
    }
}

/// The pieces of `s[from..]` between one `c` and the next; a text without `c` is
/// one piece.
pub open spec fn pieces_from(s: Seq<char>, c: char, from: int) -> Seq<Seq<char>>
    decreases s.len() - from,
{
    let i = find(s, c, from);
    if 0 <= from <= i < s.len() {
        seq![s.subrange(from, i)] + pieces_from(s, c, i + 1)
    } else {
        seq![s.subrange(from, s.len() as int)]
    }
}

/// The pieces of `s` between one `c` and the next.
pub open spec fn pieces(s: Seq<char>, c: char) -> Seq<Seq<char>> {
    pieces_from(s, c, 0)
}

/// Whether `p` stands somewhere in `s`.
pub open spec fn occurs_in(p: Seq<char>, s: Seq<char>) -> bool {
    exists|i: int| #[trigger] stands_at(p, s, i)
}

/// Whether `p` stands in `s` at index `i`.
pub open spec fn stands_at(p: Seq<char>, s: Seq<char>, i: int) -> bool {
    0 <= i && i + p.len() <= s.len() && s.subrange(i, i + p.len()) =~= p
}

pub proof fn lemma_find(s: Seq<char>, c: char, from: int)
    requires
        0 <= from <= s.len(),
    ensures
        from <= find(s, c, from) <= s.len(),
        forall|j: int| from <= j < find(s, c, from) ==> s[j] != c,
        find(s, c, from) < s.len() ==> s[find(s, c, from)] == c,
    decreases s.len() - from,
{
    if from < s.len() && s[from] != c {
        lemma_find(s, c, from + 1);
    }
}

/// The characters of a text.
pub(crate) fn chars_of(s: &str) -> (v: Vec<char>)
    ensures
        v@ == s@,
{
    let mut v: Vec<char> = Vec::new();
    for c in it: s.chars()
        invariant
            v@ == s@.take(it.index() as int),
            it.seq() == s@,
    {
        v.push(c);
    }
    v
}

/// The text of a range of characters.
pub(crate) fn text_of(v: &Vec<char>, from: usize, to: usize) -> (s: String)
    requires
        from <= to <= v@.len(),
    ensures
        s@ == v@.subrange(from as int, to as int),
{
    let mut s = String::new();
    for i in from..to
        invariant
            from <= to <= v@.len(),
            s@ == v@.subrange(from as int, i as int),
    {
        s.push(v[i]);
    }
    s
}

/// The index of the first `c` at or after `from`, or the length.
fn find_char(v: &Vec<char>, c: char, from: usize) -> (i: usize)
    requires
        from <= v@.len(),
    ensures
        i == find(v@, c, from as int),
{
    let mut i = from;
    while i < v.len()
        invariant
            from <= i <= v@.len(),
            find(v@, c, from as int) == find(v@, c, i as int),
        decreases v@.len() - i,
    {
        if v[i] == c {
            return i;
        }
        i += 1;
    }
    i
}

/// `str::split_once` at a character: what stands before its first occurrence and
/// what stands after.
pub fn split_once(s: &str, c: char) -> (r: Option<(String, String)>)
    ensures
        match split_at_first(s@, c) {
            Some((before, after)) => r matches Some(p) && p.0@ == before && p.1@ == after,
            None => r is None,
        },
{
    let v = chars_of(s);
    let i = find_char(&v, c, 0);
    proof {
        lemma_find(s@, c, 0);
    }
    if i < v.len() {
        let before = text_of(&v, 0, i);
        let after = text_of(&v, i + 1, v.len());
        Some((before, after))
    } else {
        None
    }
}

/// `str::split` at a character: the pieces between its occurrences.
pub fn split(s: &str, c: char) -> (r: Vec<String>)
    ensures
        texts(r@) == pieces(s@, c),
{
    let v = chars_of(s);
    let mut r: Vec<String> = Vec::new();
    let mut from: usize = 0;
    loop
        invariant_except_break
            v@ == s@,
            from <= v@.len(),
            texts(r@) + pieces_from(s@, c, from as int) == pieces(s@, c),
        ensures
            texts(r@) == pieces(s@, c),
        decreases v@.len() - from,
    {
        let i = find_char(&v, c, from);
        proof {
            lemma_find(s@, c, from as int);
        }
        let ghost before = r@;
        if i < v.len() {
            r.push(text_of(&v, from, i));
            assert(texts(r@) =~= texts(before).push(s@.subrange(from as int, i as int)));
            assert(texts(r@) + pieces_from(s@, c, i + 1) =~= texts(before) + pieces_from(
                s@,
                c,
                from as int,
            ));
            from = i + 1;
        } else {
            r.push(text_of(&v, from, v.len()));
            assert(texts(r@) =~= texts(before) + pieces_from(s@, c, from as int));
            break;
        }
    }
    r
}

/// `str::starts_with` a text.
pub fn starts_with(s: &str, p: &str) -> (r: bool)
    ensures
        r == p@.is_prefix_of(s@),
{
    let v = chars_of(s);
    let w = chars_of(p);
    match_at(&v, &w, 0)
}

/// Whether `w` stands in `v` at `at`.
pub(crate) fn match_at(v: &Vec<char>, w: &Vec<char>, at: usize) -> (r: bool)
    requires
        at <= v@.len(),
    ensures
        r == stands_at(w@, v@, at as int),
        at == 0 ==> r == w@.is_prefix_of(v@),
{
    let len = v.len();
    if w.len() > len - at {
        return false;
    }
    let mut i: usize = 0;
    while i < w.len()
        invariant
            i <= w@.len(),
            len == v@.len(),
            at + w@.len() <= len,
            forall|j: int| 0 <= j < i ==> v@[at + j] == w@[j],
        decreases w@.len() - i,
    {
        if v[at + i] != w[i] {
            assert(v@.subrange(at as int, at + w@.len())[i as int] != w@[i as int]);
            return false;
        }
        i += 1;
    }
    true
}

/// `str::strip_prefix`: what stands behind the prefix.
pub fn strip_prefix(s: &str, p: &str) -> (r: Option<String>)
    ensures
        match r {
            Some(rest) => p@.is_prefix_of(s@) && rest@ == s@.skip(p@.len() as int),
            None => !p@.is_prefix_of(s@),
        },
{
    let v = chars_of(s);
    let w = chars_of(p);
    if match_at(&v, &w, 0) {
        Some(text_of(&v, w.len(), v.len()))
    } else {
        None
    }
}

/// Where `w` stands first in `v`, from an index on.
pub(crate) fn find_text(v: &Vec<char>, w: &Vec<char>, from: usize) -> (r: Option<usize>)
    requires
        from <= v@.len(),
    ensures
        match r {
            Some(i) => {
                &&& from <= i
                &&& stands_at(w@, v@, i as int)
                &&& forall|j: int| from <= j < i ==> !stands_at(w@, v@, j)
            },
            None => forall|j: int| from <= j ==> !stands_at(w@, v@, j),
        },
{
    let len = v.len();
    let mut i = from;
    loop
        invariant
            from <= i <= len,
            len == v@.len(),
            forall|j: int| from <= j < i ==> !stands_at(w@, v@, j),
        decreases len - i,
    {
        if match_at(v, w, i) {
            return Some(i);
        }
        if i == len {
            return None;
        }
        i += 1;
    }
}

/// `str::contains` a text.
pub fn contains(s: &str, p: &str) -> (r: bool)
    ensures
        r == occurs_in(p@, s@),
{
    let v = chars_of(s);
    let w = chars_of(p);
    match find_text(&v, &w, 0) {
        Some(i) => {
            assert(stands_at(p@, s@, i as int));
            true
        },
        None => false,
    }
}

/// `str::contains` a character.
pub fn contains_char(s: &str, c: char) -> (r: bool)
    ensures
        r == s@.contains(c),
{
    let v = chars_of(s);
    let i = find_char(&v, c, 0);
    proof {
        lemma_find(s@, c, 0);
    }
    i < v.len()
}

/// `s` with every `a` replaced by `b`.
pub open spec fn with_replaced(s: Seq<char>, a: char, b: char) -> Seq<char> {
    s.map_values(|c: char| if c == a { b } else { c })
}

/// `str::replace` of one character by another.
pub fn replace_char(s: &str, a: char, b: char) -> (r: String)
    ensures
        r@ == with_replaced(s@, a, b),
{
    let v = chars_of(s);
    let mut r = String::new();
    for i in 0..v.len()
        invariant
            v@ == s@,
            r@ == with_replaced(s@.take(i as int), a, b),
    {
        let c = v[i];
        r.push(if c == a { b } else { c });
        assert(with_replaced(s@.take(i + 1), a, b) =~= r@);
    }
    assert(s@.take(s@.len() as int) =~= s@);
    r
}

/// `s` without the white space in front.
pub open spec fn trim_front(s: Seq<char>) -> Seq<char>
    decreases s.len(),
{
    if s.len() > 0 && is_white_space(s[0]) {
        trim_front(s.skip(1))
    } else {
        s
    }
}

/// `s` without the white space at the end.
pub open spec fn trim_back(s: Seq<char>) -> Seq<char>
    decreases s.len(),
{
    if s.len() > 0 && is_white_space(s.last()) {
        trim_back(s.drop_last())
    } else {
        s
    }
}

/// `s` without the white space around it.
pub open spec fn trimmed(s: Seq<char>) -> Seq<char> {
    trim_back(trim_front(s))
}

/// Whether a text is not blank and has no white space around it.
pub open spec fn is_plain(s: Seq<char>) -> bool {
    s.len() > 0 && trimmed(s) == s
}

/// `str::trim`.
pub fn trim(s: &str) -> (r: String)
    ensures
        r@ == trimmed(s@),
{
    let v = chars_of(s);
    let mut from: usize = 0;
    assert(v@.subrange(0, v@.len() as int) =~= v@);
    while from < v.len() && char_is_whitespace(v[from])
        invariant
            from <= v@.len(),
            trim_front(v@) == trim_front(v@.subrange(from as int, v@.len() as int)),
        ensures
            from <= v@.len(),
            trim_front(v@) == v@.subrange(from as int, v@.len() as int),
        decreases v@.len() - from,
    {
        assert(v@.subrange(from as int, v@.len() as int).skip(1) =~= v@.subrange(
            from + 1,
            v@.len() as int,
        ));
        from += 1;
    }
    let mut to = v.len();
    let ghost rest = v@.subrange(from as int, v@.len() as int);
    while to > from && char_is_whitespace(v[to - 1])
        invariant
            from <= to <= v@.len(),
            trim_back(rest) == trim_back(v@.subrange(from as int, to as int)),
        ensures
            from <= to <= v@.len(),
            trim_back(rest) == v@.subrange(from as int, to as int),
        decreases to,
    {
        assert(v@.subrange(from as int, to as int).drop_last() =~= v@.subrange(
            from as int,
            to - 1,
        ));
        to -= 1;
    }
    text_of(&v, from, to)
}

/// A line without the carriage return that stands before its line feed.
pub open spec fn without_return(s: Seq<char>) -> Seq<char> {
    if s.len() > 0 && s.last() == '\r' {
        s.drop_last()
    } else {
        s
    }
}

/// The lines of a text: what stands before each line feed, without the carriage
/// return before it, and what stands behind the last one unless that is empty.
pub open spec fn lines_of(s: Seq<char>) -> Seq<Seq<char>> {
    let parts = pieces(s, '\n');
    let ended = parts.drop_last().map_values(|p: Seq<char>| without_return(p));
    if parts.last().len() == 0 {
        ended
    } else {
        ended.push(parts.last())
    }
}

proof fn lemma_pieces_nonempty(s: Seq<char>, c: char, from: int)
    requires
        0 <= from <= s.len(),
    ensures
        pieces_from(s, c, from).len() > 0,
{
    lemma_find(s, c, from);
}

/// `str::lines`.
pub fn lines(s: &str) -> (r: Vec<String>)
    ensures
        texts(r@) == lines_of(s@),
{
    let parts = split(s, '\n');
    proof {
        lemma_pieces_nonempty(s@, '\n', 0);
        assert(texts(parts@).len() == parts@.len());
    }
    let ghost all = texts(parts@);
    let last = parts.len() - 1;
    let mut r: Vec<String> = Vec::new();
    for i in 0..last
        invariant
            last == parts@.len() - 1,
            all == texts(parts@),
            texts(r@) == all.take(i as int).map_values(|p: Seq<char>| without_return(p)),
    {
        let v = chars_of(parts[i].as_str());
        let n = v.len();
        let ghost before = r@;
        if n > 0 && v[n - 1] == '\r' {
            r.push(text_of(&v, 0, n - 1));
        } else {
            r.push(text_of(&v, 0, n));
        }
        assert(r@.last()@ =~= without_return(all[i as int]));
        assert(texts(r@) =~= texts(before).push(r@.last()@));
        assert(all.take(i + 1).map_values(|p: Seq<char>| without_return(p)) =~= texts(r@));
    }
    assert(all.take(last as int) =~= all.drop_last());
    let tail = &parts[last];
    if !tail.as_str().is_empty() {
        let ghost before = r@;
        r.push(tail.clone());
        assert(texts(r@) =~= texts(before).push(all.last()));
    }
    r
}

/// Whether a character is a decimal digit of ASCII.
pub open spec fn is_digit(c: char) -> bool {
    '0' <= c <= '9'
}

/// The number that a row of decimal digits stands for.
pub open spec fn digits_value(s: Seq<char>) -> nat
    decreases s.len(),
{
    if s.len() == 0 {
        0
    } else {
        digits_value(s.drop_last()) * 10 + ((s.last() as int - '0' as int) as nat)
    }
}

/// Whether a text holds nothing but decimal digits.
pub open spec fn all_digits(s: Seq<char>) -> bool {
    forall|i: int| 0 <= i < s.len() ==> is_digit(#[trigger] s[i])
}

/// `s` without the plus sign that may stand in front.
pub open spec fn without_plus(s: Seq<char>) -> Seq<char> {
    if s.len() > 0 && s[0] == '+' {
        s.skip(1)
    } else {
        s
    }
}

/// The number that a text stands for, as `u32`'s `FromStr` reads it: decimal
/// digits, one at least, behind an optional plus sign, of a value that fits.
pub open spec fn u32_of(s: Seq<char>) -> Option<u32> {
    let digits = without_plus(s);
    if digits.len() > 0 && all_digits(digits) && digits_value(digits) <= u32::MAX {
        Some(digits_value(digits) as u32)
    } else {
        None
    }
}

proof fn lemma_value_grows(s: Seq<char>, n: int)
    requires
        0 <= n <= s.len(),
        all_digits(s),
    ensures
        digits_value(s.take(n)) <= digits_value(s),
    decreases s.len() - n,
{
    if n < s.len() {
        lemma_value_grows(s, n + 1);
        assert(s.take(n + 1).drop_last() =~= s.take(n));
        assert(is_digit(s[n]));
    } else {
        assert(s.take(n) =~= s);
    }
}

/// `str::parse::<u32>`, with any error as `None`.
pub fn parse_u32(s: &str) -> (r: Option<u32>)
    ensures
        r == u32_of(s@),
{
    let v = chars_of(s);
    let start: usize = if v.len() > 0 && v[0] == '+' {
        1
    } else {
        0
    };
    let ghost digits = without_plus(s@);
    assert(v@.skip(start as int) =~= digits);
    if v.len() == start {
        return None;
    }
    let mut value: u32 = 0;
    for i in start..v.len()
        invariant
            start <= v@.len(),
            digits == v@.skip(start as int),
            digits == without_plus(s@),
            value == digits_value(digits.take(i - start)),
            forall|j: int| 0 <= j < i - start ==> is_digit(#[trigger] digits[j]),
    {
        let c = v[i];
        assert(digits[i - start] == c);
        if c < '0' || c > '9' {
            assert(!is_digit(digits[i - start]));
            return None;
        }
        let d: u32 = c as u32 - '0' as u32;
        assert(digits.take(i - start + 1).drop_last() =~= digits.take(i - start));
        let wide: u64 = value as u64 * 10 + d as u64;
        assert(wide == digits_value(digits.take(i - start + 1)));
        if wide > u32::MAX as u64 {
            proof {
                if all_digits(digits) {
                    lemma_value_grows(digits, i - start + 1);
                }
            }
            return None;
        }
        value = wide as u32;
    }
    assert(digits.take(digits.len() as int) =~= digits);
    Some(value)
}

/// The decimal digit of a number below ten.
pub open spec fn digit_char(d: nat) -> char {
    ('0' as int + d) as char
}

/// A number in decimal, without leading zeros.
pub open spec fn decimal(n: nat) -> Seq<char>
    decreases n,
{
    if n < 10 {
        seq![digit_char(n)]
    } else {
        decimal(n / 10).push(digit_char(n % 10))
    }
}

/// A number in decimal, as it is printed.
pub fn decimal_text(n: usize) -> (r: String)
    ensures
        r@ == decimal(n as nat),
    decreases n,
{
    let d: u8 = (n % 10) as u8;
    let c: char = ('0' as u8 + d) as char;
    let mut r = if n < 10 {
        String::new()
    } else {
        decimal_text(n / 10)
    };
    r.push(c);
    r
}

/// What is printed in decimal reads back as the same number.
pub proof fn law_decimal_reads_back(n: u32)
    ensures
        u32_of(decimal(n as nat)) == Some(n),
{
    lemma_decimal(n as nat);
    let s = decimal(n as nat);
    assert(is_digit(s[0]));
}

pub proof fn lemma_decimal(n: nat)
    ensures
        decimal(n).len() > 0,
        all_digits(decimal(n)),
        digits_value(decimal(n)) == n,
    decreases n,
{
    if n < 10 {
        reveal_with_fuel(digits_value, 2);
        assert(decimal(n).last() == digit_char(n));
    } else {
        lemma_decimal(n / 10);
        assert(decimal(n).drop_last() =~= decimal(n / 10));
    }
}

/// A text is split at the first separator: what stands before it has none.
pub proof fn law_split_at_first(a: Seq<char>, c: char, b: Seq<char>)
    requires
        !a.contains(c),
    ensures
        split_at_first(a + seq![c] + b, c) == Some((a, b)),
{
    let s = a + seq![c] + b;
    lemma_find(s, c, 0);
    let i = find(s, c, 0);
    assert(s[a.len() as int] == c);
    if i < a.len() {
        assert(a[i] == s[i]);
        assert(a.contains(c));
    }
    assert(i == a.len());
    assert(s.take(i) =~= a);
    assert(s.skip(i + 1) =~= b);
}

/// A text without the separator is not split.
pub proof fn law_no_split(s: Seq<char>, c: char)
    requires
        !s.contains(c),
    ensures
        split_at_first(s, c) is None,
{
    lemma_find(s, c, 0);
    let i = find(s, c, 0);
    if i < s.len() {
        assert(s[i] == c);
        assert(s.contains(c));
    }
}

proof fn lemma_find_shift(lead: Seq<char>, s: Seq<char>, c: char, from: int)
    requires
        0 <= from <= s.len(),
    ensures
        find(lead + s, c, lead.len() + from) == lead.len() + find(s, c, from),
    decreases s.len() - from,
{
    if from < s.len() {
        assert((lead + s)[lead.len() + from] == s[from]);
        if s[from] != c {
            lemma_find_shift(lead, s, c, from + 1);
        }
    }
}

proof fn lemma_pieces_shift(lead: Seq<char>, s: Seq<char>, c: char, from: int)
    requires
        0 <= from <= s.len(),
    ensures
        pieces_from(lead + s, c, lead.len() + from) == pieces_from(s, c, from),
    decreases s.len() - from,
{
    let all = lead + s;
    let n = lead.len() as int;
    lemma_find(s, c, from);
    lemma_find_shift(lead, s, c, from);
    let i = find(s, c, from);
    assert(all.subrange(n + from, n + i) =~= s.subrange(from, i));
    if i < s.len() {
        lemma_pieces_shift(lead, s, c, i + 1);
    }
}

/// The pieces of a text are what stands before the first separator, then the
/// pieces of what stands behind it.
pub proof fn law_pieces_split(a: Seq<char>, c: char, b: Seq<char>)
    requires
        !a.contains(c),
    ensures
        pieces(a + seq![c] + b, c) == seq![a] + pieces(b, c),
{
    let s = a + seq![c] + b;
    let lead = a + seq![c];
    lemma_find(s, c, 0);
    let i = find(s, c, 0);
    assert(s[a.len() as int] == c);
    if i < a.len() {
        assert(a[i] == s[i]);
        assert(a.contains(c));
    }
    assert(i == a.len());
    assert(s.subrange(0, i) =~= a);
    lemma_pieces_shift(lead, b, c, 0);
    assert(lead.len() == i + 1);
}

/// A text without the separator is its only piece.
pub proof fn law_pieces_whole(s: Seq<char>, c: char)
    requires
        !s.contains(c),
    ensures
        pieces(s, c) == seq![s],
{
    lemma_find(s, c, 0);
    let i = find(s, c, 0);
    if i < s.len() {
        assert(s[i] == c);
        assert(s.contains(c));
    }
    assert(s.subrange(0, s.len() as int) =~= s);
}

/// There is always a piece.
pub proof fn law_pieces_not_empty(s: Seq<char>, c: char)
    ensures
        pieces(s, c).len() > 0,
{
}

proof fn lemma_trim_front(s: Seq<char>) -> (k: int)
    ensures
        0 <= k <= s.len(),
        trim_front(s) == s.skip(k),
        forall|j: int| 0 <= j < k ==> is_white_space(#[trigger] s[j]),
        k < s.len() ==> !is_white_space(s[k]),
    decreases s.len(),
{
    if s.len() > 0 && is_white_space(s[0]) {
        let rest = s.skip(1);
        let k = lemma_trim_front(rest);
        assert(rest.skip(k) =~= s.skip(k + 1));
        assert forall|j: int| 0 <= j < k + 1 implies is_white_space(#[trigger] s[j]) by {
            if j > 0 {
                assert(rest[j - 1] == s[j]);
            }
        }
        if k < rest.len() {
            assert(rest[k] == s[k + 1]);
        }
        k + 1
    } else {
        assert(s.skip(0) =~= s);
        0
    }
}

proof fn lemma_trim_back(s: Seq<char>) -> (k: int)
    ensures
        0 <= k <= s.len(),
        trim_back(s) == s.take(k),
        forall|j: int| k <= j < s.len() ==> is_white_space(#[trigger] s[j]),
        k > 0 ==> !is_white_space(s[k - 1]),
    decreases s.len(),
{
    if s.len() > 0 && is_white_space(s.last()) {
        let rest = s.drop_last();
        let k = lemma_trim_back(rest);
        assert(rest.take(k) =~= s.take(k));
        assert forall|j: int| k <= j < s.len() implies is_white_space(#[trigger] s[j]) by {
            if j < rest.len() {
                assert(rest[j] == s[j]);
            }
        }
        k
    } else {
        assert(s.take(s.len() as int) =~= s);
        s.len() as int
    }
}

/// What is left of a text without the white space around it is a part of it: all
/// that is cut off is white space, and what is left neither begins nor ends with any.
pub proof fn law_trimmed(s: Seq<char>)
    ensures
        exists|i: int, k: int|
            #![trigger s.subrange(i, k)]
            0 <= i <= k <= s.len() && trimmed(s) == s.subrange(i, k) && (forall|j: int|
                0 <= j < i || k <= j < s.len() ==> is_white_space(#[trigger] s[j])),
        trimmed(s).len() > 0 ==> !is_white_space(trimmed(s)[0]) && !is_white_space(
            trimmed(s).last(),
        ),
{
    let i = lemma_trim_front(s);
    let rest = s.skip(i);
    let n = lemma_trim_back(rest);
    let k = i + n;
    assert(rest.take(n) =~= s.subrange(i, k));
    assert forall|j: int| 0 <= j < i || k <= j < s.len() implies is_white_space(#[trigger] s[j]) by {
        if j >= k {
            assert(rest[j - i] == s[j]);
        }
    }
    if n > 0 {
        assert(trimmed(s)[0] == rest[0]);
        assert(rest[0] == s[i]);
        assert(trimmed(s).last() == rest[n - 1]);
    }
}

/// The lines of a text are what stands before its first line feed, without a
/// carriage return at its end, and then the lines of what stands behind it. A text
/// without a line feed is one line, unless it is empty.
pub proof fn law_lines(line: Seq<char>, rest: Seq<char>)
    requires
        !line.contains('\n'),
    ensures
        lines_of(line + seq!['\n'] + rest) == seq![
            if line.len() > 0 && line.last() == '\r' {
                line.drop_last()
            } else {
                line
            },
        ] + lines_of(rest),
        line.len() > 0 ==> lines_of(line) == seq![line],
        lines_of(Seq::empty()) == Seq::<Seq<char>>::empty(),
{
    law_pieces_split(line, '\n', rest);
    law_pieces_not_empty(rest, '\n');
    law_pieces_whole(line, '\n');
    law_pieces_whole(Seq::empty(), '\n');
    let parts = pieces(rest, '\n');
    let all = seq![line] + parts;
    assert(all.drop_last() =~= seq![line] + parts.drop_last());
    assert(all.last() == parts.last());
    let f = |p: Seq<char>| without_return(p);
    assert(all.drop_last().map_values(f) =~= seq![without_return(line)]
        + parts.drop_last().map_values(f));
    assert(lines_of(line + seq!['\n'] + rest) =~= seq![without_return(line)] + lines_of(rest));
    assert(lines_of(line) =~= if line.len() > 0 {
        seq![line]
    } else {
        Seq::<Seq<char>>::empty()
    });
    assert(lines_of(Seq::empty()) =~= Seq::<Seq<char>>::empty());
}

/// A digit behind a number makes it ten times as much and the digit more, as long
/// as that fits; a single digit stands for itself, and a text with anything but
/// digits, behind a plus sign or not, for no number.
pub proof fn law_numbers_are_read(s: Seq<char>, c: char, i: int)
    requires
        s.len() > 0,
    ensures
        is_digit(c) ==> u32_of(seq![c]) == Some((c as u32 - '0' as u32) as u32),
        all_digits(s) && is_digit(c) ==> u32_of(s.push(c)) == (match u32_of(s) {
            Some(n) => if n * 10 + (c as u32 - '0' as u32) <= u32::MAX {
                Some((n * 10 + (c as u32 - '0' as u32)) as u32)
            } else {
                None
            },
            None => None,
        }),
        all_digits(s) ==> u32_of(seq!['+'] + s) == u32_of(s),
        0 < i < s.len() && !is_digit(s[i]) ==> u32_of(s) is None,
        !is_digit(s[0]) && s[0] != '+' ==> u32_of(s) is None,
        u32_of(Seq::empty()) is None,
        u32_of(seq!['+']) is None,
{
    let more = s.push(c);
    assert(more.drop_last() =~= s);
    assert(more.last() == c);
    reveal_with_fuel(digits_value, 2);
    if is_digit(c) {
        assert(seq![c].drop_last() =~= Seq::<char>::empty());
        assert(all_digits(seq![c]));
    }
    if all_digits(s) && is_digit(c) {
        assert(is_digit(s[0]));
        assert forall|j: int| 0 <= j < more.len() implies is_digit(#[trigger] more[j]) by {
            if j < s.len() {
                assert(is_digit(s[j]));
            }
        }
        assert(without_plus(s) == s && without_plus(more) == more);
        assert(digits_value(more) == digits_value(s) * 10 + (c as int - '0' as int));
    }
    if all_digits(s) {
        assert(is_digit(s[0]));
        assert((seq!['+'] + s).skip(1) =~= s);
    }
    if 0 < i < s.len() && !is_digit(s[i]) {
        if s[0] == '+' {
            assert(s.skip(1)[i - 1] == s[i]);
        }
    }
    assert(seq!['+'].skip(1) =~= Seq::<char>::empty());
}

/// In ASCII text the letters `A` to `Z` become the small letters that stand 32
/// places behind them, and nothing else changes.
pub proof fn law_lower_case(s: Seq<char>, i: int)
    requires
        is_ascii_chars(s),
        0 <= i < s.len(),
    ensures
        lowered(s).len() == s.len(),
        'A' <= s[i] <= 'Z' ==> lowered(s)[i] as u32 == s[i] as u32 + 32,
        !('A' <= s[i] <= 'Z') ==> lowered(s)[i] == s[i],
{
}

/// A character is replaced wherever it stands, and nothing else is.
pub proof fn law_replaced(s: Seq<char>, a: char, b: char, i: int)
    requires
        0 <= i < s.len(),
    ensures
        with_replaced(s, a, b).len() == s.len(),
        s[i] == a ==> with_replaced(s, a, b)[i] == b,
        s[i] != a ==> with_replaced(s, a, b)[i] == s[i],
{
}

/// A text occurs in another exactly where the other is made of something, the text
/// and something.
pub proof fn law_occurs(p: Seq<char>, s: Seq<char>)
    ensures
        occurs_in(p, s) <==> exists|a: Seq<char>, b: Seq<char>| s == #[trigger] (a + p + b),
{
    if occurs_in(p, s) {
        let i = choose|i: int| #[trigger] stands_at(p, s, i);
        let a = s.take(i);
        let b = s.skip(i + p.len());
        assert(s.subrange(i, i + p.len()) =~= p);
        assert(s =~= a + p + b);
    }
    if exists|a: Seq<char>, b: Seq<char>| s == #[trigger] (a + p + b) {
        let (a, b) = choose|a: Seq<char>, b: Seq<char>| s == #[trigger] (a + p + b);
        let i = a.len() as int;
        assert(s.subrange(i, i + p.len()) =~= p);
        assert(stands_at(p, s, i));
    }
}

/// A number is printed with its last digit behind what is printed of the rest.
pub proof fn law_decimal_digits(n: nat, d: nat)
    requires
        d < 10,
    ensures
        decimal(d) == seq![('0' as u32 + d) as char],
        n > 0 ==> decimal(n * 10 + d) == decimal(n).push(('0' as u32 + d) as char),
{
    if n > 0 {
        assert((n * 10 + d) / 10 == n && (n * 10 + d) % 10 == d);
    }
}

/// White space is the six control characters and the space of ASCII, and beyond it the
/// next line, the spaces that do not break, and the other spaces and separators.
pub proof fn law_white_space(c: char)
    ensures
        is_white_space(c) <==> seq![
            '\u{9}', '\u{a}', '\u{b}', '\u{c}', '\u{d}', '\u{20}', '\u{85}', '\u{a0}', '\u{1680}',
            '\u{2000}', '\u{2001}', '\u{2002}', '\u{2003}', '\u{2004}', '\u{2005}', '\u{2006}',
            '\u{2007}', '\u{2008}', '\u{2009}', '\u{200a}', '\u{2028}', '\u{2029}', '\u{202f}',
            '\u{205f}', '\u{3000}',
        ].contains(c),
{
    let all = seq![
        '\u{9}', '\u{a}', '\u{b}', '\u{c}', '\u{d}', '\u{20}', '\u{85}', '\u{a0}', '\u{1680}',
        '\u{2000}', '\u{2001}', '\u{2002}', '\u{2003}', '\u{2004}', '\u{2005}', '\u{2006}',
        '\u{2007}', '\u{2008}', '\u{2009}', '\u{200a}', '\u{2028}', '\u{2029}', '\u{202f}',
        '\u{205f}', '\u{3000}',
    ];
    if is_white_space(c) {
        let n = c as int;
        let k = if n <= 0xd {
            n - 9
        } else if n == 0x20 {
            5
        } else if n == 0x85 {
            6
        } else if n == 0xa0 {
            7
        } else if n == 0x1680 {
            8
        } else if n <= 0x200a {
            n - 0x2000 + 9
        } else if n == 0x2028 {
            20
        } else if n == 0x2029 {
            21
        } else if n == 0x202f {
            22
        } else if n == 0x205f {
            23
        } else {
            24
        };
        assert(all[k] == c);
    }
}

} // verus!

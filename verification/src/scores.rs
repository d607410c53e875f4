//! CVSS scores of vectors.

use vstd::prelude::*;
use vstd::string::*;

use crate::text::{starts_with, string_in};

verus! {

/// The base score of a CVSS 3 vector as the `cvss` crate prints it; `None` where
/// it does not take the vector.
pub uninterp spec fn cvss_v3_score(vector: Seq<char>) -> Option<Seq<char>>;

/// The score of a CVSS 4 vector as the `cvss` crate prints it; `None` where it
/// does not take the vector.
pub uninterp spec fn cvss_v4_score(vector: Seq<char>) -> Option<Seq<char>>;

/// `cvss::v3::Base::from_str`, then the value of `Base::score`, printed. The
/// result is named: it depends on the vector alone. The one inexact operation in
/// the score is a power, taken where the scope is changed, and no vector's score
/// comes near enough to a step of the rounding that follows for its last digits
/// to matter. What is stated beside the name: only the versions 3.0 and 3.1 are
/// taken, and the version stands first.
#[verifier::external_body]
fn cvss_v3(vector: &str) -> (r: Option<String>)
    ensures
        string_in(r) == cvss_v3_score(vector@),
        r is Some ==> "CVSS:3.0"@.is_prefix_of(vector@) || "CVSS:3.1"@.is_prefix_of(vector@),
{
    match <cvss::v3::Base as std::str::FromStr>::from_str(vector) {
        Ok(base) => Some(base.score().value().to_string()),
        Err(_) => None,
    }
}

/// `cvss::v4::Vector::from_str`, then the value of `Vector::score`, printed. The
/// result is named: it depends on the vector alone. What is stated beside the
/// name: only the version 4.0 is taken, and it stands first.
#[verifier::external_body]
fn cvss_v4(vector: &str) -> (r: Option<String>)
    ensures
        string_in(r) == cvss_v4_score(vector@),
        r is Some ==> "CVSS:4.0"@.is_prefix_of(vector@),
{
    match <cvss::v4::Vector as std::str::FromStr>::from_str(vector) {
        Ok(parsed) => Some(parsed.score().value().to_string()),
        Err(_) => None,
    }
}

/// A score, or zero where the vector was not taken.
pub open spec fn or_zero(score: Option<Seq<char>>) -> Seq<char> {
    match score {
        Some(score) => score,
        None => "0.0"@,
    }
}

/// The score that is reported for a vector, given what either version makes of
/// it: none where it is of neither version.
pub open spec fn reported_score(
    vector: Seq<char>,
    v3: Option<Seq<char>>,
    v4: Option<Seq<char>>,
) -> Seq<char> {
    if "CVSS:4"@.is_prefix_of(vector) {
        or_zero(v4)
    } else if "CVSS:3"@.is_prefix_of(vector) {
        or_zero(v3)
    } else {
        Seq::empty()
    }
}

/// The score that is reported for a vector.
pub open spec fn cvss_of(vector: Seq<char>) -> Seq<char> {
    reported_score(vector, cvss_v3_score(vector), cvss_v4_score(vector))
}

/// A score, or zero where the vector was not taken.
pub fn score_or_zero(score: Option<String>) -> (r: String)
    ensures
        r@ == or_zero(string_in(score)),
{
    match score {
        Some(score) => score,
        None => "0.0".to_owned(),
    }
}

/// The score that is reported for a vector. A vector of a minor version that is
/// not known scores zero.
pub fn get_cvss(vector: String, _id: &str) -> (r: String)
    ensures
        r@ == cvss_of(vector@),
        "CVSS:4"@.is_prefix_of(vector@) && !"CVSS:4.0"@.is_prefix_of(vector@) ==> r@ == "0.0"@,
        "CVSS:3"@.is_prefix_of(vector@) && !"CVSS:3.0"@.is_prefix_of(vector@)
            && !"CVSS:3.1"@.is_prefix_of(vector@) ==> r@ == "0.0"@,
{
    proof {
        reveal_strlit("CVSS:3");
        reveal_strlit("CVSS:4");
        if "CVSS:4"@.is_prefix_of(vector@) && "CVSS:3"@.is_prefix_of(vector@) {
            assert("CVSS:3"@[5] == vector@[5] && "CVSS:4"@[5] == vector@[5]);
        }
    }
    if starts_with(vector.as_str(), "CVSS:4") {
        score_or_zero(cvss_v4(vector.as_str()))
    } else if starts_with(vector.as_str(), "CVSS:3") {
        score_or_zero(cvss_v3(vector.as_str()))
    } else {
        proof {
            reveal_strlit("");
            assert(""@ =~= Seq::<char>::empty());
        }
        "".to_owned()
    }
}

/// A vector of version 4 is reported with the score that version 4 makes of it, one
/// of version 3 with that of version 3, and zero where none is made; what is of
/// neither version has no score.
pub proof fn law_reported_score(rest: Seq<char>, other: Seq<char>)
    requires
        other.len() < 6 || other[0] != 'C' || other[1] != 'V' || other[2] != 'S' || other[3] != 'S'
            || other[4] != ':' || other[5] != '3' && other[5] != '4',
    ensures
        cvss_of("CVSS:4"@ + rest) == (match cvss_v4_score("CVSS:4"@ + rest) {
            Some(score) => score,
            None => "0.0"@,
        }),
        cvss_of("CVSS:3"@ + rest) == (match cvss_v3_score("CVSS:3"@ + rest) {
            Some(score) => score,
            None => "0.0"@,
        }),
        cvss_of(other).len() == 0,
{
    reveal_strlit("CVSS:3");
    reveal_strlit("CVSS:4");
    let v4 = "CVSS:4"@ + rest;
    let v3 = "CVSS:3"@ + rest;
    assert(v4.take(6) =~= "CVSS:4"@);
    assert("CVSS:4"@.is_prefix_of(v4));
    assert(v3.take(6) =~= "CVSS:3"@);
    assert("CVSS:3"@.is_prefix_of(v3));
    assert(v3[5] == '3');
    if "CVSS:4"@.is_prefix_of(v3) {
        assert("CVSS:4"@[5] == v3[5]);
    }
    if "CVSS:3"@.is_prefix_of(other) {
        assert("CVSS:3"@[0] == other[0] && "CVSS:3"@[1] == other[1] && "CVSS:3"@[2] == other[2]
            && "CVSS:3"@[3] == other[3] && "CVSS:3"@[4] == other[4] && "CVSS:3"@[5] == other[5]);
    }
    if "CVSS:4"@.is_prefix_of(other) {
        assert("CVSS:4"@[0] == other[0] && "CVSS:4"@[1] == other[1] && "CVSS:4"@[2] == other[2]
            && "CVSS:4"@[3] == other[3] && "CVSS:4"@[4] == other[4] && "CVSS:4"@[5] == other[5]);
    }
}

} // verus!

//! Which versions an advisory is about.

use vstd::prelude::*;

use crate::json::Json;
use crate::pair_map::{Pair, PairMap};
use crate::text::{
    find, law_split_at_first, lemma_find, same_text, split_at_first, split_once,
};

verus! {

/// An answer that may have to wait for two versions to be compared.
#[derive(Debug)]
pub enum Asked<T> {
    Known(T),
    Needs(String, String),
}

/// What an answer is, with the versions as texts.
pub enum Answer<T> {
    Known(T),
    Needs(Seq<char>, Seq<char>),
}

/// What is known of the order of versions: for a pair, -1, 0 or 1, or `None`
/// where the comparison failed.
pub type Order = Map<Pair, Option<i32>>;

/// The comparisons that did not fail.
pub open spec fn successes(t: Order) -> Order {
    t.restrict(Set::new(|p: Pair| t[p] is Some))
}

/// The comparisons made so far. Successes are kept; failures count until they
/// are forgotten.
pub struct Comparisons {
    known: PairMap<i32>,
    failed: PairMap<bool>,
}

impl View for Comparisons {
    type V = Order;

    closed spec fn view(&self) -> Order {
        Map::new(
            |p: Pair| self.known@.contains_key(p) || self.failed@.contains_key(p),
            |p: Pair|
                if self.known@.contains_key(p) {
                    Some(self.known@[p])
                } else {
                    None
                },
        )
    }
}

impl Comparisons {
    pub fn new() -> (r: Self)
        ensures
            r@ == Map::<Pair, Option<i32>>::empty(),
    {
        let r = Comparisons { known: PairMap::new(), failed: PairMap::new() };
        assert(r@ =~= Map::<Pair, Option<i32>>::empty());
        r
    }

    /// What was found for a pair.
    pub fn get(&self, a: &str, b: &str) -> (r: Option<Option<i32>>)
        ensures
            match r {
                Some(found) => self@.contains_key((a@, b@)) && self@[(a@, b@)] == found,
                None => !self@.contains_key((a@, b@)),
            },
    {
        if let Some(found) = self.known.get(a, b) {
            return Some(Some(*found));
        }
        if self.failed.contains_key(a, b) {
            Some(None)
        } else {
            None
        }
    }

    /// Keeps what was found for a pair. A failure does not displace a success.
    pub fn record(&mut self, a: &str, b: &str, found: Option<i32>)
        ensures
            final(self)@ == (if found is None && old(self)@.contains_key((a@, b@)) && old(
                self,
            )@[(a@, b@)] is Some {
                old(self)@
            } else {
                old(self)@.insert((a@, b@), found)
            }),
    {
        match found {
            Some(order) => self.known.insert(a, b, order),
            None => self.failed.insert(a, b, true),
        }
        assert(self@ =~= (if found is None && old(self)@.contains_key((a@, b@)) && old(self)@[(
            a@,
            b@,
        )] is Some {
            old(self)@
        } else {
            old(self)@.insert((a@, b@), found)
        }));
    }

    /// Forgets the comparisons that failed, so that they are made again.
    pub fn forget_failures(&mut self)
        ensures
            final(self)@ == successes(old(self)@),
    {
        self.failed = PairMap::new();
        assert(self@ =~= successes(old(self)@));
    }
}

pub proof fn lemma_successes_again(t: Order)
    ensures
        successes(successes(t)) == successes(t),
{
    assert(successes(successes(t)) =~= successes(t));
}

/// What is known of the order of two versions.
pub open spec fn order_of(t: Order, a: Seq<char>, b: Seq<char>) -> Answer<Option<i32>> {
    if t.contains_key((a, b)) {
        Answer::Known(t[(a, b)])
    } else {
        Answer::Needs(a, b)
    }
}

/// The two questions one after the other: the second is asked only where the
/// answer to the first is yes.
pub open spec fn and_also(first: Answer<bool>, second: Answer<bool>) -> Answer<bool> {
    if first == Answer::Known(true) {
        second
    } else {
        first
    }
}

/// Whether the version that a range starts at is not above `version`. A failed
/// comparison counts as above.
pub open spec fn at_or_after(t: Order, start: Seq<char>, version: Seq<char>) -> Answer<bool> {
    match order_of(t, start, version) {
        Answer::Known(found) => Answer::Known((found is Some && found->0 <= 0)),
        Answer::Needs(a, b) => Answer::Needs(a, b),
    }
}

/// Whether `version` is below the version that fixes. A failed comparison counts
/// as not below.
pub open spec fn before_fix(t: Order, version: Seq<char>, fixed: Seq<char>) -> Answer<bool> {
    match order_of(t, version, fixed) {
        Answer::Known(found) => Answer::Known((found is Some && found->0 < 0)),
        Answer::Needs(a, b) => Answer::Needs(a, b),
    }
}

/// Whether `version` is not above the last affected one. A failed comparison
/// counts as not above.
pub open spec fn up_to_last(t: Order, version: Seq<char>, last: Seq<char>) -> Answer<bool> {
    match order_of(t, version, last) {
        Answer::Known(found) => Answer::Known((found is None || found->0 <= 0)),
        Answer::Needs(a, b) => Answer::Needs(a, b),
    }
}

/// Whether `version` lies in the range that is open at `start` and that the
/// version `fixed`, where there is one, closes.
pub open spec fn closed_by_fix(
    t: Order,
    version: Seq<char>,
    start: Option<Seq<char>>,
    fixed: Option<Seq<char>>,
) -> Answer<bool> {
    if start is Some && fixed is Some {
        and_also(at_or_after(t, start->0, version), before_fix(t, version, fixed->0))
    } else {
        Answer::Known(false)
    }
}

/// Whether `version` lies in the range that is open at `start` and that the last
/// affected version, where there is one, closes.
pub open spec fn closed_by_last(
    t: Order,
    version: Seq<char>,
    start: Option<Seq<char>>,
    last: Option<Seq<char>>,
) -> Answer<bool> {
    if start is Some && last is Some {
        and_also(at_or_after(t, start->0, version), up_to_last(t, version, last->0))
    } else {
        Answer::Known(false)
    }
}

/// Where the range is open after an event was looked at for its start.
pub open spec fn opened(event: Json, start: Option<Seq<char>>) -> Option<Seq<char>> {
    match event.text_field("introduced"@) {
        Some(s) => Some(
            if s.len() == 0 {
                "0"@
            } else {
                s
            },
        ),
        None => start,
    }
}

/// Where the range is open after an end of it was seen, or none.
pub open spec fn unless_ended(start: Option<Seq<char>>, end: Option<Seq<char>>) -> Option<
    Seq<char>,
> {
    if end is Some {
        None
    } else {
        start
    }
}

/// Whether `version` lies in a range that the events from the `i`-th on close or
/// leave open, the range being open at `start` before them.
pub open spec fn in_events_from(
    t: Order,
    version: Seq<char>,
    events: Seq<Json>,
    i: int,
    start: Option<Seq<char>>,
) -> Answer<bool>
    decreases events.len() - i,
{
    if i >= events.len() {
        match start {
            Some(start) => at_or_after(t, start, version),
            None => Answer::Known(false),
        }
    } else {
        let event = events[i];
        let fixed = event.text_field("fixed"@);
        let last = event.text_field("last_affected"@);
        let start1 = opened(event, start);
        let start2 = unless_ended(start1, fixed);
        let by_fix = closed_by_fix(t, version, start1, fixed);
        let by_last = closed_by_last(t, version, start2, last);
        if by_fix != Answer::Known(false) {
            by_fix
        } else if by_last != Answer::Known(false) {
            by_last
        } else {
            in_events_from(t, version, events, i + 1, unless_ended(start2, last))
        }
    }
}

/// Whether `version` lies in one of the ranges that the events of a list
/// describe. Before the first event the range is open at version 0; an empty
/// list describes no range.
pub open spec fn in_events(t: Order, version: Seq<char>, events: Seq<Json>) -> Answer<bool> {
    if events.len() == 0 {
        Answer::Known(false)
    } else {
        in_events_from(t, version, events, 0, Some("0"@))
    }
}

/// What an executable answer stands for.
pub open spec fn answer_of(a: Asked<bool>) -> Answer<bool> {
    match a {
        Asked::Known(x) => Answer::Known(x),
        Asked::Needs(x, y) => Answer::Needs(x@, y@),
    }
}

/// What is known of the order of two versions.
pub fn rpm_order(t: &Comparisons, a: &str, b: &str) -> (r: Asked<Option<i32>>)
    ensures
        match r {
            Asked::Known(found) => order_of(t@, a@, b@) == Answer::Known(found),
            Asked::Needs(x, y) => order_of(t@, a@, b@) == Answer::<Option<i32>>::Needs(x@, y@),
        },
{
    match t.get(a, b) {
        Some(found) => Asked::Known(found),
        None => Asked::Needs(a.to_owned(), b.to_owned()),
    }
}

/// Whether a range that starts at `start` has begun at `version`.
fn has_begun(t: &Comparisons, start: &str, version: &str) -> (r: Asked<bool>)
    ensures
        answer_of(r) == at_or_after(t@, start@, version@),
{
    match rpm_order(t, start, version) {
        Asked::Known(Some(order)) => Asked::Known(order <= 0),
        Asked::Known(None) => Asked::Known(false),
        Asked::Needs(a, b) => Asked::Needs(a, b),
    }
}

/// Whether `version` lies between a start and the version that fixes.
fn within_fix(t: &Comparisons, version: &str, start: &str, fixed: &str) -> (r: Asked<bool>)
    ensures
        answer_of(r) == closed_by_fix(t@, version@, Some(start@), Some(fixed@)),
{
    match has_begun(t, start, version) {
        Asked::Known(true) => match rpm_order(t, version, fixed) {
            Asked::Known(Some(order)) => Asked::Known(order < 0),
            Asked::Known(None) => Asked::Known(false),
            Asked::Needs(a, b) => Asked::Needs(a, b),
        },
        other => other,
    }
}

/// Whether `version` lies between a start and the last affected version.
fn within_last(t: &Comparisons, version: &str, start: &str, last: &str) -> (r: Asked<bool>)
    ensures
        answer_of(r) == closed_by_last(t@, version@, Some(start@), Some(last@)),
{
    match has_begun(t, start, version) {
        Asked::Known(true) => match rpm_order(t, version, last) {
            Asked::Known(Some(order)) => Asked::Known(order <= 0),
            Asked::Known(None) => Asked::Known(true),
            Asked::Needs(a, b) => Asked::Needs(a, b),
        },
        other => other,
    }
}

/// Whether a version lies in one of the ranges that a list of events describes.
pub fn version_in_events(rpm_version: &str, events: &Vec<Json>, t: &Comparisons) -> (r: Asked<bool>)
    ensures
        answer_of(r) == in_events(t@, rpm_version@, events@),
{
    if events.len() == 0 {
        return Asked::Known(false);
    }
    let mut start: Option<&str> = Some("0");
    for i in 0..events.len()
        invariant
            in_events(t@, rpm_version@, events@) == in_events_from(
                t@,
                rpm_version@,
                events@,
                i as int,
                text_in(start),
            ),
    {
        let event = &events[i];
        if let Some(s) = event.get_str("introduced") {
            start = Some(
                if s.is_empty() {
                    "0"
                } else {
                    s
                },
            );
        }
        if let Some(fixed) = event.get_str("fixed") {
            if let Some(s) = start {
                match within_fix(t, rpm_version, s, fixed) {
                    Asked::Known(false) => {
                        start = None;
                    },
                    other => {
                        return other;
                    },
                }
            }
        }
        if let Some(last) = event.get_str("last_affected") {
            if let Some(s) = start {
                match within_last(t, rpm_version, s, last) {
                    Asked::Known(false) => {
                        start = None;
                    },
                    other => {
                        return other;
                    },
                }
            }
        }
    }
    match start {
        Some(s) => has_begun(t, s, rpm_version),
        None => Asked::Known(false),
    }
}

/// The text that may be there.
pub open spec fn text_in(s: Option<&str>) -> Option<Seq<char>> {
    match s {
        Some(s) => Some(s@),
        None => None,
    }
}

/// A version without the epoch in front.
pub open spec fn bare_version(version: Seq<char>) -> Seq<char> {
    match split_at_first(version, ':') {
        Some((_, bare)) => bare,
        None => version,
    }
}

/// Whether an entry lists `version`, with its epoch or without.
pub open spec fn listed(version: Seq<char>, affected: Json) -> bool {
    match affected.items_field("versions"@) {
        Some(items) => exists|i: int|
            0 <= i < items.len() && {
                let v = (#[trigger] items[i]).text();
                v == Some(version) || v == Some(bare_version(version))
            },
        None => false,
    }
}

/// What a range says of `version`: ranges of versions of the ecosystem count,
/// others say nothing.
pub open spec fn in_range(t: Order, version: Seq<char>, range: Json) -> Answer<bool> {
    match range.items_field("events"@) {
        Some(events) => if range.text_field("type"@) == Some("ECOSYSTEM"@) {
            in_events(t, version, events)
        } else {
            Answer::Known(false)
        },
        None => Answer::Known(false),
    }
}

/// Whether `version` lies in one of the ranges from the `i`-th on.
pub open spec fn in_ranges(t: Order, version: Seq<char>, ranges: Seq<Json>, i: int) -> Answer<bool>
    decreases ranges.len() - i,
{
    if i >= ranges.len() {
        Answer::Known(false)
    } else {
        let here = in_range(t, version, ranges[i]);
        if here != Answer::Known(false) {
            here
        } else {
            in_ranges(t, version, ranges, i + 1)
        }
    }
}

/// Whether an entry of an advisory is about `version`: it lists it, or one of
/// its ranges holds it.
pub open spec fn in_affected(t: Order, version: Seq<char>, affected: Json) -> Answer<bool> {
    if listed(version, affected) {
        Answer::Known(true)
    } else {
        match affected.items_field("ranges"@) {
            Some(ranges) => in_ranges(t, version, ranges, 0),
            None => Answer::Known(false),
        }
    }
}

/// Whether an entry lists a version.
fn lists_version(rpm_version: &str, affected: &Json) -> (r: bool)
    ensures
        r == listed(rpm_version@, *affected),
{
    let items = match affected.get_array("versions") {
        Some(items) => items,
        None => return false,
    };
    let bare = match split_once(rpm_version, ':') {
        Some((_, bare)) => bare,
        None => rpm_version.to_owned(),
    };
    for i in 0..items.len()
        invariant
            affected.items_field("versions"@) == Some(items@),
            bare@ == bare_version(rpm_version@),
            forall|j: int|
                0 <= j < i ==> {
                    let v = (#[trigger] items@[j]).text();
                    v != Some(rpm_version@) && v != Some(bare_version(rpm_version@))
                },
    {
        if let Some(v) = items[i].as_str() {
            if same_text(v, rpm_version) || same_text(v, bare.as_str()) {
                return true;
            }
        }
    }
    false
}

/// Whether an entry of an advisory is about a version.
pub fn version_in_affected(rpm_version: &str, affected: &Json, t: &Comparisons) -> (r: Asked<bool>)
    ensures
        answer_of(r) == in_affected(t@, rpm_version@, *affected),
{
    if lists_version(rpm_version, affected) {
        return Asked::Known(true);
    }
    if let Some(ranges) = affected.get_array("ranges") {
        for i in 0..ranges.len()
            invariant
                in_affected(t@, rpm_version@, *affected) == in_ranges(
                    t@,
                    rpm_version@,
                    ranges@,
                    i as int,
                ),
        {
            let range = &ranges[i];
            let of_ecosystem = match range.get_str("type") {
                Some(kind) => same_text(kind, "ECOSYSTEM"),
                None => false,
            };
            if of_ecosystem {
                if let Some(events) = range.get_array("events") {
                    match version_in_events(rpm_version, events, t) {
                        Asked::Known(false) => {},
                        other => {
                            return other;
                        },
                    }
                }
            }
        }
    }
    Asked::Known(false)
}

/// Whether `more` knows all that `t` knows.
pub open spec fn extends(t: Order, more: Order) -> bool {
    forall|p: Pair| #[trigger]
        t.contains_key(p) ==> more.contains_key(p) && more[p] == t[p]
}

/// Whether an answer asks only for what `t` does not know.
pub open spec fn asks_unknown<T>(answer: Answer<T>, t: Order) -> bool {
    match answer {
        Answer::Needs(a, b) => !t.contains_key((a, b)),
        Answer::Known(_) => true,
    }
}

/// Whether an answer, once known, is still the same later.
pub open spec fn settled<T>(answer: Answer<T>, later: Answer<T>) -> bool {
    answer is Known ==> later == answer
}

proof fn lemma_events(
    t: Order,
    more: Order,
    version: Seq<char>,
    events: Seq<Json>,
    i: int,
    start: Option<Seq<char>>,
)
    requires
        extends(t, more),
    ensures
        asks_unknown(in_events_from(t, version, events, i, start), t),
        settled(
            in_events_from(t, version, events, i, start),
            in_events_from(more, version, events, i, start),
        ),
    decreases events.len() - i,
{
    if i < events.len() {
        let event = events[i];
        let start2 = unless_ended(opened(event, start), event.text_field("fixed"@));
        lemma_events(
            t,
            more,
            version,
            events,
            i + 1,
            unless_ended(start2, event.text_field("last_affected"@)),
        );
    }
}

proof fn lemma_ranges(t: Order, more: Order, version: Seq<char>, ranges: Seq<Json>, i: int)
    requires
        extends(t, more),
        0 <= i,
    ensures
        asks_unknown(in_ranges(t, version, ranges, i), t),
        settled(in_ranges(t, version, ranges, i), in_ranges(more, version, ranges, i)),
    decreases ranges.len() - i,
{
    if i < ranges.len() {
        if let Some(events) = ranges[i].items_field("events"@) {
            lemma_events(t, more, version, events, 0, Some("0"@));
        }
        lemma_ranges(t, more, version, ranges, i + 1);
    }
}

/// Whether an entry is about a version: what is asked for is never known
/// already, and an answer stays the same whatever else is found out.
pub proof fn law_in_affected_settles(t: Order, more: Order, version: Seq<char>, affected: Json)
    requires
        extends(t, more),
    ensures
        asks_unknown(in_affected(t, version, affected), t),
        settled(in_affected(t, version, affected), in_affected(more, version, affected)),
{
    if let Some(ranges) = affected.items_field("ranges"@) {
        lemma_ranges(t, more, version, ranges, 0);
    }
}

/// Whether an event only opens a range at that version.
pub open spec fn only_introduces(event: Json, version: Seq<char>) -> bool {
    &&& event.text_field("introduced"@) == Some(version)
    &&& event.text_field("fixed"@) is None
    &&& event.text_field("last_affected"@) is None
}

/// Whether an event only closes a range, by a fix or by a last version.
pub open spec fn only_ends(event: Json, fixed: Option<Seq<char>>, last: Option<Seq<char>>) -> bool {
    &&& event.text_field("introduced"@) is None
    &&& event.text_field("fixed"@) == fixed
    &&& event.text_field("last_affected"@) == last
}

/// A range that is introduced at one version and fixed in another holds what is
/// at or above the one and below the other; one with a last affected version
/// holds that too; one without an end holds all from its start on.
pub proof fn law_simple_ranges(
    t: Order,
    version: Seq<char>,
    start: Seq<char>,
    end: Seq<char>,
    opens: Json,
    closes: Json,
)
    requires
        start.len() > 0,
        only_introduces(opens, start),
    ensures
        only_ends(closes, Some(end), None) ==> in_events(t, version, seq![opens, closes])
            == and_also(at_or_after(t, start, version), before_fix(t, version, end)),
        only_ends(closes, None, Some(end)) ==> in_events(t, version, seq![opens, closes])
            == and_also(at_or_after(t, start, version), up_to_last(t, version, end)),
        in_events(t, version, seq![opens]) == at_or_after(t, start, version),
{
    reveal_with_fuel(in_events_from, 3);
}

/// Whether one version is known not to be above another.
pub open spec fn known_at_most(t: Order, a: Seq<char>, b: Seq<char>) -> bool {
    t.contains_key((a, b)) && t[(a, b)] is Some && t[(a, b)]->0 <= 0
}

/// Whether one version is known to be below another.
pub open spec fn known_below(t: Order, a: Seq<char>, b: Seq<char>) -> bool {
    t.contains_key((a, b)) && t[(a, b)] is Some && t[(a, b)]->0 < 0
}

/// Whether one version was compared with another and was not found to be above.
pub open spec fn not_found_above(t: Order, a: Seq<char>, b: Seq<char>) -> bool {
    t.contains_key((a, b)) && (t[(a, b)] is None || t[(a, b)]->0 <= 0)
}

/// Whether the `k`-th event opens a range at that version; before the first event
/// a range is open at version 0.
pub open spec fn starts_at(events: Seq<Json>, k: int, s: Seq<char>) -> bool {
    ||| k == -1 && s == "0"@
    ||| 0 <= k < events.len() && (events[k].text_field("introduced"@) matches Some(x) && s == (
    if x.len() == 0 {
        "0"@
    } else {
        x
    }))
}

/// Whether an event ends the range that is open.
pub open spec fn is_end(event: Json) -> bool {
    event.text_field("fixed"@) is Some || event.text_field("last_affected"@) is Some
}

/// Whether the range that the `k`-th event opens is open before the `i`-th.
pub open spec fn open_before(events: Seq<Json>, k: int, s: Seq<char>, i: int) -> bool {
    &&& -1 <= k < i <= events.len()
    &&& starts_at(events, k, s)
    &&& forall|j: int|
        k < j < i ==> (#[trigger] events[j]).text_field("introduced"@) is None
    &&& forall|j: int| 0 <= j && k <= j < i ==> !is_end(#[trigger] events[j])
}

/// Whether the range that the `k`-th event opens is open when it comes to the end
/// that the `i`-th event may give it; behind the last event, whether it is left
/// open.
pub open spec fn open_at(events: Seq<Json>, k: int, s: Seq<char>, i: int) -> bool {
    ||| k == i && starts_at(events, k, s) && 0 <= k < events.len()
    ||| open_before(events, k, s, i) && (i < events.len() ==> events[i].text_field(
        "introduced"@,
    ) is None)
}

/// Whether a version lies between the start of a range and the end that the `i`-th
/// event gives it; behind the last event, whether it is not below the start.
pub open spec fn lies_within(
    t: Order,
    version: Seq<char>,
    events: Seq<Json>,
    s: Seq<char>,
    i: int,
) -> bool {
    known_at_most(t, s, version) && (i == events.len() || match events[i].text_field("fixed"@) {
        Some(fixed) => known_below(t, version, fixed),
        None => match events[i].text_field("last_affected"@) {
            Some(last) => not_found_above(t, version, last),
            None => false,
        },
    })
}

spec fn open_is(events: Seq<Json>, i: int, start: Option<Seq<char>>) -> bool {
    &&& forall|k: int, s: Seq<char>| #[trigger]
        open_before(events, k, s, i) ==> start == Some(s)
    &&& start matches Some(s) ==> exists|k: int| open_before(events, k, s, i)
}

proof fn lemma_event_opens(events: Seq<Json>, i: int, start: Option<Seq<char>>)
    requires
        0 <= i < events.len(),
        open_is(events, i, start),
    ensures
        forall|k: int, s: Seq<char>| #[trigger]
            open_at(events, k, s, i) ==> opened(events[i], start) == Some(s),
        opened(events[i], start) matches Some(s) ==> exists|k: int| open_at(events, k, s, i),
        open_is(
            events,
            i + 1,
            unless_ended(
                unless_ended(opened(events[i], start), events[i].text_field("fixed"@)),
                events[i].text_field("last_affected"@),
            ),
        ),
{
    let event = events[i];
    let start1 = opened(event, start);
    if let Some(s) = start1 {
        if event.text_field("introduced"@) is Some {
            assert(open_at(events, i, s, i));
        } else {
            let k = choose|k: int| open_before(events, k, s, i);
            assert(open_at(events, k, s, i));
        }
    }
    let next = unless_ended(
        unless_ended(start1, event.text_field("fixed"@)),
        event.text_field("last_affected"@),
    );
    assert forall|k: int, s: Seq<char>| #[trigger]
        open_before(events, k, s, i + 1) implies next == Some(s) by {
        assert(!is_end(events[i]));
        if k < i {
            assert(events[i].text_field("introduced"@) is None);
            assert(open_before(events, k, s, i));
        }
        assert(open_at(events, k, s, i));
    }
    if let Some(s) = next {
        let k = choose|k: int| open_at(events, k, s, i);
        assert(open_before(events, k, s, i + 1));
    }
}

proof fn lemma_events_mean(
    t: Order,
    version: Seq<char>,
    events: Seq<Json>,
    i: int,
    start: Option<Seq<char>>,
)
    requires
        0 <= i <= events.len(),
        open_is(events, i, start),
    ensures
        in_events_from(t, version, events, i, start) == Answer::Known(true) ==> exists|
            k: int,
            s: Seq<char>,
            m: int,
        | #[trigger]
            open_at(events, k, s, m) && i <= m && lies_within(t, version, events, s, m),
        in_events_from(t, version, events, i, start) == Answer::Known(false) ==> forall|
            k: int,
            s: Seq<char>,
            m: int,
        | #[trigger]
            open_at(events, k, s, m) && i <= m ==> !lies_within(t, version, events, s, m),
    decreases events.len() - i,
{
    let answer = in_events_from(t, version, events, i, start);
    if i == events.len() {
        if answer == Answer::Known(true) {
            let s = start->0;
            let k = choose|k: int| open_before(events, k, s, i);
            assert(open_at(events, k, s, i));
            assert(lies_within(t, version, events, s, i));
        }
        assert forall|k: int, s: Seq<char>, m: int| #[trigger]
            open_at(events, k, s, m) && i <= m && answer == Answer::Known(false) implies !lies_within(
            t,
            version,
            events,
            s,
            m,
        ) by {
            assert(open_before(events, k, s, i));
        }
    } else {
        let event = events[i];
        let fixed = event.text_field("fixed"@);
        let last = event.text_field("last_affected"@);
        let start1 = opened(event, start);
        let next = unless_ended(unless_ended(start1, fixed), last);
        lemma_event_opens(events, i, start);
        lemma_events_mean(t, version, events, i + 1, next);
        if answer == Answer::Known(true) {
            if closed_by_fix(t, version, start1, fixed) == Answer::Known(true) || closed_by_last(
                t,
                version,
                unless_ended(start1, fixed),
                last,
            ) == Answer::Known(true) {
                let s = start1->0;
                let k = choose|k: int| open_at(events, k, s, i);
                assert(lies_within(t, version, events, s, i));
            }
        }
        assert forall|k: int, s: Seq<char>, m: int| #[trigger]
            open_at(events, k, s, m) && i <= m && answer == Answer::Known(false) implies !lies_within(
            t,
            version,
            events,
            s,
            m,
        ) by {
            if m == i {
                assert(start1 == Some(s));
            }
        }
    }
}

/// A version lies in the ranges of a list of events exactly where it lies in one
/// of them: from the version at which a range is opened, or from 0, up to the fix
/// or to the last affected version that ends it, or without an end.
pub proof fn law_events_are_ranges(t: Order, version: Seq<char>, events: Seq<Json>)
    requires
        events.len() > 0,
    ensures
        in_events(t, version, events) == Answer::Known(true) ==> exists|
            k: int,
            s: Seq<char>,
            i: int,
        | #[trigger]
            open_at(events, k, s, i) && lies_within(t, version, events, s, i),
        in_events(t, version, events) == Answer::Known(false) ==> forall|
            k: int,
            s: Seq<char>,
            i: int,
        | #[trigger]
            open_at(events, k, s, i) ==> !lies_within(t, version, events, s, i),
{
    assert(open_before(events, -1, "0"@, 0));
    assert(open_is(events, 0, Some("0"@)));
    lemma_events_mean(t, version, events, 0, Some("0"@));
    if in_events(t, version, events) == Answer::Known(false) {
        assert forall|k: int, s: Seq<char>, i: int| #[trigger]
            open_at(events, k, s, i) implies !lies_within(t, version, events, s, i) by {
            assert(0 <= i);
        }
    }
}

/// Whether an answer, where it asks for a comparison, asks for one of that version
/// with another.
pub open spec fn asks_about(answer: Answer<bool>, version: Seq<char>) -> bool {
    answer matches Answer::Needs(a, b) ==> a == version || b == version
}

proof fn lemma_events_ask(
    t: Order,
    version: Seq<char>,
    events: Seq<Json>,
    i: int,
    start: Option<Seq<char>>,
)
    ensures
        asks_about(in_events_from(t, version, events, i, start), version),
    decreases events.len() - i,
{
    if i < events.len() {
        let event = events[i];
        let start2 = unless_ended(opened(event, start), event.text_field("fixed"@));
        lemma_events_ask(
            t,
            version,
            events,
            i + 1,
            unless_ended(start2, event.text_field("last_affected"@)),
        );
    }
}

proof fn lemma_ranges_ask(t: Order, version: Seq<char>, ranges: Seq<Json>, i: int)
    requires
        0 <= i,
    ensures
        asks_about(in_ranges(t, version, ranges, i), version),
    decreases ranges.len() - i,
{
    if i < ranges.len() {
        if let Some(events) = ranges[i].items_field("events"@) {
            lemma_events_ask(t, version, events, 0, Some("0"@));
        }
        lemma_ranges_ask(t, version, ranges, i + 1);
    }
}

/// Every comparison that is asked for has the full version, with its epoch, on one
/// of its sides.
pub proof fn law_full_version_is_compared(t: Order, version: Seq<char>, affected: Json)
    ensures
        asks_about(in_affected(t, version, affected), version),
{
    if let Some(ranges) = affected.items_field("ranges"@) {
        lemma_ranges_ask(t, version, ranges, 0);
    }
}

/// Whether an entry lists no version that is the given one, or what stands behind
/// the first colon in it.
pub open spec fn lists_none_of(affected: Json, version: Seq<char>) -> bool {
    affected.items_field("versions"@) matches Some(items) ==> forall|i: int|
        0 <= i < items.len() ==> (#[trigger] items[i]).text() != Some(version) && forall|k: int|
            0 <= k < version.len() && version[k] == ':' && !version.take(k).contains(':')
                ==> items[i].text() != Some(#[trigger] version.skip(k + 1))
}

proof fn lemma_not_listed(affected: Json, version: Seq<char>)
    requires
        lists_none_of(affected, version),
    ensures
        !listed(version, affected),
{
    if let Some(items) = affected.items_field("versions"@) {
        lemma_find(version, ':', 0);
        let k = find(version, ':', 0);
        assert forall|i: int| 0 <= i < items.len() implies (#[trigger] items[i]).text() != Some(
            version,
        ) && items[i].text() != Some(bare_version(version)) by {
            if k < version.len() {
                assert(!version.take(k).contains(':'));
                assert(items[i].text() != Some(version.skip(k + 1)));
            }
        }
    }
}

/// An entry that lists a version is about it, with its epoch or without.
pub proof fn law_listed_versions_are_affected(
    t: Order,
    epoch: Seq<char>,
    version: Seq<char>,
    affected: Json,
    items: Seq<Json>,
    i: int,
)
    requires
        !epoch.contains(':'),
        affected.items_field("versions"@) == Some(items),
        0 <= i < items.len(),
    ensures
        items[i].text() == Some(version) ==> in_affected(t, version, affected) == Answer::Known(
            true,
        ),
        items[i].text() == Some(version) ==> in_affected(t, epoch + seq![':'] + version, affected)
            == Answer::Known(true),
{
    law_split_at_first(epoch, ':', version);
    if items[i].text() == Some(version) {
        assert(listed(version, affected));
        assert(listed(epoch + seq![':'] + version, affected));
    }
}

/// An entry that does not list the version and has one range goes by the events of
/// the range, for the full version with its epoch, where the range is one of
/// versions of the ecosystem; else it is not about the version, and so where it has
/// no range.
pub proof fn law_range_decides(
    t: Order,
    version: Seq<char>,
    affected: Json,
    range: Json,
    events: Seq<Json>,
)
    requires
        lists_none_of(affected, version),
    ensures
        affected.items_field("ranges"@) == Some(seq![range]) && range.items_field("events"@)
            == Some(events) && range.text_field("type"@) == Some("ECOSYSTEM"@) ==> in_affected(
            t,
            version,
            affected,
        ) == in_events(t, version, events),
        affected.items_field("ranges"@) == Some(seq![range]) && range.text_field("type"@) != Some(
            "ECOSYSTEM"@,
        ) ==> in_affected(t, version, affected) == Answer::Known(false),
        affected.items_field("ranges"@) == Some(seq![range]) && range.items_field("events"@)
            is None ==> in_affected(t, version, affected) == Answer::Known(false),
        affected.items_field("ranges"@) == Some(Seq::<Json>::empty()) || affected.items_field(
            "ranges"@,
        ) is None ==> in_affected(t, version, affected) == Answer::Known(false),
{
    lemma_not_listed(affected, version);
    reveal_with_fuel(in_ranges, 3);
}

/// An entry that does not list the version and has one range, introduced in one
/// version and fixed in another, is about the version exactly where the first is
/// not above it and it is below the second; the two comparisons are of the full
/// version with its epoch.
pub proof fn law_fixed_range(
    t: Order,
    version: Seq<char>,
    affected: Json,
    range: Json,
    opens: Json,
    closes: Json,
    start: Seq<char>,
    fixed: Seq<char>,
)
    requires
        lists_none_of(affected, version),
        affected.items_field("ranges"@) == Some(seq![range]),
        range.text_field("type"@) == Some("ECOSYSTEM"@),
        range.items_field("events"@) == Some(seq![opens, closes]),
        start.len() > 0,
        only_introduces(opens, start),
        only_ends(closes, Some(fixed), None),
    ensures
        t.contains_key((start, version)) && t.contains_key((version, fixed)) ==> in_affected(
            t,
            version,
            affected,
        ) == Answer::Known(known_at_most(t, start, version) && known_below(t, version, fixed)),
        !t.contains_key((start, version)) ==> in_affected(t, version, affected) == Answer::<
            bool,
        >::Needs(start, version),
        known_at_most(t, start, version) && !t.contains_key((version, fixed)) ==> in_affected(
            t,
            version,
            affected,
        ) == Answer::<bool>::Needs(version, fixed),
{
    law_range_decides(t, version, affected, range, seq![opens, closes]);
    reveal_with_fuel(in_events_from, 3);
}

/// An entry that does not list the version and has one range, introduced in one
/// version, with a last affected version, is about the version exactly where the
/// first is not above it and it is not found to be above the second. Without an end
/// the first alone decides.
pub proof fn law_last_affected_range(
    t: Order,
    version: Seq<char>,
    affected: Json,
    range: Json,
    opens: Json,
    closes: Json,
    start: Seq<char>,
    last: Seq<char>,
)
    requires
        lists_none_of(affected, version),
        affected.items_field("ranges"@) == Some(seq![range]),
        range.text_field("type"@) == Some("ECOSYSTEM"@),
        start.len() > 0,
        only_introduces(opens, start),
        only_ends(closes, None, Some(last)),
    ensures
        range.items_field("events"@) == Some(seq![opens, closes]) && t.contains_key(
            (start, version),
        ) && t.contains_key((version, last)) ==> in_affected(t, version, affected)
            == Answer::Known(
            known_at_most(t, start, version) && not_found_above(t, version, last),
        ),
        range.items_field("events"@) == Some(seq![opens]) && t.contains_key((start, version))
            ==> in_affected(t, version, affected) == Answer::Known(
            known_at_most(t, start, version),
        ),
        range.items_field("events"@) == Some(Seq::<Json>::empty()) ==> in_affected(
            t,
            version,
            affected,
        ) == Answer::Known(false),
{
    if let Some(events) = range.items_field("events"@) {
        law_range_decides(t, version, affected, range, events);
    }
    reveal_with_fuel(in_events_from, 3);
}

proof fn lemma_ranges_mean(t: Order, version: Seq<char>, ranges: Seq<Json>, i: int)
    requires
        0 <= i <= ranges.len(),
    ensures
        in_ranges(t, version, ranges, i) == Answer::Known(true) ==> exists|k: int|
            i <= k < ranges.len() && in_range(t, version, #[trigger] ranges[k]) == Answer::Known(
                true,
            ),
        in_ranges(t, version, ranges, i) == Answer::Known(false) ==> forall|k: int|
            i <= k < ranges.len() ==> in_range(t, version, #[trigger] ranges[k]) == Answer::Known(
                false,
            ),
    decreases ranges.len() - i,
{
    if i < ranges.len() {
        lemma_ranges_mean(t, version, ranges, i + 1);
        assert(in_range(t, version, ranges[i]) == in_range(t, version, ranges[i]));
    }
}

/// An entry that does not list the version is about it exactly where one of its
/// ranges of versions of the ecosystem holds it.
pub proof fn law_one_range_is_enough(
    t: Order,
    version: Seq<char>,
    affected: Json,
    ranges: Seq<Json>,
)
    requires
        lists_none_of(affected, version),
        affected.items_field("ranges"@) == Some(ranges),
    ensures
        in_affected(t, version, affected) == Answer::Known(true) ==> exists|k: int|
            0 <= k < ranges.len() && (#[trigger] ranges[k]).text_field("type"@) == Some(
                "ECOSYSTEM"@,
            ) && (ranges[k].items_field("events"@) matches Some(events) && in_events(
                t,
                version,
                events,
            ) == Answer::Known(true)),
        in_affected(t, version, affected) == Answer::Known(false) ==> forall|k: int|
            0 <= k < ranges.len() && (#[trigger] ranges[k]).text_field("type"@) == Some(
                "ECOSYSTEM"@,
            ) ==> (ranges[k].items_field("events"@) matches Some(events) ==> in_events(
                t,
                version,
                events,
            ) == Answer::Known(false)),
{
    lemma_not_listed(affected, version);
    lemma_ranges_mean(t, version, ranges, 0);
}

/// What is kept of the comparisons are those that did not fail.
pub proof fn law_successes_are_kept(t: Order, p: Pair)
    ensures
        successes(t).contains_key(p) <==> t.contains_key(p) && t[p] is Some,
        successes(t).contains_key(p) ==> successes(t)[p] == t[p],
{
}

} // verus!

//! Keys that come due at set times, kept in the timeout set of
//! `inner_mem_cache`.

use crate::lemmas::{
    lemma_filter_contains, lemma_filter_push, lemma_push_contains, lemma_same_filter,
};
use inner_mem_cache::TimeoutSet;
use vstd::prelude::*;

verus! {

/// The timeout set of `inner_mem_cache`.
#[verifier::external_type_specification]
#[verifier::external_body]
#[verifier::reject_recursive_types(T)]
pub struct ExTimeoutSet<T>(TimeoutSet<T>);

/// What a timeout set holds: its times with their keys, in the order of the
/// times and, for one time, in the order in which the keys were added.
pub uninterp spec fn timeout_entries(set: TimeoutSet<String>) -> Seq<(u64, Seq<char>)>;

/// Whether an entry has come due at a time.
pub open spec fn due_by(time: u64) -> spec_fn((u64, Seq<char>)) -> bool {
    |e: (u64, Seq<char>)| e.0 <= time
}

/// Whether an entry comes due only after a time.
pub open spec fn due_after(time: u64) -> spec_fn((u64, Seq<char>)) -> bool {
    |e: (u64, Seq<char>)| e.0 > time
}

/// The entries after a key was added: it stands behind all that come due no
/// later than it does.
pub open spec fn scheduled(entries: Seq<(u64, Seq<char>)>, time: u64, key: Seq<char>) -> Seq<
    (u64, Seq<char>),
> {
    entries.filter(due_by(time)).push((time, key)) + entries.filter(due_after(time))
}

/// The keys that have come due at a time, in the order of their times.
pub open spec fn due_keys(entries: Seq<(u64, Seq<char>)>, time: u64) -> Seq<Seq<char>> {
    entries.filter(due_by(time)).map_values(|e: (u64, Seq<char>)| e.1)
}

/// Whether the entries stand in the order of their times.
pub open spec fn in_time_order(entries: Seq<(u64, Seq<char>)>) -> bool {
    forall|i: int, j: int|
        0 <= i < j < entries.len() ==> (#[trigger] entries[i]).0 <= (#[trigger] entries[j]).0
}

/// `TimeoutSet::default` of `inner_mem_cache`: an empty set.
#[verifier::external_body]
pub(crate) fn empty_timeout_set() -> (set: TimeoutSet<String>)
    ensures
        timeout_entries(set) == Seq::<(u64, Seq<char>)>::empty(),
{
    TimeoutSet::default()
}

/// `TimeoutSet::add` of `inner_mem_cache`: puts the key at the end of the list
/// that is kept for its time; the lists are kept in the order of their times.
#[verifier::external_body]
pub(crate) fn add_timeout(set: &mut TimeoutSet<String>, time: u64, key: String)
    ensures
        timeout_entries(*final(set)) == scheduled(timeout_entries(*old(set)), time, key@),
{
    set.add(time, key)
}

/// `TimeoutSet::timeout` of `inner_mem_cache`: takes out the lists of all
/// times up to the given one and returns their keys, list after list in the
/// order of the times.
#[verifier::external_body]
pub(crate) fn take_timeouts(set: &mut TimeoutSet<String>, time: u64) -> (keys: Vec<String>)
    ensures
        keys@.map_values(|k: String| k@) == due_keys(timeout_entries(*old(set)), time),
        timeout_entries(*final(set)) == timeout_entries(*old(set)).filter(due_after(time)),
{
    set.timeout(time).into_iter().collect()
}

/// What a filter keeps of entries in time order is in time order.
proof fn lemma_filter_keeps_order(
    entries: Seq<(u64, Seq<char>)>,
    pred: spec_fn((u64, Seq<char>)) -> bool,
)
    ensures
        in_time_order(entries) ==> in_time_order(entries.filter(pred)),
    decreases entries.len(),
{
    if entries.len() == 0 {
        reveal(Seq::filter);
    } else {
        let rest = entries.drop_last();
        let last = entries.last();
        let kept = rest.filter(pred);
        lemma_filter_keeps_order(rest, pred);
        lemma_filter_push(rest, pred, last);
        assert(rest.push(last) =~= entries);
        if in_time_order(entries) && pred(last) {
            assert forall|i: int| 0 <= i < kept.len() implies (#[trigger] kept[i]).0 <= last.0 by {
                lemma_filter_contains(rest, pred, kept[i]);
                let j = choose|j: int| 0 <= j < rest.len() && rest[j] == kept[i];
                assert(entries[j] == rest[j] && entries[rest.len() as int] == last);
            }
        }
    }
}

/// Adding a key keeps the time order, and what is held afterwards is what was
/// held before and the new entry.
pub proof fn law_scheduling_adds_one(
    entries: Seq<(u64, Seq<char>)>,
    time: u64,
    key: Seq<char>,
)
    ensures
        in_time_order(entries) ==> in_time_order(scheduled(entries, time, key)),
        forall|e: (u64, Seq<char>)| #[trigger]
            scheduled(entries, time, key).contains(e) <==> entries.contains(e) || e == (time, key),
{
    let early = entries.filter(due_by(time));
    let late = entries.filter(due_after(time));
    let front = early.push((time, key));
    let whole = scheduled(entries, time, key);
    lemma_filter_keeps_order(entries, due_by(time));
    lemma_filter_keeps_order(entries, due_after(time));
    assert forall|e: (u64, Seq<char>)| #[trigger]
        whole.contains(e) <==> entries.contains(e) || e == (time, key) by {
        lemma_push_contains(early, (time, key), e);
        lemma_filter_contains(entries, due_by(time), e);
        lemma_filter_contains(entries, due_after(time), e);
        if front.contains(e) {
            let i = choose|i: int| 0 <= i < front.len() && front[i] == e;
            assert(whole[i] == e);
        }
        if late.contains(e) {
            let i = choose|i: int| 0 <= i < late.len() && late[i] == e;
            assert(whole[i + front.len()] == e);
        }
        if whole.contains(e) {
            let i = choose|i: int| 0 <= i < whole.len() && whole[i] == e;
            if i < front.len() {
                assert(front[i] == e);
            } else {
                assert(late[i - front.len()] == e);
            }
        }
    }
    if in_time_order(entries) {
        assert forall|i: int| 0 <= i < early.len() implies (#[trigger] early[i]).0 <= time by {
            lemma_filter_contains(entries, due_by(time), early[i]);
        }
        assert forall|i: int| 0 <= i < late.len() implies (#[trigger] late[i]).0 > time by {
            lemma_filter_contains(entries, due_after(time), late[i]);
        }
        assert forall|i: int, j: int| 0 <= i < j < whole.len() implies (#[trigger] whole[i]).0 <= (
        #[trigger] whole[j]).0 by {
            let n = front.len() as int;
            if i < n {
                assert(whole[i] == front[i]);
                assert(front[i].0 <= time);
            } else {
                assert(whole[i] == late[i - n]);
            }
            if j < n {
                assert(whole[j] == front[j]);
            } else {
                assert(whole[j] == late[j - n]);
            }
        }
    }
}

/// Taking out what has come due keeps the time order, and each entry is either
/// handed out or kept: handed out exactly if its time has come.
pub proof fn law_timeout_parts_entries(entries: Seq<(u64, Seq<char>)>, time: u64)
    ensures
        in_time_order(entries) ==> in_time_order(entries.filter(due_by(time))),
        in_time_order(entries) ==> in_time_order(entries.filter(due_after(time))),
        forall|e: (u64, Seq<char>)| #[trigger]
            entries.contains(e) ==> if e.0 <= time {
                due_keys(entries, time).contains(e.1)
            } else {
                entries.filter(due_after(time)).contains(e)
            },
        forall|e: (u64, Seq<char>)| #[trigger]
            entries.filter(due_after(time)).contains(e) ==> entries.contains(e) && e.0 > time,
        forall|k: Seq<char>| #[trigger]
            due_keys(entries, time).contains(k) ==> exists|t: u64|
                t <= time && #[trigger] entries.contains((t, k)),
{
    let early = entries.filter(due_by(time));
    let keys = due_keys(entries, time);
    lemma_filter_keeps_order(entries, due_by(time));
    lemma_filter_keeps_order(entries, due_after(time));
    assert forall|e: (u64, Seq<char>)| #[trigger] entries.contains(e) implies if e.0 <= time {
        keys.contains(e.1)
    } else {
        entries.filter(due_after(time)).contains(e)
    } by {
        lemma_filter_contains(entries, due_by(time), e);
        lemma_filter_contains(entries, due_after(time), e);
        if e.0 <= time {
            let i = choose|i: int| 0 <= i < early.len() && early[i] == e;
            assert(keys[i] == e.1);
        }
    }
    assert forall|e: (u64, Seq<char>)| #[trigger]
        entries.filter(due_after(time)).contains(e) implies entries.contains(e) && e.0 > time by {
        lemma_filter_contains(entries, due_after(time), e);
    }
    assert forall|k: Seq<char>| #[trigger] keys.contains(k) implies exists|t: u64|
        t <= time && #[trigger] entries.contains((t, k)) by {
        let i = choose|i: int| 0 <= i < keys.len() && keys[i] == k;
        lemma_filter_contains(entries, due_by(time), early[i]);
        assert(entries.contains((early[i].0, k)));
    }
}

/// Of entries in time order, those that have come due stand before those that
/// have not.
proof fn lemma_due_stand_first(entries: Seq<(u64, Seq<char>)>, time: u64) -> (place: int)
    requires
        in_time_order(entries),
    ensures
        0 <= place <= entries.len(),
        entries.filter(due_by(time)) == entries.take(place),
        entries.filter(due_after(time)) == entries.skip(place),
        forall|i: int| 0 <= i < place ==> (#[trigger] entries[i]).0 <= time,
        forall|i: int| place <= i < entries.len() ==> (#[trigger] entries[i]).0 > time,
    decreases entries.len(),
{
    if entries.len() == 0 {
        reveal(Seq::filter);
        assert(entries.filter(due_by(time)) =~= entries.take(0));
        assert(entries.filter(due_after(time)) =~= entries.skip(0));
        0
    } else {
        let rest = entries.drop_last();
        let last = entries.last();
        assert forall|i: int, j: int| 0 <= i < j < rest.len() implies (#[trigger] rest[i]).0 <= (
        #[trigger] rest[j]).0 by {
            assert(rest[i] == entries[i] && rest[j] == entries[j]);
        }
        let place = lemma_due_stand_first(rest, time);
        lemma_filter_push(rest, due_by(time), last);
        lemma_filter_push(rest, due_after(time), last);
        assert(rest.push(last) =~= entries);
        assert(forall|i: int| 0 <= i < rest.len() ==> #[trigger] entries[i] == rest[i]);
        assert(entries[rest.len() as int] == last);
        if last.0 <= time {
            if place < rest.len() {
                assert(rest[place].0 > time);
                assert(entries[place].0 <= entries[rest.len() as int].0);
            }
            assert(rest.take(place) =~= rest);
            assert(rest.skip(place) =~= Seq::empty());
            assert(entries.take(entries.len() as int) =~= entries);
            assert(entries.skip(entries.len() as int) =~= Seq::empty());
            entries.len() as int
        } else {
            assert(entries.take(place) =~= rest.take(place));
            assert(entries.skip(place) =~= rest.skip(place).push(last));
            place
        }
    }
}

/// A key that is added to entries in time order is put in at one place, behind
/// all that come due no later and before all that come due later; the entries
/// that were there stay as they are.
pub proof fn law_scheduled_at_one_place(
    entries: Seq<(u64, Seq<char>)>,
    time: u64,
    key: Seq<char>,
)
    requires
        forall|i: int, j: int|
            0 <= i < j < entries.len() ==> (#[trigger] entries[i]).0 <= (#[trigger] entries[j]).0,
    ensures
        exists|place: int|
            0 <= place <= entries.len() && scheduled(entries, time, key)
                == #[trigger] entries.insert(place, (time, key)) && (forall|i: int|
                0 <= i < place ==> (#[trigger] entries[i]).0 <= time) && (forall|i: int|
                place <= i < entries.len() ==> (#[trigger] entries[i]).0 > time),
{
    let place = lemma_due_stand_first(entries, time);
    assert(scheduled(entries, time, key) =~= entries.insert(place, (time, key)));
}

/// What has come due at a time are the keys of all entries up to that time, in
/// their order; what is kept are the entries behind that time, in their order.
pub proof fn law_due_are_those_up_to_time(entries: Seq<(u64, Seq<char>)>, time: u64)
    ensures
        due_keys(entries, time) == entries.filter(|e: (u64, Seq<char>)| e.0 <= time).map_values(
            |e: (u64, Seq<char>)| e.1,
        ),
        entries.filter(due_after(time)) == entries.filter(|e: (u64, Seq<char>)| e.0 > time),
{
    lemma_same_filter(entries, due_by(time), |e: (u64, Seq<char>)| e.0 <= time);
    lemma_same_filter(entries, due_after(time), |e: (u64, Seq<char>)| e.0 > time);
}

} // verus!

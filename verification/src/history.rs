//! What a listener is told over many steps, and what comes of it.

use crate::diff::{law_changes_lead_to_new_addresses, law_no_change};
use crate::instance::{has_address, weighted, Instance};
use crate::key::{key_text, ServiceKey};
use crate::lemmas::lemma_filter_contains;
use crate::listener::{
    held, Change, InstanceCallback, InstanceDefaultListener, InstanceListener,
};
use crate::naming::{handled, NamingListenerCmd};
use crate::query::ServiceReport;
use crate::state::{
    entries_at, greeting, news, other_id, refreshes, reported, swept, told_in_order, Action,
    ListenerEntry, NamingState,
};
use std::sync::Arc;
use vstd::prelude::*;

verus! {

/// Whether being told of the changes, one after the other, leads from one
/// state of a listener to another. What happens outside in between is left
/// open.
pub open spec fn went_through<L: InstanceListener>(
    first: L,
    last: L,
    changes: Seq<Change>,
) -> bool
    decreases changes.len(),
{
    if changes.len() == 0 {
        last == first
    } else {
        exists|between: L, outside_before: L::Outside, outside_after: L::Outside|
            went_through(first, between, changes.drop_last()) && #[trigger] L::told(
                between,
                last,
                outside_before,
                outside_after,
                changes.last(),
            )
    }
}

/// The instances of the last change that had any; those at the start where no
/// change had any.
pub open spec fn last_shown(start: Seq<Arc<Instance>>, changes: Seq<Change>) -> Seq<Arc<Instance>>
    decreases changes.len(),
{
    if changes.len() == 0 {
        start
    } else if changes.last().value.len() > 0 {
        changes.last().value
    } else {
        last_shown(start, changes.drop_last())
    }
}

/// A default listener holds the last instances it was told of that were not
/// empty, and keeps its key and its callback, whatever it is told. Before it
/// was told of any, it holds what it held at the start, which is nothing for a
/// new one.
pub proof fn law_default_listener_holds_last<C: InstanceCallback>(
    first: InstanceDefaultListener<C>,
    last: InstanceDefaultListener<C>,
    changes: Seq<Change>,
)
    requires
        went_through(first, last, changes),
    ensures
        held(last.content) == last_shown(held(first.content), changes),
        last.key == first.key,
        last.callback == first.callback,
    decreases changes.len(),
{
    if changes.len() > 0 {
        let (between, outside_before, outside_after) = choose|
            between: InstanceDefaultListener<C>,
            outside_before: C::Outside,
            outside_after: C::Outside,
        |
            went_through(first, between, changes.drop_last())
                && #[trigger] InstanceDefaultListener::<C>::told(
                between,
                last,
                outside_before,
                outside_after,
                changes.last(),
            );
        law_default_listener_holds_last(first, between, changes.drop_last());
    }
}

/// The key that a default listener is told makes no difference, neither to the
/// listener nor to what its callback is called with.
pub proof fn law_told_key_makes_no_difference<C: InstanceCallback>(
    before: InstanceDefaultListener<C>,
    after: InstanceDefaultListener<C>,
    outside_before: C::Outside,
    outside_after: C::Outside,
    change: Change,
    key: ServiceKey,
)
    ensures
        InstanceDefaultListener::<C>::told(before, after, outside_before, outside_after, change)
            == InstanceDefaultListener::<C>::told(
            before,
            after,
            outside_before,
            outside_after,
            (Change { key, ..change }),
        ),
{
}

/// One step of a naming listener.
pub enum Move<L> {
    /// A command, the time at which it is carried out, and what it leads to.
    Command(NamingListenerCmd<L>, u64, Action),
    /// A report about the service with a key, and the time at which it comes.
    Report(Seq<char>, ServiceReport, u64),
    /// A look at the time.
    Look(u64),
    /// The port that the socket worker tells.
    Port(u16),
}

/// Whether a step leads from one state to another.
pub open spec fn moved<L: InstanceListener>(
    before: NamingState<L>,
    after: NamingState<L>,
    step: Move<L>,
) -> bool {
    match step {
        Move::Command(msg, now, action) => handled(before, after, msg, now, action),
        Move::Report(key, report, now) => reported(before, after, key, report, now),
        Move::Look(now) => after == swept(before, now),
        Move::Port(port) => after == (NamingState { udp_port: port, ..before }),
    }
}

/// Whether the steps lead from each of the states to the next.
pub open spec fn run<L: InstanceListener>(
    states: Seq<NamingState<L>>,
    steps: Seq<Move<L>>,
) -> bool {
    &&& states.len() == steps.len() + 1
    &&& forall|i: int|
        0 <= i < steps.len() ==> moved(states[i], states[i + 1], #[trigger] steps[i])
}

/// Whether a step enters a listener for a service under an id.
pub open spec fn enters<L>(step: Move<L>, key: ServiceKey, id: u64, listener: L) -> bool {
    match step {
        Move::Command(NamingListenerCmd::Add(service, entered, one), _, _) => service@ == key
            && entered == id && one == listener,
        _ => false,
    }
}

/// Whether a step takes the listeners with an id from the list of a service.
pub open spec fn removes<L>(step: Move<L>, text: Seq<char>, id: u64) -> bool {
    match step {
        Move::Command(NamingListenerCmd::Remove(key, gone), _, _) => key_text(key@) == text && gone
            == id,
        _ => false,
    }
}

/// What the listeners of a service are told at a step.
pub open spec fn told_at<L: InstanceListener>(
    before: NamingState<L>,
    step: Move<L>,
    text: Seq<char>,
) -> Option<Change> {
    match step {
        Move::Report(key, report, _) => if key == text {
            news(before, key, report)
        } else {
            None
        },
        _ => None,
    }
}

/// The changes with one more, if there is one.
pub open spec fn with_change(changes: Seq<Change>, more: Option<Change>) -> Seq<Change> {
    match more {
        Some(change) => changes.push(change),
        None => changes,
    }
}

/// What a listener is told that the first of the steps enters for a service:
/// the greeting, and what the listeners of the service are told at the steps
/// that follow.
pub open spec fn heard<L: InstanceListener>(
    states: Seq<NamingState<L>>,
    steps: Seq<Move<L>>,
    key: ServiceKey,
) -> Seq<Change>
    decreases steps.len(),
{
    if steps.len() <= 1 {
        with_change(Seq::empty(), greeting(states[0], key))
    } else {
        with_change(
            heard(states.drop_last(), steps.drop_last(), key),
            told_at(states[steps.len() - 1], steps.last(), key_text(key)),
        )
    }
}

/// The addresses of a list of instances.
pub open spec fn addresses(list: Seq<Arc<Instance>>) -> Set<Seq<char>> {
    Set::new(|a: Seq<char>| has_address(list, a))
}

/// The addresses that are left of the given ones once a change has taken away
/// those that went and brought those that came.
pub open spec fn changed(known: Set<Seq<char>>, change: Change) -> Set<Seq<char>> {
    known.difference(addresses(change.remove_list)).union(addresses(change.add_list))
}

/// What the changes come to, starting from no address.
pub open spec fn sum_of(changes: Seq<Change>) -> Set<Seq<char>>
    decreases changes.len(),
{
    if changes.len() == 0 {
        Set::empty()
    } else {
        changed(sum_of(changes.drop_last()), changes.last())
    }
}

/// The instances that are known for a service; none where it is not tracked.
pub open spec fn stored<L: InstanceListener>(
    state: NamingState<L>,
    text: Seq<char>,
) -> Seq<Arc<Instance>> {
    if state.services.contains_key(text) {
        state.services[text].instances
    } else {
        Seq::empty()
    }
}

/// One more change comes to what the ones before came to, changed by it.
proof fn lemma_sum_with(changes: Seq<Change>, more: Option<Change>)
    ensures
        sum_of(with_change(changes, more)) == match more {
            Some(change) => changed(sum_of(changes), change),
            None => sum_of(changes),
        },
{
    if let Some(change) = more {
        assert(changes.push(change).drop_last() =~= changes);
    }
}

/// What is told at a step leads from the addresses that were known for the
/// service to those that are known then.
proof fn lemma_step_changes_addresses<L: InstanceListener>(
    before: NamingState<L>,
    after: NamingState<L>,
    step: Move<L>,
    text: Seq<char>,
)
    requires
        moved(before, after, step),
    ensures
        addresses(stored(after, text)) == match told_at(before, step, text) {
            Some(change) => changed(addresses(stored(before, text)), change),
            None => addresses(stored(before, text)),
        },
{
    if let Move::Report(key, report, now) = step {
        if key == text && before.services.contains_key(text) && refreshes(
            before.services[text],
            report,
        ) {
            let known = before.services[text].instances;
            let fresh = weighted(report.hosts->0);
            match news(before, key, report) {
                Some(change) => {
                    assert forall|a: Seq<char>|
                        addresses(fresh).contains(a) <==> changed(
                            addresses(known),
                            change,
                        ).contains(a) by {
                        law_changes_lead_to_new_addresses(known, fresh, a);
                    }
                    assert(addresses(fresh) =~= changed(addresses(known), change));
                },
                None => {
                    law_no_change(known, fresh);
                    assert(addresses(fresh) =~= addresses(known));
                },
            }
        }
    }
}

/// A listener that is not taken out stays in the list, told of what is told at
/// the step and of nothing else.
proof fn lemma_step_keeps_listener<L: InstanceListener>(
    before: NamingState<L>,
    after: NamingState<L>,
    step: Move<L>,
    text: Seq<char>,
    entry: ListenerEntry<L>,
) -> (next: ListenerEntry<L>)
    requires
        moved(before, after, step),
        !removes(step, text, entry.id),
        entries_at(before, text).contains(entry),
    ensures
        entries_at(after, text).contains(next),
        next.id == entry.id,
        next.listener_key == entry.listener_key,
        match told_at(before, step, text) {
            Some(change) => exists|outside_before: L::Outside, outside_after: L::Outside|
                #[trigger] L::told(
                    entry.listener,
                    next.listener,
                    outside_before,
                    outside_after,
                    change,
                ),
            None => next == entry,
        },
{
    let list = entries_at(before, text);
    let i = choose|i: int| 0 <= i < list.len() && list[i] == entry;
    match step {
        Move::Command(NamingListenerCmd::Add(key, _, _), _, _) => {
            if key_text(key@) == text {
                assert(entries_at(after, text)[i] == entry);
            }
            entry
        },
        Move::Command(NamingListenerCmd::Remove(key, id), _, _) => {
            if key_text(key@) == text {
                lemma_filter_contains(list, other_id(id), entry);
            }
            entry
        },
        Move::Report(key, report, _) => {
            match told_at(before, step, text) {
                Some(change) => {
                    let told = entries_at(after, text);
                    let outsides = choose|outsides: Seq<L::Outside>|
                        outsides.first() == before.outside && outsides.last() == after.outside
                            && #[trigger] told_in_order(list, told, outsides, change);
                    assert(told[i].id == entry.id);
                    assert(L::told(
                        entry.listener,
                        told[i].listener,
                        outsides[i],
                        outsides[i + 1],
                        change,
                    ));
                    told[i]
                },
                None => entry,
            }
        },
        _ => entry,
    }
}

/// The last but one of the states of a run, and the steps that lead to it, are
/// a run.
proof fn lemma_run_before<L: InstanceListener>(states: Seq<NamingState<L>>, steps: Seq<Move<L>>)
    requires
        run(states, steps),
        steps.len() > 0,
    ensures
        run(states.drop_last(), steps.drop_last()),
        moved(states[steps.len() - 1], states.last(), steps.last()),
{
    let n = steps.len() - 1;
    assert(moved(states[n], states[n + 1], steps[n]));
    assert forall|i: int| 0 <= i < steps.drop_last().len() implies moved(
        states.drop_last()[i],
        states.drop_last()[i + 1],
        #[trigger] steps.drop_last()[i],
    ) by {
        assert(steps.drop_last()[i] == steps[i]);
    }
}

/// A listener that was entered and not taken out since is still in the list of
/// its service, and was told of all that it should hear and of nothing else.
/// What it was told sums up to what is known: taking away what went and adding
/// what came, from the first change to the last, gives the addresses that are
/// stored for the service.
pub proof fn law_changes_sum_up_to_stored<L: InstanceListener>(
    states: Seq<NamingState<L>>,
    steps: Seq<Move<L>>,
    key: ServiceKey,
    id: u64,
    listener: L,
)
    requires
        run(states, steps),
        steps.len() > 0,
        enters(steps[0], key, id, listener),
        forall|i: int|
            0 < i < steps.len() ==> !removes(#[trigger] steps[i], key_text(key), id),
    ensures
        sum_of(heard(states, steps, key)) == addresses(stored(states.last(), key_text(key))),
        exists|entry: ListenerEntry<L>| #[trigger]
            entries_at(states.last(), key_text(key)).contains(entry) && entry.id == id
                && entry.listener_key == key && went_through(
                listener,
                entry.listener,
                heard(states, steps, key),
            ),
    decreases steps.len(),
{
    let text = key_text(key);
    let before = states[steps.len() - 1];
    let after = states.last();
    let changes = heard(states, steps, key);
    lemma_run_before(states, steps);
    if steps.len() == 1 {
        lemma_sum_with(Seq::empty(), greeting(before, key));
        assert(sum_of(changes) =~= addresses(stored(after, text))) by {
            assert(addresses(Seq::empty()) =~= Set::empty());
        }
        let entry = after.listeners[text].last();
        assert(entries_at(after, text).contains(entry));
        if let Some(change) = greeting(before, key) {
            assert(changes.drop_last() =~= Seq::empty());
            assert(went_through(listener, listener, changes.drop_last()));
            assert(L::told(listener, entry.listener, before.outside, after.outside, change));
        }
        assert(went_through(listener, entry.listener, changes));
    } else {
        let earlier = steps.drop_last();
        assert(earlier[0] == steps[0]);
        assert forall|i: int| 0 < i < earlier.len() implies !removes(
            #[trigger] earlier[i],
            text,
            id,
        ) by {
            assert(earlier[i] == steps[i]);
        }
        law_changes_sum_up_to_stored(states.drop_last(), earlier, key, id, listener);
        let former = heard(states.drop_last(), earlier, key);
        let more = told_at(before, steps.last(), text);
        assert(states.drop_last().last() == before);
        lemma_step_changes_addresses(before, after, steps.last(), text);
        lemma_sum_with(former, more);
        let entry = choose|entry: ListenerEntry<L>| #[trigger]
            entries_at(before, text).contains(entry) && entry.id == id && entry.listener_key == key
                && went_through(listener, entry.listener, former);
        let next = lemma_step_keeps_listener(before, after, steps.last(), text, entry);
        if let Some(change) = more {
            assert(changes.drop_last() =~= former);
            assert(changes.last() == change);
        }
        assert(went_through(listener, next.listener, changes));
    }
}

} // verus!

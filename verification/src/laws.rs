//! What holds of a naming listener over its steps.

use crate::diff::{added, distinct_addresses, law_no_change, removed};
use crate::instance::{has_address, weighted, Instance};
use crate::key::{
    key_of_text, key_text, law_key_text_is_kept, lemma_key_text_has_separator, ServiceKey,
};
use crate::lemmas::{lemma_filter_contains, lemma_filter_push};
use crate::listener::{held, InstanceCallback, InstanceDefaultListener, InstanceListener};
use crate::naming::{handled, NamingListenerCmd};
use crate::query::{asked_for, law_selection_is_exact, QueryParams, ServiceReport};
use crate::state::{
    asks, beat_action, beaten, checksum, due_heartbeats, entries_at, initial_state,
    known_instances, listener_added, listeners_removed, new_service, other_id, period_after,
    refreshes, reported, swept, track_action, tracking, valid_service, valid_state, Action,
    ListenerEntry, NamingState, ServiceState,
};
use crate::timeouts::{due_keys, law_scheduling_adds_one, law_timeout_parts_entries};
use std::sync::Arc;
use vstd::prelude::*;

verus! {

/// A list in which no entry has the id is left as it is when the id is taken out.
proof fn lemma_id_not_there<L>(entries: Seq<ListenerEntry<L>>, id: u64)
    requires
        forall|i: int| 0 <= i < entries.len() ==> (#[trigger] entries[i]).id != id,
    ensures
        entries.filter(other_id(id)) == entries,
    decreases entries.len(),
{
    if entries.len() == 0 {
        reveal(Seq::filter);
        assert(entries.filter(other_id(id)) =~= entries);
    } else {
        let rest = entries.drop_last();
        assert forall|i: int| 0 <= i < rest.len() implies (#[trigger] rest[i]).id != id by {
            assert(rest[i] == entries[i]);
        }
        lemma_id_not_there(rest, id);
        assert(rest.push(entries.last()) =~= entries);
        lemma_filter_push(rest, other_id(id), entries.last());
    }
}

/// Taking a listener out under the id that it was entered with undoes
/// entering it, where no other listener of the service has that id. Only what
/// the listener did when it was entered stays, and that the service was
/// listened to.
pub proof fn law_remove_undoes_add<L: InstanceListener>(
    before: NamingState<L>,
    after: NamingState<L>,
    key: ServiceKey,
    id: u64,
    listener: L,
)
    requires
        listener_added(before, after, key, id, listener),
        forall|i: int|
            0 <= i < entries_at(before, key_text(key)).len() ==> (#[trigger] entries_at(
                before,
                key_text(key),
            )[i]).id != id,
    ensures
        listeners_removed(after, key, id) == (NamingState {
            listeners: before.listeners.insert(key_text(key), entries_at(before, key_text(key))),
            outside: after.outside,
            ..before
        }),
        before.listeners.contains_key(key_text(key)) ==> listeners_removed(after, key, id)
            == (NamingState { outside: after.outside, ..before }),
{
    let text = key_text(key);
    let former = entries_at(before, text);
    let entry = after.listeners[text].last();
    lemma_id_not_there(former, id);
    lemma_filter_push(former, other_id(id), entry);
    assert(after.listeners[text] == former.push(entry));
    let undone = listeners_removed(after, key, id);
    assert(undone.listeners =~= before.listeners.insert(text, former));
    if before.listeners.contains_key(text) {
        assert(undone.listeners =~= before.listeners);
    }
}

/// After an id was taken out, no listener of the service has it, every
/// listener with another id is still there, and the listeners of other
/// services are as they were.
pub proof fn law_removed_id_is_gone<L: InstanceListener>(
    state: NamingState<L>,
    key: ServiceKey,
    id: u64,
    entry: ListenerEntry<L>,
    other: Seq<char>,
)
    ensures
        entries_at(listeners_removed(state, key, id), key_text(key)).contains(entry)
            <==> entries_at(state, key_text(key)).contains(entry) && entry.id != id,
        other != key_text(key) ==> entries_at(listeners_removed(state, key, id), other)
            == entries_at(state, other),
{
    lemma_filter_contains(entries_at(state, key_text(key)), other_id(id), entry);
}

/// To begin to track a service a second time changes nothing and leads to nothing.
pub proof fn law_tracking_twice_is_once<L: InstanceListener>(
    state: NamingState<L>,
    key: ServiceKey,
    first: u64,
    second: u64,
)
    ensures
        tracking(tracking(state, key, first), key, second) == tracking(state, key, first),
        track_action(tracking(state, key, first), key, second) == Action::Nothing,
{
}

/// A service that begins to be tracked is asked about at its first heartbeat,
/// by the name it was given.
pub proof fn law_tracking_leads_to_question<L: InstanceListener>(state: NamingState<L>, key: ServiceKey, now: u64)
    requires
        !state.services.contains_key(key_text(key)),
    ensures
        track_action(state, key, now) == Action::Heartbeat(key_text(key), now),
        beat_action(tracking(state, key, now), key_text(key), now) == Action::Query(
            key_text(key),
            new_service(state, key, now).params,
        ),
        new_service(state, key, now).params.service() == key,
{
    assert(new_service(state, key, now).params.service() =~= key);
}

/// No command stops the tracking of a service or changes what is asked about it.
pub proof fn law_commands_keep_tracking<L: InstanceListener>(
    before: NamingState<L>,
    after: NamingState<L>,
    msg: NamingListenerCmd<L>,
    now: u64,
    action: Action,
    key: Seq<char>,
)
    requires
        handled(before, after, msg, now, action),
        before.services.contains_key(key),
    ensures
        after.services.contains_key(key),
        after.services[key].params == before.services[key].params,
        after.services[key].instances == before.services[key].instances,
{
}

/// No report stops the tracking of a service or changes what is asked about
/// it, none begins the tracking of a service, and none loses a heartbeat that
/// was put down.
pub proof fn law_reports_keep_tracking<L: InstanceListener>(
    before: NamingState<L>,
    after: NamingState<L>,
    key: Seq<char>,
    report: ServiceReport,
    now: u64,
    other: Seq<char>,
)
    requires
        reported(before, after, key, report, now),
    ensures
        after.services.contains_key(other) <==> before.services.contains_key(other),
        before.services.contains_key(other) ==> after.services[other].params
            == before.services[other].params,
        after.timeouts == before.timeouts,
{
}

/// A report about one service leaves the others, and those who listen to them,
/// as they were.
pub proof fn law_report_touches_one_service<L: InstanceListener>(
    before: NamingState<L>,
    after: NamingState<L>,
    key: Seq<char>,
    report: ServiceReport,
    now: u64,
    other: Seq<char>,
)
    requires
        reported(before, after, key, report, now),
        other != key,
    ensures
        after.services.contains_key(other) <==> before.services.contains_key(other),
        before.services.contains_key(other) ==> after.services[other] == before.services[other],
        entries_at(after, other) == entries_at(before, other),
{
}

/// What a report brings is what is answered: after the hosts of a report were
/// taken over, a question about the service is answered with those of them
/// that count and are asked for.
pub proof fn law_report_is_answered<L: InstanceListener>(
    before: NamingState<L>,
    after: NamingState<L>,
    params: QueryParams,
    report: ServiceReport,
    now: u64,
)
    requires
        before.services.contains_key(key_text(params.service())),
        refreshes(before.services[key_text(params.service())], report),
        reported(before, after, key_text(params.service()), report, now),
    ensures
        known_instances(after, params) == Some(
            weighted(report.hosts->0).filter(asked_for(params)),
        ),
{
}

/// A report with the checksum of the one before brings nothing: the instances
/// stay, and no one is told.
pub proof fn law_known_checksum_brings_nothing<L: InstanceListener>(
    before: NamingState<L>,
    after: NamingState<L>,
    key: Seq<char>,
    report: ServiceReport,
    now: u64,
)
    requires
        reported(before, after, key, report, now),
        before.services.contains_key(key),
        before.services[key].last_sign == checksum(report),
        checksum(report).len() > 0,
    ensures
        after.services[key].instances == before.services[key].instances,
        after.services[key].last_sign == before.services[key].last_sign,
        after.listeners == before.listeners,
        after.outside == before.outside,
{
}

/// A report that comes twice is taken over once: the second time no one is
/// told, and only the times at which the service is asked about again change.
/// A report without a checksum tells nothing new where none of its hosts that
/// count has the address of another.
pub proof fn law_same_report_twice_is_once<L: InstanceListener>(
    before: NamingState<L>,
    between: NamingState<L>,
    after: NamingState<L>,
    key: Seq<char>,
    report: ServiceReport,
    first: u64,
    second: u64,
)
    requires
        reported(before, between, key, report, first),
        reported(between, after, key, report, second),
        checksum(report).len() > 0 || (report.hosts is Some ==> distinct_addresses(
            weighted(report.hosts->0),
        )),
    ensures
        after == (NamingState { services: after.services, ..between }),
        forall|k: Seq<char>| #[trigger]
            after.services.contains_key(k) <==> between.services.contains_key(k),
        forall|k: Seq<char>| #[trigger]
            between.services.contains_key(k) ==> after.services[k] == (ServiceState {
                next_time: after.services[k].next_time,
                ..between.services[k]
            }),
        between.services.contains_key(key) ==> between.services[key].last_sign == checksum(report),
{
    if report.hosts is Some {
        law_no_change(weighted(report.hosts->0), weighted(report.hosts->0));
    }
}

/// A report whose hosts have the addresses that are known, each once, tells no one.
pub proof fn law_same_addresses_tell_no_one<L: InstanceListener>(
    before: NamingState<L>,
    after: NamingState<L>,
    key: Seq<char>,
    report: ServiceReport,
    now: u64,
)
    requires
        reported(before, after, key, report, now),
        before.services.contains_key(key),
        report.hosts is Some,
        distinct_addresses(weighted(report.hosts->0)),
        forall|a: Seq<char>| #[trigger]
            has_address(before.services[key].instances, a) <==> has_address(
                weighted(report.hosts->0),
                a,
            ),
    ensures
        after.listeners == before.listeners,
        after.outside == before.outside,
{
    law_no_change(before.services[key].instances, weighted(report.hosts->0));
}

/// After a report that brings or drops instances of a service, each default
/// listener of the service holds the instances of the report; where the report
/// leaves none, each holds what it held before.
pub proof fn law_default_listeners_hold_report<C: InstanceCallback>(
    before: NamingState<InstanceDefaultListener<C>>,
    after: NamingState<InstanceDefaultListener<C>>,
    key: Seq<char>,
    report: ServiceReport,
    now: u64,
    i: int,
)
    requires
        reported(before, after, key, report, now),
        before.services.contains_key(key),
        refreshes(before.services[key], report),
        added(before.services[key].instances, weighted(report.hosts->0)).len() > 0 || removed(
            before.services[key].instances,
            weighted(report.hosts->0),
        ).len() > 0,
        0 <= i < entries_at(before, key).len(),
    ensures
        i < entries_at(after, key).len(),
        held(entries_at(after, key)[i].listener.content) == if weighted(report.hosts->0).len() > 0 {
            weighted(report.hosts->0)
        } else {
            held(entries_at(before, key)[i].listener.content)
        },
{
    assert(after.listeners.contains_key(key));
    assert(after.listeners[key][i].id == before.listeners[key][i].id);
}

/// Every instance that is answered is known for the service, is asked for, and
/// weighs enough.
pub proof fn law_answers_hold_what_counts<L: InstanceListener>(
    state: NamingState<L>,
    params: QueryParams,
    e: Arc<Instance>,
)
    requires
        valid_state(state),
        known_instances(state, params) matches Some(list) && list.contains(e),
    ensures
        state.services[key_text(params.service())].instances.contains(e),
        asked_for(params)(e),
        e.weight.counts(),
{
    let key = key_text(params.service());
    let instances = state.services[key].instances;
    law_selection_is_exact(instances, params, e);
    assert(valid_service(state, key, state.services[key]));
    let i = choose|i: int| 0 <= i < instances.len() && instances[i] == e;
    assert(instances[i].weight.counts());
}

/// A question about a service that is not tracked is answered once the
/// service that it has tracked is.
pub proof fn law_unknown_service_becomes_known<L: InstanceListener>(
    state: NamingState<L>,
    params: QueryParams,
    now: u64,
)
    ensures
        known_instances(
            tracking(state, key_of_text(key_text(params.service())), now),
            params,
        ) is Some,
{
    lemma_key_text_has_separator(params.service());
    law_key_text_is_kept(key_text(params.service()));
}

/// A heartbeat puts a tracked service down for its next time, and the service
/// comes up again at the first look that is not before that time.
pub proof fn law_heartbeat_comes_again<L: InstanceListener>(
    state: NamingState<L>,
    key: Seq<char>,
    time: u64,
    now: u64,
    later: u64,
)
    requires
        state.services.contains_key(key),
    ensures
        beaten(state, key, time, now).timeouts.contains(
            (beaten(state, key, time, now).services[key].next_time, key),
        ),
        beaten(state, key, time, now).services[key].next_time <= later ==> due_heartbeats(
            beaten(state, key, time, now),
            later,
        ).contains(Action::Heartbeat(key, later)),
{
    let next = beaten(state, key, time, now);
    let next_time = next.services[key].next_time;
    law_scheduling_adds_one(state.timeouts, next_time, key);
    if next_time <= later {
        law_timeout_parts_entries(next.timeouts, later);
        let keys = due_keys(next.timeouts, later);
        let i = choose|i: int| 0 <= i < keys.len() && keys[i] == key;
        assert(due_heartbeats(next, later)[i] == Action::Heartbeat(key, later));
    }
}

/// No command loses a heartbeat that was put down.
pub proof fn law_commands_keep_heartbeats<L: InstanceListener>(
    before: NamingState<L>,
    after: NamingState<L>,
    msg: NamingListenerCmd<L>,
    now: u64,
    action: Action,
    entry: (u64, Seq<char>),
)
    requires
        handled(before, after, msg, now, action),
        before.timeouts.contains(entry),
    ensures
        after.timeouts.contains(entry),
{
    if let NamingListenerCmd::Heartbeat(key, time) = msg {
        if before.services.contains_key(key@) {
            law_scheduling_adds_one(before.timeouts, after.services[key@].next_time, key@);
        }
    }
}

/// A look at the time hands out each heartbeat whose time has come and keeps
/// each whose time has not.
pub proof fn law_look_loses_no_heartbeat<L: InstanceListener>(
    state: NamingState<L>,
    now: u64,
    entry: (u64, Seq<char>),
)
    requires
        state.timeouts.contains(entry),
    ensures
        entry.0 <= now ==> due_heartbeats(state, now).contains(Action::Heartbeat(entry.1, now)),
        entry.0 > now ==> swept(state, now).timeouts.contains(entry),
{
    law_timeout_parts_entries(state.timeouts, now);
    if entry.0 <= now {
        let keys = due_keys(state.timeouts, now);
        let i = choose|i: int| 0 <= i < keys.len() && keys[i] == entry.1;
        assert(due_heartbeats(state, now)[i] == Action::Heartbeat(entry.1, now));
    }
}

/// Whether a heartbeat of the service is put down.
pub open spec fn put_down(timeouts: Seq<(u64, Seq<char>)>, key: Seq<char>) -> bool {
    exists|time: u64| #[trigger] timeouts.contains((time, key))
}

/// Whether every tracked service has a heartbeat put down, or one under way:
/// handed out and not yet handled.
pub open spec fn looked_after<L: InstanceListener>(state: NamingState<L>, under_way: Set<Seq<char>>) -> bool {
    forall|k: Seq<char>| #[trigger]
        state.services.contains_key(k) ==> under_way.contains(k) || put_down(state.timeouts, k)
}

/// The heartbeats under way after a command: the one that was handled is under
/// way no more, and the one that the command leads to is.
pub open spec fn under_way_after<L>(
    under_way: Set<Seq<char>>,
    msg: NamingListenerCmd<L>,
    action: Action,
) -> Set<Seq<char>> {
    let left = match msg {
        NamingListenerCmd::Heartbeat(key, _) => under_way.remove(key@),
        _ => under_way,
    };
    match action {
        Action::Heartbeat(key, _) => left.insert(key),
        _ => left,
    }
}

/// At the start every tracked service is looked after, for there is none.
pub proof fn law_start_forgets_no_service<L: InstanceListener>(
    namespace_id: Seq<char>,
    client_ip: Seq<char>,
    udp_port: u16,
    outside: L::Outside,
)
    ensures
        looked_after(
            initial_state::<L>(namespace_id, client_ip, udp_port, outside),
            Set::empty(),
        ),
{
}

/// No command makes a tracked service go without a heartbeat.
pub proof fn law_commands_forget_no_service<L: InstanceListener>(
    before: NamingState<L>,
    after: NamingState<L>,
    msg: NamingListenerCmd<L>,
    now: u64,
    action: Action,
    under_way: Set<Seq<char>>,
)
    requires
        looked_after(before, under_way),
        handled(before, after, msg, now, action),
    ensures
        looked_after(after, under_way_after(under_way, msg, action)),
{
    assert forall|k: Seq<char>| #[trigger] after.services.contains_key(k) implies under_way_after(
        under_way,
        msg,
        action,
    ).contains(k) || put_down(after.timeouts, k) by {
        if before.services.contains_key(k) {
            if put_down(before.timeouts, k) {
                let time = choose|time: u64| #[trigger] before.timeouts.contains((time, k));
                law_commands_keep_heartbeats(before, after, msg, now, action, (time, k));
            }
            if let NamingListenerCmd::Heartbeat(key, time) = msg {
                if k == key@ {
                    law_heartbeat_comes_again(before, k, time, now, now);
                }
            }
        }
    }
}

/// No report makes a tracked service go without a heartbeat.
pub proof fn law_reports_forget_no_service<L: InstanceListener>(
    before: NamingState<L>,
    after: NamingState<L>,
    key: Seq<char>,
    report: ServiceReport,
    now: u64,
    under_way: Set<Seq<char>>,
)
    requires
        looked_after(before, under_way),
        reported(before, after, key, report, now),
    ensures
        looked_after(after, under_way),
{
    assert forall|k: Seq<char>| #[trigger] after.services.contains_key(k) implies under_way.contains(
        k,
    ) || put_down(after.timeouts, k) by {
        assert(before.services.contains_key(k));
    }
}

/// A look at the time makes no tracked service go without a heartbeat: what is
/// put down no more is under way.
pub proof fn law_look_forgets_no_service<L: InstanceListener>(
    state: NamingState<L>,
    now: u64,
    under_way: Set<Seq<char>>,
)
    requires
        looked_after(state, under_way),
    ensures
        looked_after(swept(state, now), under_way.union(due_keys(state.timeouts, now).to_set())),
{
    law_timeout_parts_entries(state.timeouts, now);
    assert forall|k: Seq<char>| #[trigger]
        swept(state, now).services.contains_key(k) implies under_way.union(
        due_keys(state.timeouts, now).to_set(),
    ).contains(k) || put_down(swept(state, now).timeouts, k) by {
        assert(state.services.contains_key(k));
        if put_down(state.timeouts, k) {
            let time = choose|time: u64| #[trigger] state.timeouts.contains((time, k));
            if time > now {
                assert(swept(state, now).timeouts.contains((time, k)));
            }
        }
    }
}

/// A service that was reported on is not asked about before one period has passed.
pub proof fn law_report_puts_off_question<L: InstanceListener>(
    before: NamingState<L>,
    after: NamingState<L>,
    key: Seq<char>,
    report: ServiceReport,
    now: u64,
    later: u64,
)
    requires
        reported(before, after, key, report, now),
        before.services.contains_key(key),
        later < now + period_after(before.period, report) <= u64::MAX,
    ensures
        beat_action(after, key, later) == Action::Nothing,
{
}

/// A service that was asked about is not asked about again before one period
/// has passed.
pub proof fn law_one_question_per_period<L: InstanceListener>(
    state: NamingState<L>,
    key: Seq<char>,
    time: u64,
    now: u64,
    later: u64,
)
    requires
        asks(state, key, time),
        later < now + state.period <= u64::MAX,
    ensures
        beat_action(beaten(state, key, time, now), key, later) == Action::Nothing,
{
}

} // verus!

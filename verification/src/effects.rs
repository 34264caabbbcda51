//! What each operation does, field by field.

use crate::diff::{added, comes, goes, law_brings_what_comes, law_drops_what_goes, removed};
use crate::instance::{law_weighted_hosts_are_kept, Instance, InstanceListenerValue};
use crate::key::{key_of_text, ServiceInstanceKey, ServiceKey};
use crate::lemmas::{lemma_filter_contains, lemma_same_filter, picks_out};
use crate::listener::{
    held, Change, InstanceCallback, InstanceDefaultListener, InstanceListener,
};
use crate::naming::{
    answers, can_handle, handled, ListenerAction, ListenerValue, NamingListenerCmd, QueryStep, Step,
};
use crate::query::{
    law_selected_by_health_and_cluster, NamingQueryCmd, NamingQueryResult, QueryAnswer,
    QueryInstanceListParams, QueryParams, ServiceReport,
};
use crate::state::{
    deadline_fits, due_heartbeats, initial_state, known_instances, news, other_id, reported, swept,
    told_in_order, valid_state, Action, ListenerEntry, NamingState, ServiceState, DEFAULT_PERIOD,
    LOOK_INTERVAL,
};
use crate::timeouts::{
    due_keys, law_due_are_those_up_to_time, law_scheduled_at_one_place, law_timeout_parts_entries,
};
use crate::weight::law_weight_counts_by_bits;
use std::sync::Arc;
use vstd::prelude::*;

verus! {

/// At the start nothing is tracked, no one listens and nothing is to come due;
/// answers are good for three seconds.
pub proof fn law_start_is_empty<L: InstanceListener>(
    namespace_id: Seq<char>,
    client_ip: Seq<char>,
    udp_port: u16,
    outside: L::Outside,
)
    ensures
        initial_state::<L>(namespace_id, client_ip, udp_port, outside) == (NamingState::<L> {
            namespace_id,
            listeners: Map::empty(),
            services: Map::empty(),
            timeouts: Seq::empty(),
            period: 3000,
            client_ip,
            udp_port,
            outside,
        }),
        DEFAULT_PERIOD == 3000,
        LOOK_INTERVAL == 1,
{
}

/// Hosts with a new checksum take the place of what was known, whatever was
/// known: the instances of the service are then those hosts of the report
/// whose weight has bits above those of one thousandth and not above those of
/// infinity, in the order of the report.
pub proof fn law_new_hosts_take_over<L: InstanceListener>(
    before: NamingState<L>,
    after: NamingState<L>,
    key: Seq<char>,
    report: ServiceReport,
    now: u64,
)
    requires
        reported(before, after, key, report, now),
        before.services.contains_key(key),
        report.hosts is Some,
        before.services[key].last_sign.len() == 0 || report.checksum is None
            || before.services[key].last_sign != report.checksum->0,
    ensures
        after.services.contains_key(key),
        after.services[key].instances == report.hosts->0.filter(
            |h: Instance| 0x3A83_126F < h.weight.bits <= 0x7F80_0000,
        ).map_values(|h: Instance| Arc::new(h)),
{
    law_weighted_hosts_are_kept(report.hosts->0);
}

/// Every host that counts is known after a report with a new checksum, and
/// nothing else is.
pub proof fn law_known_are_the_hosts_that_count<L: InstanceListener>(
    before: NamingState<L>,
    after: NamingState<L>,
    key: Seq<char>,
    report: ServiceReport,
    now: u64,
    host: Instance,
)
    requires
        reported(before, after, key, report, now),
        before.services.contains_key(key),
        report.hosts is Some,
        before.services[key].last_sign.len() == 0 || report.checksum is None
            || before.services[key].last_sign != report.checksum->0,
    ensures
        after.services[key].instances.contains(Arc::new(host)) <==> report.hosts->0.contains(host)
            && 0x3A83_126F < host.weight.bits <= 0x7F80_0000,
{
    law_new_hosts_take_over(before, after, key, report, now);
    let hosts = report.hosts->0;
    let counted = |h: Instance| 0x3A83_126F < h.weight.bits <= 0x7F80_0000;
    let kept = hosts.filter(counted);
    let known = after.services[key].instances;
    lemma_filter_contains(hosts, counted, host);
    assert(known == kept.map_values(|h: Instance| Arc::new(h)));
    if kept.contains(host) {
        let i = choose|i: int| 0 <= i < kept.len() && kept[i] == host;
        assert(known[i] == Arc::new(host));
    }
    if known.contains(Arc::new(host)) {
        let i = choose|i: int| 0 <= i < known.len() && known[i] == Arc::new(host);
        assert(known[i] == Arc::new(kept[i]));
        assert(kept[i] == host);
    }
}

/// A report without hosts, and one with the checksum of the report before,
/// leave the instances of the service as they were, and tell no one.
pub proof fn law_nothing_new_changes_no_instance<L: InstanceListener>(
    before: NamingState<L>,
    after: NamingState<L>,
    key: Seq<char>,
    report: ServiceReport,
    now: u64,
)
    requires
        reported(before, after, key, report, now),
        !before.services.contains_key(key) || report.hosts is None || (report.checksum is Some
            && report.checksum->0.len() > 0 && before.services[key].last_sign
            == report.checksum->0),
    ensures
        before.services.contains_key(key) ==> after.services[key].instances
            == before.services[key].instances,
        after.listeners == before.listeners,
        after.outside == before.outside,
{
}

/// A report about a tracked service leaves its checksum behind, empty where it
/// has none, and the service is to be asked about one period from now: the
/// period that the report names, or the one before. What is asked stays. All
/// else stays too, but for the listeners of the service and what they do.
pub proof fn law_report_moves_on<L: InstanceListener>(
    before: NamingState<L>,
    after: NamingState<L>,
    key: Seq<char>,
    report: ServiceReport,
    now: u64,
)
    requires
        reported(before, after, key, report, now),
    ensures
        report.cache_millis is Some ==> after.period == report.cache_millis->0,
        report.cache_millis is None ==> after.period == before.period,
        before.services.contains_key(key) && now + after.period <= u64::MAX
            ==> after.services[key].next_time == now + after.period,
        before.services.contains_key(key) && report.checksum is Some
            ==> after.services[key].last_sign == report.checksum->0,
        before.services.contains_key(key) && report.checksum is None
            ==> after.services[key].last_sign.len() == 0,
        before.services.contains_key(key) ==> after.services[key].params
            == before.services[key].params,
        forall|k: Seq<char>| #[trigger]
            after.services.contains_key(k) <==> before.services.contains_key(k),
        forall|k: Seq<char>| #[trigger]
            before.services.contains_key(k) && k != key ==> after.services[k] == before.services[k],
        forall|k: Seq<char>| #[trigger]
            after.listeners.contains_key(k) <==> before.listeners.contains_key(k),
        forall|k: Seq<char>| #[trigger]
            before.listeners.contains_key(k) && k != key ==> after.listeners[k]
                == before.listeners[k],
        after.timeouts == before.timeouts,
        after.namespace_id == before.namespace_id,
        after.client_ip == before.client_ip,
        after.udp_port == before.udp_port,
{
}

/// Whether a change shows the new instances of a service, what of them comes
/// and what of the old ones goes, by ip and port.
pub open spec fn shows(
    change: Change,
    key: ServiceKey,
    old: Seq<Arc<Instance>>,
    new: Seq<Arc<Instance>>,
) -> bool {
    &&& change.key == key
    &&& change.value == new
    &&& picks_out(change.add_list, new, |j: int| comes(old, new, j))
    &&& picks_out(change.remove_list, old, |j: int| goes(old, new, j))
}

/// Whether each listener of a list was told of a change, from the first to the
/// last, each finding the outside as the one before it left it.
pub open spec fn told_one_by_one<L: InstanceListener>(
    before: Seq<ListenerEntry<L>>,
    after: Seq<ListenerEntry<L>>,
    outsides: Seq<L::Outside>,
    change: Change,
) -> bool {
    &&& after.len() == before.len()
    &&& outsides.len() == before.len() + 1
    &&& forall|i: int|
        0 <= i < before.len() ==> {
            &&& (#[trigger] after[i]).listener_key == before[i].listener_key
            &&& after[i].id == before[i].id
            &&& L::told(
                before[i].listener,
                after[i].listener,
                outsides[i],
                outsides[i + 1],
                change,
            )
        }
}

/// Hosts with a new checksum are shown to every listener of the service, once
/// and in the order of the list, with what came and what went; where nothing
/// came and nothing went, no one is told.
pub proof fn law_report_is_shown<L: InstanceListener>(
    before: NamingState<L>,
    after: NamingState<L>,
    key: Seq<char>,
    report: ServiceReport,
    now: u64,
)
    requires
        reported(before, after, key, report, now),
        before.services.contains_key(key),
        report.hosts is Some,
        before.services[key].last_sign.len() == 0 || report.checksum is None
            || before.services[key].last_sign != report.checksum->0,
    ensures
        exists|change: Change| #[trigger]
            shows(
                change,
                key_of_text(key),
                before.services[key].instances,
                after.services[key].instances,
            ) && if (change.add_list.len() == 0 && change.remove_list.len() == 0)
                || !before.listeners.contains_key(key) {
                after.listeners == before.listeners && after.outside == before.outside
            } else {
                exists|outsides: Seq<L::Outside>| #[trigger]
                    told_one_by_one(
                        before.listeners[key],
                        after.listeners[key],
                        outsides,
                        change,
                    ) && outsides.first() == before.outside && outsides.last() == after.outside
            },
{
    let old = before.services[key].instances;
    let new = after.services[key].instances;
    law_brings_what_comes(old, new);
    law_drops_what_goes(old, new);
    let change = Change {
        key: key_of_text(key),
        value: new,
        add_list: added(old, new),
        remove_list: removed(old, new),
    };
    assert(shows(change, key_of_text(key), old, new));
    if (change.add_list.len() > 0 || change.remove_list.len() > 0)
        && before.listeners.contains_key(key) {
        assert(news(before, key, report) == Some(change));
        let outsides = choose|outsides: Seq<L::Outside>|
            outsides.first() == before.outside && outsides.last() == after.outside
                && #[trigger] told_in_order(
                before.listeners[key],
                after.listeners[key],
                outsides,
                change,
            );
        assert(told_one_by_one(before.listeners[key], after.listeners[key], outsides, change));
    }
}

/// A listener is entered at the end of the list of its service. Where
/// instances are known for the service it is told at once: all of them, in
/// their order, as what is there and as what came, and nothing as what went.
/// Nothing else changes.
pub proof fn law_added_listener_is_greeted<L: InstanceListener>(
    before: NamingState<L>,
    after: NamingState<L>,
    key: ServiceInstanceKey,
    id: u64,
    listener: L,
    now: u64,
    action: Action,
)
    requires
        handled(before, after, NamingListenerCmd::Add(key, id, listener), now, action),
    ensures
        ({
            let text = key.group_name@ + seq!['@', '@'] + key.service_name@;
            let list = after.listeners[text];
            let entry = list.last();
            let known = before.services[text].instances;
            &&& after.listeners.contains_key(text)
            &&& list.len() > 0
            &&& before.listeners.contains_key(text) ==> list.drop_last() == before.listeners[text]
            &&& !before.listeners.contains_key(text) ==> list.len() == 1
            &&& entry.id == id
            &&& entry.listener_key.group_name == key.group_name@
            &&& entry.listener_key.service_name == key.service_name@
            &&& if before.services.contains_key(text) && known.len() > 0 {
                L::told(
                    listener,
                    entry.listener,
                    before.outside,
                    after.outside,
                    Change { key: key@, value: known, add_list: known, remove_list: Seq::empty() },
                )
            } else {
                entry.listener == listener && after.outside == before.outside
            }
            &&& forall|k: Seq<char>| #[trigger]
                after.listeners.contains_key(k) <==> k == text || before.listeners.contains_key(k)
            &&& forall|k: Seq<char>| #[trigger]
                before.listeners.contains_key(k) && k != text ==> after.listeners[k]
                    == before.listeners[k]
            &&& after == (NamingState {
                listeners: after.listeners,
                outside: after.outside,
                ..before
            })
            &&& before.listeners.contains_key(text) ==> action == Action::Nothing
            &&& !before.listeners.contains_key(text) ==> action == Action::AddHeartbeat(
                ServiceKey { group_name: key.group_name@, service_name: key.service_name@ },
            )
        }),
{
    let text = key.group_name@ + seq!['@', '@'] + key.service_name@;
    let list = after.listeners[text];
    if before.listeners.contains_key(text) {
        assert(list.drop_last() =~= before.listeners[text]);
    }
}

/// A default listener that is entered for a service with known instances holds
/// exactly those, and its callback was called once, with all of them as what
/// is there and as what came.
pub proof fn law_added_default_listener_holds_known<C: InstanceCallback>(
    before: NamingState<InstanceDefaultListener<C>>,
    after: NamingState<InstanceDefaultListener<C>>,
    key: ServiceInstanceKey,
    id: u64,
    listener: InstanceDefaultListener<C>,
    now: u64,
    action: Action,
)
    requires
        handled(before, after, NamingListenerCmd::Add(key, id, listener), now, action),
        ({
            let text = key.group_name@ + seq!['@', '@'] + key.service_name@;
            before.services.contains_key(text) && before.services[text].instances.len() > 0
        }),
    ensures
        ({
            let text = key.group_name@ + seq!['@', '@'] + key.service_name@;
            let entered = after.listeners[text].last().listener;
            let known = before.services[text].instances;
            &&& entered.content is Some
            &&& entered.content->0@ == known
            &&& after.services[text].instances == known
            &&& entered.key == listener.key
            &&& entered.callback == listener.callback
            &&& listener.callback is Some ==> listener.callback->0.called(
                before.outside,
                after.outside,
                known,
                known,
                Seq::empty(),
            )
            &&& listener.callback is None ==> after.outside == before.outside
        }),
{
    law_added_listener_is_greeted(before, after, key, id, listener, now, action);
}

/// Taking out an id leaves the listeners of the service with other ids, in
/// their order, and changes nothing else.
pub proof fn law_removed_listener_leaves_others<L: InstanceListener>(
    before: NamingState<L>,
    after: NamingState<L>,
    key: ServiceInstanceKey,
    id: u64,
    now: u64,
    action: Action,
)
    requires
        handled(before, after, NamingListenerCmd::Remove(key, id), now, action),
    ensures
        ({
            let text = key.group_name@ + seq!['@', '@'] + key.service_name@;
            &&& before.listeners.contains_key(text) ==> after.listeners[text]
                == before.listeners[text].filter(|e: ListenerEntry<L>| e.id != id)
            &&& forall|k: Seq<char>| #[trigger]
                after.listeners.contains_key(k) <==> before.listeners.contains_key(k)
            &&& forall|k: Seq<char>| #[trigger]
                before.listeners.contains_key(k) && k != text ==> after.listeners[k]
                    == before.listeners[k]
            &&& after == (NamingState { listeners: after.listeners, ..before })
            &&& action == Action::Nothing
        }),
{
    let text = key.group_name@ + seq!['@', '@'] + key.service_name@;
    if before.listeners.contains_key(text) {
        lemma_same_filter(
            before.listeners[text],
            other_id(id),
            |e: ListenerEntry<L>| e.id != id,
        );
    }
}

/// A service that is not tracked begins to be: nothing is known of it, it is
/// to be asked about at once, for all clusters and all instances and on behalf
/// of this client, and its first heartbeat is due now. For a service that is
/// tracked nothing happens. Nothing else changes.
pub proof fn law_tracking_begins<L: InstanceListener>(
    before: NamingState<L>,
    after: NamingState<L>,
    key: ServiceInstanceKey,
    now: u64,
    action: Action,
)
    requires
        handled(before, after, NamingListenerCmd::AddHeartbeat(key), now, action),
    ensures
        ({
            let text = key.group_name@ + seq!['@', '@'] + key.service_name@;
            if before.services.contains_key(text) {
                after == before && action == Action::Nothing
            } else {
                &&& after == (NamingState {
                    services: before.services.insert(
                        text,
                        ServiceState {
                            instances: Seq::empty(),
                            params: QueryParams {
                                namespace_id: before.namespace_id,
                                group_name: key.group_name@,
                                service_name: key.service_name@,
                                clusters: None,
                                healthy_only: false,
                                client_ip: Some(before.client_ip),
                                udp_port: Some(before.udp_port),
                            },
                            last_sign: Seq::empty(),
                            next_time: now,
                        },
                    ),
                    ..before
                })
                &&& action == Action::Heartbeat(text, now)
            }
        }),
{
}

/// A heartbeat of a service that is not tracked does nothing.
pub proof fn law_unknown_heartbeat_does_nothing<L: InstanceListener>(
    before: NamingState<L>,
    after: NamingState<L>,
    key: String,
    time: u64,
    now: u64,
    action: Action,
)
    requires
        handled(before, after, NamingListenerCmd::Heartbeat(key, time), now, action),
        !before.services.contains_key(key@),
    ensures
        after == before,
        action == Action::Nothing,
{
}

/// Whether one more entry was put in among entries in time order, behind all
/// that come due no later and before all that come due later.
pub open spec fn put_in(
    before: Seq<(u64, Seq<char>)>,
    after: Seq<(u64, Seq<char>)>,
    time: u64,
    key: Seq<char>,
) -> bool {
    exists|place: int|
        0 <= place <= before.len() && after == #[trigger] before.insert(place, (time, key)) && (
        forall|i: int| 0 <= i < place ==> (#[trigger] before[i]).0 <= time) && (forall|i: int|
            place <= i < before.len() ==> (#[trigger] before[i]).0 > time)
}

/// A heartbeat that comes before the time of its service asks nothing: the
/// service is put down for that time, and nothing else changes.
pub proof fn law_early_heartbeat_waits<L: InstanceListener>(
    before: NamingState<L>,
    after: NamingState<L>,
    key: String,
    time: u64,
    now: u64,
    action: Action,
)
    requires
        handled(before, after, NamingListenerCmd::Heartbeat(key, time), now, action),
        before.services.contains_key(key@),
        before.services[key@].next_time > time,
        forall|i: int, j: int|
            0 <= i < j < before.timeouts.len() ==> (#[trigger] before.timeouts[i]).0 <= (
            #[trigger] before.timeouts[j]).0,
    ensures
        after == (NamingState { timeouts: after.timeouts, ..before }),
        put_in(before.timeouts, after.timeouts, before.services[key@].next_time, key@),
        action == Action::Nothing,
{
    law_scheduled_at_one_place(before.timeouts, before.services[key@].next_time, key@);
}

/// A heartbeat that finds the time of its service come asks about the service.
/// The next time is one period from now, and the service is put down for just
/// that time. Nothing else changes.
pub proof fn law_due_heartbeat_asks<L: InstanceListener>(
    before: NamingState<L>,
    after: NamingState<L>,
    key: String,
    time: u64,
    now: u64,
    action: Action,
)
    requires
        handled(before, after, NamingListenerCmd::Heartbeat(key, time), now, action),
        before.services.contains_key(key@),
        before.services[key@].next_time <= time,
        now + before.period <= u64::MAX,
        forall|i: int, j: int|
            0 <= i < j < before.timeouts.len() ==> (#[trigger] before.timeouts[i]).0 <= (
            #[trigger] before.timeouts[j]).0,
    ensures
        action == Action::Query(key@, before.services[key@].params),
        after.services.contains_key(key@),
        after.services[key@].next_time == now + before.period,
        after.services == before.services.insert(
            key@,
            ServiceState { next_time: (now + before.period) as u64, ..before.services[key@] },
        ),
        put_in(before.timeouts, after.timeouts, (now + before.period) as u64, key@),
        after.timeouts.contains(((now + before.period) as u64, key@)),
        after == (NamingState { services: after.services, timeouts: after.timeouts, ..before }),
{
    let next_time = (now + before.period) as u64;
    law_scheduled_at_one_place(before.timeouts, next_time, key@);
    let place = choose|place: int|
        0 <= place <= before.timeouts.len() && after.timeouts == #[trigger] before.timeouts.insert(
            place,
            (next_time, key@),
        ) && (forall|i: int| 0 <= i < place ==> (#[trigger] before.timeouts[i]).0 <= next_time) && (
        forall|i: int|
            place <= i < before.timeouts.len() ==> (#[trigger] before.timeouts[i]).0 > next_time);
    assert(after.timeouts[place] == (next_time, key@));
}

/// Polling goes on: after a heartbeat that asked about a service, every look
/// that is not before one period from then hands out a heartbeat of the
/// service, and that heartbeat asks again.
pub proof fn law_polling_goes_on<L: InstanceListener>(
    before: NamingState<L>,
    asked: NamingState<L>,
    after: NamingState<L>,
    key: String,
    time: u64,
    now: u64,
    later: u64,
    handled_at: u64,
    first: Action,
    second: Action,
)
    requires
        handled(before, asked, NamingListenerCmd::Heartbeat(key, time), now, first),
        before.services.contains_key(key@),
        before.services[key@].next_time <= time,
        forall|i: int, j: int|
            0 <= i < j < before.timeouts.len() ==> (#[trigger] before.timeouts[i]).0 <= (
            #[trigger] before.timeouts[j]).0,
        now + before.period <= later,
        handled(
            swept(asked, later),
            after,
            NamingListenerCmd::Heartbeat(key, later),
            handled_at,
            second,
        ),
    ensures
        first == Action::Query(key@, before.services[key@].params),
        due_heartbeats(asked, later).contains(Action::Heartbeat(key@, later)),
        second == Action::Query(key@, before.services[key@].params),
{
    law_due_heartbeat_asks(before, asked, key, time, now, first);
    law_timeout_parts_entries(asked.timeouts, later);
    let entry = ((now + before.period) as u64, key@);
    assert(asked.timeouts.contains(entry));
    let keys = due_keys(asked.timeouts, later);
    assert(keys.contains(key@));
    let i = choose|i: int| 0 <= i < keys.len() && keys[i] == key@;
    assert(due_heartbeats(asked, later)[i] == Action::Heartbeat(key@, later));
}

/// To close changes nothing and leads to closing.
pub proof fn law_close_closes<L: InstanceListener>(
    before: NamingState<L>,
    after: NamingState<L>,
    now: u64,
    action: Action,
)
    requires
        handled(before, after, NamingListenerCmd::Close, now, action),
    ensures
        after == before,
        action == Action::Close,
{
}

/// A look at the time hands out a heartbeat for each entry up to that time, in
/// the order of the entries, and keeps the entries behind that time. Nothing
/// else changes.
pub proof fn law_look_hands_out_due<L: InstanceListener>(state: NamingState<L>, now: u64)
    ensures
        due_heartbeats(state, now) == state.timeouts.filter(
            |e: (u64, Seq<char>)| e.0 <= now,
        ).map_values(|e: (u64, Seq<char>)| Action::Heartbeat(e.1, now)),
        swept(state, now).timeouts == state.timeouts.filter(|e: (u64, Seq<char>)| e.0 > now),
        swept(state, now) == (NamingState { timeouts: swept(state, now).timeouts, ..state }),
{
    law_due_are_those_up_to_time(state.timeouts, now);
    assert(due_heartbeats(state, now) =~= state.timeouts.filter(
        |e: (u64, Seq<char>)| e.0 <= now,
    ).map_values(|e: (u64, Seq<char>)| Action::Heartbeat(e.1, now)));
}

/// What is known for a question are the instances of the service that it is
/// about, selected by health and cluster; nothing where the service is not
/// tracked.
pub proof fn law_question_is_answered_from_its_service<L: InstanceListener>(
    state: NamingState<L>,
    params: QueryParams,
)
    ensures
        ({
            let text = params.group_name + seq!['@', '@'] + params.service_name;
            &&& known_instances(state, params) is Some <==> state.services.contains_key(text)
            &&& state.services.contains_key(text) ==> known_instances(state, params)->0
                == state.services[text].instances.filter(
                |e: Arc<Instance>|
                    (e.healthy || !params.healthy_only) && (params.clusters is None
                        || params.clusters->0.contains(e.cluster_name@)),
            )
        }),
{
    let text = params.group_name + seq!['@', '@'] + params.service_name;
    if state.services.contains_key(text) {
        law_selected_by_health_and_cluster(state.services[text].instances, params);
    }
}

/// A question for all instances is answered with the whole list. A question
/// for one is answered with the very instance at the place that was picked
/// from that list, or with none where the place lies behind it.
pub proof fn law_answer_is_what_was_picked<F: Fn(&Vec<Arc<Instance>>) -> usize>(
    params: QueryInstanceListParams,
    list: Seq<Arc<Instance>>,
    pick: F,
    answer: QueryAnswer,
)
    ensures
        answers(NamingQueryCmd::QueryList(params), list, pick, answer) <==> answer
            == QueryAnswer::List(list),
        answers(NamingQueryCmd::Select(params), list, pick, answer) ==> exists|
            v: Vec<Arc<Instance>>,
            place: usize,
        |
            v@ == list && #[trigger] call_ensures(pick, (&v,), place) && if place < list.len() {
                answer == QueryAnswer::One(list[place as int])
            } else {
                answer == QueryAnswer::Nothing
            },
{
}

/// Every command can be carried out but for two: one that enters a listener
/// that cannot be told, and a heartbeat whose service would have to be asked
/// about again at a time beyond reach.
pub proof fn law_commands_can_be_carried_out<L: InstanceListener>(
    state: NamingState<L>,
    key: ServiceInstanceKey,
    id: u64,
    listener: L,
    text: String,
    time: u64,
    now: u64,
)
    ensures
        can_handle(state, NamingListenerCmd::Add(key, id, listener), now) <==> listener.ready(),
        can_handle(state, NamingListenerCmd::Remove(key, id), now),
        can_handle(state, NamingListenerCmd::AddHeartbeat(key), now),
        can_handle(state, NamingListenerCmd::Close, now),
        can_handle(state, NamingListenerCmd::Heartbeat(text, time), now) <==> (
        state.services.contains_key(text@) && state.services[text@].next_time <= time ==> now
            + state.period <= u64::MAX),
{
}

/// Every report can be taken over, unless its service would have to be asked
/// about again at a time beyond reach.
pub proof fn law_reports_can_be_taken_over<L: InstanceListener>(
    state: NamingState<L>,
    key: Seq<char>,
    report: ServiceReport,
    now: u64,
)
    ensures
        !state.services.contains_key(key) ==> deadline_fits(state, key, report, now),
        state.services.contains_key(key) && report.cache_millis is Some ==> (deadline_fits(
            state,
            key,
            report,
            now,
        ) <==> now + report.cache_millis->0 <= u64::MAX),
        state.services.contains_key(key) && report.cache_millis is None ==> (deadline_fits(
            state,
            key,
            report,
            now,
        ) <==> now + state.period <= u64::MAX),
{
}

/// What is to be done, and to whom it is about, is what the value holds.
pub proof fn law_actions_say_what_they_hold(
    key: ServiceInstanceKey,
    text: String,
    time: u64,
    params: QueryInstanceListParams,
    result: NamingQueryResult,
)
    ensures
        key@.group_name == key.group_name@,
        key@.service_name == key.service_name@,
        ListenerAction::Nothing@ == Action::Nothing,
        ListenerAction::AddHeartbeat(key)@ == Action::AddHeartbeat(key@),
        ListenerAction::Heartbeat(text, time)@ == Action::Heartbeat(text@, time),
        ListenerAction::Query(text, params)@ == Action::Query(text@, params@),
        ListenerAction::Close@ == Action::Close,
        QueryStep::Answer(result)@ == Step::Answer(result@),
        QueryStep::Fetch(key)@ == Step::Fetch(key@),
{
}

/// An entry says what the listener was entered with.
pub proof fn law_entry_says_what_it_holds<L>(value: ListenerValue<L>)
    ensures
        value@.listener_key.group_name == value.listener_key.group_name@,
        value@.listener_key.service_name == value.listener_key.service_name@,
        value@.listener == value.listener,
        value@.id == value.id,
{
}

/// A default listener that is told of instances holds them, and its callback
/// was called once, with what it was told; told of none, it stays as it was
/// and no one is called. Its key and callback stay.
pub proof fn law_default_listener_takes_over_and_passes_on<C: InstanceCallback>(
    before: InstanceDefaultListener<C>,
    after: InstanceDefaultListener<C>,
    outside_before: C::Outside,
    outside_after: C::Outside,
    change: Change,
)
    requires
        InstanceDefaultListener::<C>::told(before, after, outside_before, outside_after, change),
    ensures
        change.value.len() == 0 ==> after == before && outside_after == outside_before,
        change.value.len() > 0 ==> after.content is Some && after.content->0@ == change.value,
        change.value.len() > 0 && before.callback is Some ==> before.callback->0.called(
            outside_before,
            outside_after,
            change.value,
            change.add_list,
            change.remove_list,
        ),
        before.callback is None ==> outside_after == outside_before,
        after.key == before.key,
        after.callback == before.callback,
{
}

/// A default listener can be told whenever its callback can be called.
pub proof fn law_default_listener_is_ready<C: InstanceCallback>(
    listener: InstanceDefaultListener<C>,
)
    ensures
        listener.callback is None ==> listener.ready(),
        listener.callback is Some ==> (listener.ready() <==> listener.callback->0.ready()),
{
}

/// What a listener holds is its content, and nothing without one.
pub proof fn law_held_is_content(content: Option<Arc<InstanceListenerValue>>)
    ensures
        content is Some ==> held(content) == content->0@,
        content is None ==> held(content).len() == 0,
{
}

/// A closure that was called as a callback has returned from a call with the
/// instances it was to be called with.
pub proof fn law_closure_was_called_with<
    F: Fn(Arc<InstanceListenerValue>, InstanceListenerValue, InstanceListenerValue),
>(
    callback: F,
    content: Seq<Arc<Instance>>,
    add_list: Seq<Arc<Instance>>,
    remove_list: Seq<Arc<Instance>>,
)
    requires
        callback.called((), (), content, add_list, remove_list),
    ensures
        exists|
            list: Arc<InstanceListenerValue>,
            add: InstanceListenerValue,
            remove: InstanceListenerValue,
        |
            list@ == content && add@ == add_list && remove@ == remove_list
                && #[trigger] call_ensures(callback, (list, add, remove), ()),
{
}

/// In every state the heartbeats stand in the order of their times and belong
/// to tracked services. A tracked service is filed under its group and name,
/// is asked about on behalf of this client, for all clusters and all
/// instances, and all its instances weigh enough.
pub proof fn law_state_is_in_order<L: InstanceListener>(
    state: NamingState<L>,
    key: Seq<char>,
    i: int,
    j: int,
)
    requires
        valid_state(state),
    ensures
        0 <= i < j < state.timeouts.len() ==> state.timeouts[i].0 <= state.timeouts[j].0,
        0 <= i < state.timeouts.len() ==> state.services.contains_key(state.timeouts[i].1),
        state.services.contains_key(key) ==> ({
            let service = state.services[key];
            &&& key == service.params.group_name + seq!['@', '@'] + service.params.service_name
            &&& service.params.namespace_id == state.namespace_id
            &&& service.params.clusters is None
            &&& !service.params.healthy_only
            &&& service.params.client_ip == Some(state.client_ip)
            &&& service.params.udp_port is Some
            &&& 0 <= i < service.instances.len() ==> 0x3A83_126F
                < service.instances[i].weight.bits <= 0x7F80_0000
        }),
        state.listeners.contains_key(key) && 0 <= i < state.listeners[key].len() ==> ({
            let entry = state.listeners[key][i];
            &&& key == entry.listener_key.group_name + seq!['@', '@']
                + entry.listener_key.service_name
            &&& entry.listener.ready()
        }),
{
    if 0 <= i < state.timeouts.len() {
        assert(state.timeouts.contains(state.timeouts[i]));
    }
    if state.services.contains_key(key) && 0 <= i < state.services[key].instances.len() {
        law_weight_counts_by_bits(state.services[key].instances[i].weight);
    }
}

/// A closure that takes whatever it is called with can be a callback.
pub proof fn law_closure_is_ready<
    F: Fn(Arc<InstanceListenerValue>, InstanceListenerValue, InstanceListenerValue),
>(callback: F)
    requires
        forall|
            list: Arc<InstanceListenerValue>,
            add: InstanceListenerValue,
            remove: InstanceListenerValue,
        | #[trigger]
            call_requires(callback, (list, add, remove)),
    ensures
        callback.ready(),
{
}

} // verus!

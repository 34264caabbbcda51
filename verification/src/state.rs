//! The state of a naming listener as a mathematical value, and its steps.

use crate::diff::{added, removed};
use crate::instance::{weighted, Instance};
use crate::key::{key_of_text, key_text, ServiceKey};
use crate::listener::{Change, InstanceListener};
use crate::query::{asked_for, QueryParams, ServiceReport};
use crate::timeouts::{due_after, due_keys, in_time_order, scheduled};
use std::sync::Arc;
use vstd::prelude::*;

verus! {

/// What is known of a tracked service.
#[verifier::ext_equal]
pub struct ServiceState {
    pub instances: Seq<Arc<Instance>>,
    pub params: QueryParams,
    pub last_sign: Seq<char>,
    pub next_time: u64,
}

/// A listener and what it was entered with.
#[verifier::ext_equal]
pub struct ListenerEntry<L> {
    pub listener_key: ServiceKey,
    pub listener: L,
    pub id: u64,
}

/// The state of a naming listener. Listeners and services are filed under the
/// text of their key.
#[verifier::ext_equal]
pub struct NamingState<L: InstanceListener> {
    pub namespace_id: Seq<char>,
    pub listeners: Map<Seq<char>, Seq<ListenerEntry<L>>>,
    pub services: Map<Seq<char>, ServiceState>,
    pub timeouts: Seq<(u64, Seq<char>)>,
    pub period: u64,
    pub client_ip: Seq<char>,
    pub udp_port: u16,
    /// What the listeners act on.
    pub outside: L::Outside,
}

/// What is to be done after a step.
#[verifier::ext_equal]
pub enum Action {
    Nothing,
    AddHeartbeat(ServiceKey),
    Heartbeat(Seq<char>, u64),
    Query(Seq<char>, QueryParams),
    Close,
}

/// Whether what is known of a service is filed where it belongs, was asked for
/// on behalf of this client, and holds instances that count only.
pub open spec fn valid_service<L: InstanceListener>(
    state: NamingState<L>,
    key: Seq<char>,
    service: ServiceState,
) -> bool {
    &&& key == key_text(service.params.service())
    &&& service.params.namespace_id == state.namespace_id
    &&& service.params.clusters is None
    &&& !service.params.healthy_only
    &&& service.params.client_ip == Some(state.client_ip)
    &&& service.params.udp_port is Some
    &&& forall|i: int|
        0 <= i < service.instances.len() ==> (#[trigger] service.instances[i]).weight.counts()
}

/// Whether each entry is filed where it belongs and can be told of changes.
pub open spec fn valid_entries<L: InstanceListener>(
    key: Seq<char>,
    entries: Seq<ListenerEntry<L>>,
) -> bool {
    forall|i: int|
        0 <= i < entries.len() ==> key_text((#[trigger] entries[i]).listener_key) == key
            && entries[i].listener.ready()
}

/// Whether the keys that are to come due belong to tracked services.
pub open spec fn tracked_timeouts<L: InstanceListener>(state: NamingState<L>) -> bool {
    forall|e: (u64, Seq<char>)| #[trigger]
        state.timeouts.contains(e) ==> state.services.contains_key(e.1)
}

/// What holds of every state.
pub open spec fn valid_state<L: InstanceListener>(state: NamingState<L>) -> bool {
    &&& in_time_order(state.timeouts)
    &&& tracked_timeouts(state)
    &&& forall|k: Seq<char>| #[trigger]
        state.services.contains_key(k) ==> valid_service(state, k, state.services[k])
    &&& forall|k: Seq<char>| #[trigger]
        state.listeners.contains_key(k) ==> valid_entries(k, state.listeners[k])
}

/// How long answers are good for before the server says anything about it, in
/// milliseconds.
pub const DEFAULT_PERIOD: u64 = 3000;

/// How long after a look at the time the next one is due, in seconds.
pub const LOOK_INTERVAL: u64 = 1;

/// The state at the start.
pub open spec fn initial_state<L: InstanceListener>(
    namespace_id: Seq<char>,
    client_ip: Seq<char>,
    udp_port: u16,
    outside: L::Outside,
) -> NamingState<L> {
    NamingState {
        namespace_id,
        listeners: Map::empty(),
        services: Map::empty(),
        timeouts: Seq::empty(),
        period: DEFAULT_PERIOD,
        client_ip,
        udp_port,
        outside,
    }
}

/// The period after a report: the one it names, if it names one.
pub open spec fn period_after(period: u64, report: ServiceReport) -> u64 {
    match report.cache_millis {
        Some(millis) => millis,
        None => period,
    }
}

/// The checksum of a report; empty where it has none.
pub open spec fn checksum(report: ServiceReport) -> Seq<char> {
    match report.checksum {
        Some(sign) => sign,
        None => Seq::empty(),
    }
}

/// The key that a pushed report is about; empty where it has no name.
pub open spec fn pushed_key(report: ServiceReport) -> Seq<char> {
    match report.name {
        Some(name) => name,
        None => Seq::empty(),
    }
}

/// Whether a report may tell something new: its checksum is another than that
/// of the report before, or that one had none.
pub open spec fn may_be_new(service: ServiceState, report: ServiceReport) -> bool {
    service.last_sign != checksum(report) || service.last_sign.len() == 0
}

/// Whether the hosts of a report are taken over.
pub open spec fn refreshes(service: ServiceState, report: ServiceReport) -> bool {
    may_be_new(service, report) && report.hosts is Some
}

/// What is known of a service after a report about it.
pub open spec fn service_after(
    service: ServiceState,
    report: ServiceReport,
    next_time: u64,
) -> ServiceState {
    ServiceState {
        instances: if refreshes(service, report) {
            weighted(report.hosts->0)
        } else {
            service.instances
        },
        last_sign: if may_be_new(service, report) {
            checksum(report)
        } else {
            service.last_sign
        },
        next_time,
        ..service
    }
}

/// What the listeners of a service are told after a report about it: nothing
/// where its hosts are not taken over, or where none came and none went.
pub open spec fn news<L: InstanceListener>(
    state: NamingState<L>,
    key: Seq<char>,
    report: ServiceReport,
) -> Option<Change> {
    if state.services.contains_key(key) && refreshes(state.services[key], report) {
        let known = state.services[key].instances;
        let fresh = weighted(report.hosts->0);
        if added(known, fresh).len() == 0 && removed(known, fresh).len() == 0 {
            None
        } else {
            Some(
                Change {
                    key: key_of_text(key),
                    value: fresh,
                    add_list: added(known, fresh),
                    remove_list: removed(known, fresh),
                },
            )
        }
    } else {
        None
    }
}

/// Whether the listeners of a list were told of a change one after the other,
/// from the first to the last, each finding the outside as the one before left
/// it. Nothing else about the list changes.
pub open spec fn told_in_order<L: InstanceListener>(
    before: Seq<ListenerEntry<L>>,
    after: Seq<ListenerEntry<L>>,
    outsides: Seq<L::Outside>,
    change: Change,
) -> bool {
    &&& after.len() == before.len()
    &&& outsides.len() == before.len() + 1
    &&& forall|i: int|
        0 <= i < before.len() ==> {
            &&& (#[trigger] after[i]).listener_key == before[i].listener_key
            &&& after[i].id == before[i].id
            &&& L::told(
                before[i].listener,
                after[i].listener,
                outsides[i],
                outsides[i + 1],
                change,
            )
        }
}

/// Whether each listener of a list was told of a change, once and in the order
/// of the list, and nothing else happened.
pub open spec fn all_told<L: InstanceListener>(
    before: Seq<ListenerEntry<L>>,
    after: Seq<ListenerEntry<L>>,
    outside_before: L::Outside,
    outside_after: L::Outside,
    change: Change,
) -> bool {
    exists|outsides: Seq<L::Outside>|
        outsides.first() == outside_before && outsides.last() == outside_after
            && #[trigger] told_in_order(before, after, outsides, change)
}

/// Whether the listeners of a service were told of a change, and no one else.
pub open spec fn notified<L: InstanceListener>(
    before: Map<Seq<char>, Seq<ListenerEntry<L>>>,
    after: Map<Seq<char>, Seq<ListenerEntry<L>>>,
    outside_before: L::Outside,
    outside_after: L::Outside,
    key: Seq<char>,
    change: Change,
) -> bool {
    if before.contains_key(key) {
        &&& after == before.insert(key, after[key])
        &&& all_told(before[key], after[key], outside_before, outside_after, change)
    } else {
        &&& after == before
        &&& outside_after == outside_before
    }
}

/// The services after a report about one of them.
pub open spec fn services_after<L: InstanceListener>(
    state: NamingState<L>,
    key: Seq<char>,
    report: ServiceReport,
    now: u64,
) -> Map<Seq<char>, ServiceState> {
    let next_time = (now + period_after(state.period, report)) as u64;
    if state.services.contains_key(key) {
        state.services.insert(key, service_after(state.services[key], report, next_time))
    } else {
        state.services
    }
}

/// Whether the time at which a service would be asked for again can be told.
pub open spec fn deadline_fits<L: InstanceListener>(
    state: NamingState<L>,
    key: Seq<char>,
    report: ServiceReport,
    now: u64,
) -> bool {
    state.services.contains_key(key) ==> now + period_after(state.period, report) <= u64::MAX
}

/// The step on a report about a service.
pub open spec fn reported<L: InstanceListener>(
    before: NamingState<L>,
    after: NamingState<L>,
    key: Seq<char>,
    report: ServiceReport,
    now: u64,
) -> bool {
    &&& after == NamingState {
        period: period_after(before.period, report),
        services: services_after(before, key, report, now),
        listeners: after.listeners,
        outside: after.outside,
        ..before
    }
    &&& match news(before, key, report) {
        Some(change) => notified(
            before.listeners,
            after.listeners,
            before.outside,
            after.outside,
            key,
            change,
        ),
        None => after.listeners == before.listeners && after.outside == before.outside,
    }
}

/// What is known for a question: the instances that are asked for, or nothing
/// where the service is not tracked.
pub open spec fn known_instances<L: InstanceListener>(state: NamingState<L>, params: QueryParams) -> Option<
    Seq<Arc<Instance>>,
> {
    let key = key_text(params.service());
    if state.services.contains_key(key) {
        Some(state.services[key].instances.filter(asked_for(params)))
    } else {
        None
    }
}

/// The listeners that are filed under a key.
pub open spec fn entries_at<L: InstanceListener>(state: NamingState<L>, key: Seq<char>) -> Seq<ListenerEntry<L>> {
    if state.listeners.contains_key(key) {
        state.listeners[key]
    } else {
        Seq::empty()
    }
}

/// What a listener that is entered is told: the instances that are known
/// already, if there are any.
pub open spec fn greeting<L: InstanceListener>(
    state: NamingState<L>,
    key: ServiceKey,
) -> Option<Change> {
    let text = key_text(key);
    if state.services.contains_key(text) && state.services[text].instances.len() > 0 {
        let known = state.services[text].instances;
        Some(Change { key, value: known, add_list: known, remove_list: Seq::empty() })
    } else {
        None
    }
}

/// Whether a listener that is entered was told of the instances that are known
/// already; where none are known it is entered as it is.
pub open spec fn greeted<L: InstanceListener>(
    state: NamingState<L>,
    key: ServiceKey,
    listener: L,
    entered: L,
    outside_after: L::Outside,
) -> bool {
    match greeting(state, key) {
        Some(change) => L::told(listener, entered, state.outside, outside_after, change),
        None => entered == listener && outside_after == state.outside,
    }
}

/// The step that enters a listener at the end of the list of its service.
pub open spec fn listener_added<L: InstanceListener>(
    before: NamingState<L>,
    after: NamingState<L>,
    key: ServiceKey,
    id: u64,
    listener: L,
) -> bool {
    let text = key_text(key);
    let entry = after.listeners[text].last();
    &&& after == NamingState {
        listeners: before.listeners.insert(text, entries_at(before, text).push(entry)),
        outside: after.outside,
        ..before
    }
    &&& entry.listener_key == key
    &&& entry.id == id
    &&& greeted(before, key, listener, entry.listener, after.outside)
}

/// A service that begins to be tracked: it is asked about at once.
pub open spec fn new_service<L: InstanceListener>(state: NamingState<L>, key: ServiceKey, now: u64) -> ServiceState {
    ServiceState {
        instances: Seq::empty(),
        params: QueryParams {
            namespace_id: state.namespace_id,
            group_name: key.group_name,
            service_name: key.service_name,
            clusters: None,
            healthy_only: false,
            client_ip: Some(state.client_ip),
            udp_port: Some(state.udp_port),
        },
        last_sign: Seq::empty(),
        next_time: now,
    }
}

/// The step that begins to track a service, unless it is tracked already.
pub open spec fn tracking<L: InstanceListener>(state: NamingState<L>, key: ServiceKey, now: u64) -> NamingState<L> {
    let text = key_text(key);
    if state.services.contains_key(text) {
        state
    } else {
        NamingState {
            services: state.services.insert(text, new_service(state, key, now)),
            ..state
        }
    }
}

/// What entering a listener leads to: a service that no one has listened to is
/// to be tracked.
pub open spec fn add_action<L: InstanceListener>(state: NamingState<L>, key: ServiceKey) -> Action {
    if state.listeners.contains_key(key_text(key)) {
        Action::Nothing
    } else {
        Action::AddHeartbeat(key)
    }
}

/// What beginning to track a service leads to: its first heartbeat.
pub open spec fn track_action<L: InstanceListener>(state: NamingState<L>, key: ServiceKey, now: u64) -> Action {
    if state.services.contains_key(key_text(key)) {
        Action::Nothing
    } else {
        Action::Heartbeat(key_text(key), now)
    }
}

/// The entries with an id other than the given one.
pub open spec fn other_id<L>(id: u64) -> spec_fn(ListenerEntry<L>) -> bool {
    |e: ListenerEntry<L>| e.id != id
}

/// The step that takes the listeners with an id from the list of a service.
pub open spec fn listeners_removed<L: InstanceListener>(
    state: NamingState<L>,
    key: ServiceKey,
    id: u64,
) -> NamingState<L> {
    let text = key_text(key);
    if state.listeners.contains_key(text) {
        NamingState {
            listeners: state.listeners.insert(text, state.listeners[text].filter(other_id(id))),
            ..state
        }
    } else {
        state
    }
}

/// Whether a heartbeat at a time finds that the service is to be asked about.
pub open spec fn asks<L: InstanceListener>(state: NamingState<L>, key: Seq<char>, time: u64) -> bool {
    state.services.contains_key(key) && state.services[key].next_time <= time
}

/// The step on a heartbeat of a service. The service is put down for its next
/// heartbeat; where its time has come, that lies one period ahead of now.
pub open spec fn beaten<L: InstanceListener>(
    state: NamingState<L>,
    key: Seq<char>,
    time: u64,
    now: u64,
) -> NamingState<L> {
    if !state.services.contains_key(key) {
        state
    } else if asks(state, key, time) {
        let next_time = (now + state.period) as u64;
        NamingState {
            services: state.services.insert(
                key,
                ServiceState { next_time, ..state.services[key] },
            ),
            timeouts: scheduled(state.timeouts, next_time, key),
            ..state
        }
    } else {
        NamingState {
            timeouts: scheduled(state.timeouts, state.services[key].next_time, key),
            ..state
        }
    }
}

/// What a heartbeat leads to: a service whose time has come is asked about.
pub open spec fn beat_action<L: InstanceListener>(state: NamingState<L>, key: Seq<char>, time: u64) -> Action {
    if asks(state, key, time) {
        Action::Query(key, state.services[key].params)
    } else {
        Action::Nothing
    }
}

/// The state after the keys that have come due were taken out.
pub open spec fn swept<L: InstanceListener>(state: NamingState<L>, now: u64) -> NamingState<L> {
    NamingState { timeouts: state.timeouts.filter(due_after(now)), ..state }
}

/// The heartbeats that are due.
pub open spec fn due_heartbeats<L: InstanceListener>(state: NamingState<L>, now: u64) -> Seq<Action> {
    due_keys(state.timeouts, now).map_values(|k: Seq<char>| Action::Heartbeat(k, now))
}

} // verus!

//! The naming listener: which services are tracked, what is known of them and
//! who listens to them.

use crate::diff::diff_instances;
use crate::instance::{keep_weighted, law_weighted_hosts_count, Instance};
use crate::key::{key_of_text, key_text, ServiceInstanceKey, ServiceKey};
use crate::lemmas::{lemma_filter_contains, lemma_filter_push};
use crate::listener::{Change, InstanceListener};
use crate::query::{
    answer_one, pick_instance, select_instances, NamingQueryCmd, NamingQueryResult, QueryAnswer,
    QueryInstanceListParams, QueryListResult, ServiceReport,
};
use crate::state::{
    add_action, asks, beat_action, beaten, deadline_fits, due_heartbeats, entries_at,
    greeted, initial_state, known_instances, listener_added, listeners_removed, new_service,
    notified, other_id, period_after, reported, service_after, services_after, swept,
    told_in_order, track_action, tracking, valid_entries, valid_service, valid_state, Action, ListenerEntry,
    NamingState, ServiceState, DEFAULT_PERIOD, LOOK_INTERVAL,
};
use crate::store::KeyedStore;
use crate::timeouts::{
    add_timeout, due_keys, empty_timeout_set, law_scheduling_adds_one, law_timeout_parts_entries,
    take_timeouts, timeout_entries,
};
use inner_mem_cache::TimeoutSet;
use std::sync::Arc;
use vstd::prelude::*;

verus! {

/// A listener and what it was entered with.
pub struct ListenerValue<L> {
    pub listener_key: ServiceInstanceKey,
    pub listener: L,
    pub id: u64,
}

impl<L> View for ListenerValue<L> {
    type V = ListenerEntry<L>;

    open spec fn view(&self) -> ListenerEntry<L> {
        ListenerEntry { listener_key: self.listener_key@, listener: self.listener, id: self.id }
    }
}

/// The entries of a list of listeners.
pub open spec fn entries<L>(list: Seq<ListenerValue<L>>) -> Seq<ListenerEntry<L>> {
    list.map_values(|v: ListenerValue<L>| v@)
}

/// What is known of a tracked service.
pub struct InstancesWrap {
    instances: Vec<Arc<Instance>>,
    params: QueryInstanceListParams,
    last_sign: String,
    next_time: u64,
}

impl View for InstancesWrap {
    type V = ServiceState;

    closed spec fn view(&self) -> ServiceState {
        ServiceState {
            instances: self.instances@,
            params: self.params@,
            last_sign: self.last_sign@,
            next_time: self.next_time,
        }
    }
}

/// What a naming listener is told to do.
pub enum NamingListenerCmd<L> {
    /// Enter a listener under an id.
    Add(ServiceInstanceKey, u64, L),
    /// Take out the listeners with an id.
    Remove(ServiceInstanceKey, u64),
    /// Begin to track a service.
    AddHeartbeat(ServiceInstanceKey),
    /// Look after a service, at a time.
    Heartbeat(String, u64),
    /// Stop.
    Close,
}

/// What is to be done after a step.
#[derive(Debug)]
pub enum ListenerAction {
    Nothing,
    /// Have the naming listener begin to track a service.
    AddHeartbeat(ServiceInstanceKey),
    /// Have the naming listener look after a service, at a time.
    Heartbeat(String, u64),
    /// Ask the server about a service.
    Query(String, QueryInstanceListParams),
    /// Close the socket and stop.
    Close,
}

impl View for ListenerAction {
    type V = Action;

    open spec fn view(&self) -> Action {
        match self {
            ListenerAction::Nothing => Action::Nothing,
            ListenerAction::AddHeartbeat(key) => Action::AddHeartbeat(key@),
            ListenerAction::Heartbeat(key, time) => Action::Heartbeat(key@, *time),
            ListenerAction::Query(key, params) => Action::Query(key@, params@),
            ListenerAction::Close => Action::Close,
        }
    }
}

/// Whether a command can be carried out: a listener that is entered can be
/// told of changes, and the time of the next heartbeat can be told.
pub open spec fn can_handle<L: InstanceListener>(
    state: NamingState<L>,
    msg: NamingListenerCmd<L>,
    now: u64,
) -> bool {
    match msg {
        NamingListenerCmd::Add(_, _, listener) => listener.ready(),
        NamingListenerCmd::Heartbeat(key, time) => asks(state, key@, time) ==> now + state.period
            <= u64::MAX,
        _ => true,
    }
}

/// The step on a command, and what it leads to.
pub open spec fn handled<L: InstanceListener>(
    before: NamingState<L>,
    after: NamingState<L>,
    msg: NamingListenerCmd<L>,
    now: u64,
    action: Action,
) -> bool {
    match msg {
        NamingListenerCmd::Add(key, id, listener) => listener_added(before, after, key@, id, listener)
            && action == add_action(before, key@),
        NamingListenerCmd::Remove(key, id) => after == listeners_removed(before, key@, id) && action
            == Action::Nothing,
        NamingListenerCmd::AddHeartbeat(key) => after == tracking(before, key@, now) && action
            == track_action(before, key@, now),
        NamingListenerCmd::Heartbeat(key, time) => after == beaten(before, key@, time, now) && action
            == beat_action(before, key@, time),
        NamingListenerCmd::Close => after == before && action == Action::Close,
    }
}

/// What the socket worker is asked for.
#[derive(Debug, PartialEq, Eq, Structural, Clone, Copy)]
pub enum UdpRequest {
    /// To pass on what it receives.
    SetListenerAddr,
    /// To tell its port.
    QueryUdpPort,
}

/// What a question leads to, as a mathematical value.
#[verifier::ext_equal]
pub enum Step {
    Answer(QueryAnswer),
    Fetch(ServiceKey),
}

/// What a question leads to.
#[derive(Debug)]
pub enum QueryStep {
    /// It is answered.
    Answer(NamingQueryResult),
    /// The service is not tracked: the server is to be asked, and the service
    /// is to be tracked from now on.
    Fetch(ServiceInstanceKey),
}

impl View for QueryStep {
    type V = Step;

    open spec fn view(&self) -> Step {
        match self {
            QueryStep::Answer(result) => Step::Answer(result@),
            QueryStep::Fetch(key) => Step::Fetch(key@),
        }
    }
}

/// What the answer of the server to a question leads to.
#[derive(Debug)]
pub struct QueryReply {
    pub answer: NamingQueryResult,
    /// A service that is to be tracked from now on.
    pub heartbeat: Option<ServiceInstanceKey>,
}

/// What a look at the time leads to.
#[derive(Debug)]
pub struct LookStep {
    /// The heartbeats that are due.
    pub beats: Vec<ListenerAction>,
    /// When to look again, in seconds from now.
    pub again_in: u64,
}

/// Whether an answer to a question is the one that the selected instances
/// give: all of them, or the one at the place that was picked.
pub open spec fn answers<F: Fn(&Vec<Arc<Instance>>) -> usize>(
    cmd: NamingQueryCmd,
    list: Seq<Arc<Instance>>,
    pick: F,
    answer: QueryAnswer,
) -> bool {
    match cmd {
        NamingQueryCmd::QueryList(_) => answer == QueryAnswer::List(list),
        NamingQueryCmd::Select(_) => exists|v: Vec<Arc<Instance>>, place: usize|
            v@ == list && #[trigger] call_ensures(pick, (&v,), place) && answer == answer_one(
                list,
                place as int,
            ),
    }
}

/// The naming listener.
pub struct InnerNamingListener<L: InstanceListener> {
    namespace_id: String,
    listeners: KeyedStore<Vec<ListenerValue<L>>>,
    instances: KeyedStore<InstancesWrap>,
    timeout_set: TimeoutSet<String>,
    period: u64,
    client_ip: String,
    udp_port: u16,
    outside: L::Outside,
}

/// The entries that are filed under each key.
spec fn filed_entries<L>(listeners: Map<Seq<char>, Vec<ListenerValue<L>>>) -> Map<
    Seq<char>,
    Seq<ListenerEntry<L>>,
> {
    listeners.map_values(|list: Vec<ListenerValue<L>>| entries(list@))
}

/// What is known of the service that is filed under each key.
spec fn filed_services(instances: Map<Seq<char>, InstancesWrap>) -> Map<Seq<char>, ServiceState> {
    instances.map_values(|wrap: InstancesWrap| wrap@)
}

impl<L: InstanceListener> View for InnerNamingListener<L> {
    type V = NamingState<L>;

    closed spec fn view(&self) -> NamingState<L> {
        NamingState {
            namespace_id: self.namespace_id@,
            listeners: filed_entries(self.listeners@),
            services: filed_services(self.instances@),
            timeouts: timeout_entries(self.timeout_set),
            period: self.period,
            client_ip: self.client_ip@,
            udp_port: self.udp_port,
            outside: self.outside,
        }
    }
}

impl<L: InstanceListener> InnerNamingListener<L> {
    /// Whether the stores are in order.
    pub closed spec fn stores_wf(&self) -> bool {
        self.listeners.wf() && self.instances.wf()
    }

    /// What holds of every naming listener.
    pub open spec fn wf(&self) -> bool {
        self.stores_wf() && valid_state(self@)
    }

    pub fn new(
        namespace_id: &str,
        client_ip: &str,
        udp_port: u16,
        outside: L::Outside,
    ) -> (listener: Self)
        ensures
            listener.wf(),
            listener@ == initial_state::<L>(namespace_id@, client_ip@, udp_port, outside),
    {
        let listener = InnerNamingListener {
            namespace_id: namespace_id.to_owned(),
            listeners: KeyedStore::new(),
            instances: KeyedStore::new(),
            timeout_set: empty_timeout_set(),
            period: DEFAULT_PERIOD,
            client_ip: client_ip.to_owned(),
            udp_port,
            outside,
        };
        assert(listener@ =~= initial_state::<L>(namespace_id@, client_ip@, udp_port, outside));
        listener
    }

    /// What the listeners act on, as they have left it.
    pub fn outside(&self) -> (outside: &L::Outside)
        ensures
            *outside == self@.outside,
    {
        &self.outside
    }

    /// What to ask the server about a service, if the service is tracked.
    pub fn query_instance(&self, key: &str) -> (res: Option<QueryInstanceListParams>)
        requires
            self.wf(),
        ensures
            res is Some <==> self@.services.contains_key(key@),
            res matches Some(params) ==> params@ == self@.services[key@].params,
    {
        match self.instances.get(key) {
            Some(wrap) => Some(wrap.params.clone()),
            None => None,
        }
    }

    /// Tells the listeners of a service its instances, in the order in which
    /// they were entered, unless none came and none went.
    fn notify_listener(
        listeners: &mut KeyedStore<Vec<ListenerValue<L>>>,
        outside: &mut L::Outside,
        key_str: &str,
        instances: &Vec<Arc<Instance>>,
        add_list: Vec<Arc<Instance>>,
        remove_list: Vec<Arc<Instance>>,
    )
        requires
            old(listeners).wf(),
            forall|k: Seq<char>| #[trigger]
                old(listeners)@.contains_key(k) ==> valid_entries(k, entries(old(listeners)@[k]@)),
        ensures
            final(listeners).wf(),
            if add_list@.len() == 0 && remove_list@.len() == 0 {
                *final(listeners) == *old(listeners) && *final(outside) == *old(outside)
            } else {
                notified(
                    filed_entries(old(listeners)@),
                    filed_entries(final(listeners)@),
                    *old(outside),
                    *final(outside),
                    key_str@,
                    (Change {
                        key: key_of_text(key_str@),
                        value: instances@,
                        add_list: add_list@,
                        remove_list: remove_list@,
                    }),
                )
            },
            forall|k: Seq<char>| #[trigger]
                final(listeners)@.contains_key(k) ==> valid_entries(
                    k,
                    entries(final(listeners)@[k]@),
                ),
    {
        if add_list.len() == 0 && remove_list.len() == 0 {
            return;
        }
        let key = ServiceInstanceKey::from_str(key_str);
        let ghost before = listeners@;
        let ghost change = Change {
            key: key@,
            value: instances@,
            add_list: add_list@,
            remove_list: remove_list@,
        };
        if let Some(list) = listeners.get_mut(key_str) {
            let ghost first = list@;
            let ghost mut outsides = seq![*outside];
            let n = list.len();
            assert(valid_entries(key_str@, entries(first)));
            for i in 0..n
                invariant
                    n == first.len(),
                    list@.len() == n,
                    change == (Change {
                        key: key@,
                        value: instances@,
                        add_list: add_list@,
                        remove_list: remove_list@,
                    }),
                    valid_entries(key_str@, entries(first)),
                    outsides.len() == i + 1,
                    outsides.first() == *old(outside),
                    outsides.last() == *outside,
                    forall|j: int| i <= j < n ==> #[trigger] list@[j] == first[j],
                    forall|j: int|
                        0 <= j < i ==> {
                            &&& (#[trigger] list@[j]).listener_key == first[j].listener_key
                            &&& list@[j].id == first[j].id
                            &&& list@[j].listener.ready()
                            &&& L::told(
                                first[j].listener,
                                list@[j].listener,
                                outsides[j],
                                outsides[j + 1],
                                change,
                            )
                        },
            {
                assert(entries(first)[i as int].listener.ready());
                list[i].listener.change(outside, &key, instances, &add_list, &remove_list);
                proof {
                    outsides = outsides.push(*outside);
                }
            }
            proof {
                assert forall|j: int| 0 <= j < n implies key_text(
                    (#[trigger] entries(list@)[j]).listener_key,
                ) == key_str@ && entries(list@)[j].listener.ready() by {
                    assert(key_text(entries(first)[j].listener_key) == key_str@);
                }
                assert(told_in_order(entries(first), entries(list@), outsides, change));
            }
        }
        proof {
            if before.contains_key(key_str@) {
                assert(filed_entries(listeners@) =~= filed_entries(before).insert(
                    key_str@,
                    entries(listeners@[key_str@]@),
                ));
            }
        }
    }

    /// Takes over what the server says about a service. Its hosts are taken
    /// over where the checksum is new, and the listeners of the service are
    /// told where instances came or went. The service is to be asked about
    /// again one period from now.
    pub fn update_instances_and_notify(&mut self, key: &str, result: QueryListResult, now: u64)
        requires
            old(self).wf(),
            deadline_fits(old(self)@, key@, result@, now),
        ensures
            final(self).wf(),
            reported(old(self)@, final(self)@, key@, result@, now),
    {
        let ghost before = *self;
        let ghost report = result@;
        if let Some(cache_millis) = result.cache_millis {
            self.period = cache_millis;
        }
        let period = self.period;
        let mut changes: Option<(Vec<Arc<Instance>>, Vec<Arc<Instance>>)> = None;
        if let Some(wrap) = self.instances.get_mut(key) {
            let ghost service = wrap@;
            let checksum_text = match result.checksum {
                Some(text) => text,
                None => String::new(),
            };
            if !(wrap.last_sign == checksum_text) || wrap.last_sign.as_str().is_empty() {
                wrap.last_sign = checksum_text;
                if let Some(hosts) = result.hosts {
                    let fresh = keep_weighted(hosts);
                    changes = Some(diff_instances(&wrap.instances, &fresh));
                    wrap.instances = fresh;
                }
            }
            wrap.next_time = now + period;
            assert(wrap@ =~= service_after(service, report, (now + period) as u64));
        }
        proof {
            assert(filed_services(self.instances@) =~= services_after(
                before@,
                key@,
                report,
                now,
            ));
            assert forall|k: Seq<char>| #[trigger] self.listeners@.contains_key(k) implies valid_entries(
                k,
                entries(self.listeners@[k]@),
            ) by {
                assert(before@.listeners.contains_key(k));
            }
        }
        if let Some((add_list, remove_list)) = changes {
            if let Some(wrap) = self.instances.get(key) {
                Self::notify_listener(
                    &mut self.listeners,
                    &mut self.outside,
                    key,
                    &wrap.instances,
                    add_list,
                    remove_list,
                );
            }
        }
        proof {
            assert(self@ =~= NamingState {
                period: period_after(before@.period, report),
                services: services_after(before@, key@, report, now),
                listeners: self@.listeners,
                outside: self@.outside,
                ..before@
            });
            lemma_services_stay_valid(before@, self@, key@, report, now);
            assert forall|k: Seq<char>| #[trigger] self@.listeners.contains_key(k) implies valid_entries(
                k,
                self@.listeners[k],
            ) by {
                assert(self.listeners@.contains_key(k));
            }
        }
    }

    /// Enters a listener. It is told at once of the instances that are known.
    fn add_listener(&mut self, key: ServiceInstanceKey, id: u64, listener: L) -> (action:
        ListenerAction)
        requires
            old(self).wf(),
            listener.ready(),
        ensures
            final(self).wf(),
            listener_added(old(self)@, final(self)@, key@, id, listener),
            action@ == add_action(old(self)@, key@),
    {
        let ghost before = *self;
        let key_str = key.get_key();
        let mut entered = listener;
        if let Some(wrap) = self.instances.get(key_str.as_str()) {
            if wrap.instances.len() > 0 {
                let nothing: Vec<Arc<Instance>> = Vec::new();
                entered.change(&mut self.outside, &key, &wrap.instances, &wrap.instances, &nothing);
            }
        }
        assert(greeted(before@, key@, listener, entered, self.outside));
        let value = ListenerValue { listener_key: key.clone(), listener: entered, id };
        let ghost entry = value@;
        let ghost text = key_str@;
        let action = if self.listeners.contains_key(key_str.as_str()) {
            if let Some(list) = self.listeners.get_mut(key_str.as_str()) {
                let ghost first = list@;
                list.push(value);
                assert(entries(list@) =~= entries(first).push(entry));
            }
            ListenerAction::Nothing
        } else {
            let mut list: Vec<ListenerValue<L>> = Vec::new();
            list.push(value);
            assert(entries(list@) =~= Seq::empty().push(entry));
            self.listeners.insert(key_str, list);
            ListenerAction::AddHeartbeat(key)
        };
        proof {
            let whole = entries_at(before@, text).push(entry);
            assert(entries(self.listeners@[text]@) == whole);
            assert(self@.listeners =~= before@.listeners.insert(text, whole));
            assert(whole.last() == entry);
            assert(self@ =~= NamingState {
                listeners: before@.listeners.insert(text, whole),
                outside: self@.outside,
                ..before@
            });
            assert forall|k: Seq<char>| #[trigger] self@.listeners.contains_key(k) implies valid_entries(
                k,
                self@.listeners[k],
            ) by {
                if before@.listeners.contains_key(k) {
                    assert(valid_entries(k, before@.listeners[k]));
                }
            }
        }
        action
    }

    /// Begins to track a service, unless it is tracked already.
    fn add_heartbeat(&mut self, key: ServiceInstanceKey, now: u64) -> (action: ListenerAction)
        requires
            old(self).wf(),
        ensures
            final(self).wf(),
            final(self)@ == tracking(old(self)@, key@, now),
            action@ == track_action(old(self)@, key@, now),
    {
        let ghost before = *self;
        let ghost service_key = key@;
        let key_str = key.get_key();
        if self.instances.contains_key(key_str.as_str()) {
            return ListenerAction::Nothing;
        }
        let params = QueryInstanceListParams {
            namespace_id: self.namespace_id.clone(),
            group_name: key.group_name,
            service_name: key.service_name,
            clusters: None,
            healthy_only: false,
            client_ip: Some(self.client_ip.clone()),
            udp_port: Some(self.udp_port),
        };
        let wrap = InstancesWrap {
            instances: Vec::new(),
            params,
            last_sign: String::new(),
            next_time: now,
        };
        let ghost service = wrap@;
        assert(service =~= new_service(before@, service_key, now));
        self.instances.insert(key_str.clone(), wrap);
        proof {
            assert(self@.services =~= before@.services.insert(key_str@, service));
            assert(self@ =~= tracking(before@, service_key, now));
            assert forall|k: Seq<char>| #[trigger] self@.services.contains_key(k) implies valid_service(
                self@,
                k,
                self@.services[k],
            ) by {
                if k != key_str@ {
                    assert(valid_service(before@, k, before@.services[k]));
                } else {
                    assert(service.params.service() =~= service_key);
                }
            }
        }
        ListenerAction::Heartbeat(key_str, now)
    }

    /// Takes the listeners with an id from the list of a service.
    fn remove_listener(&mut self, key: ServiceInstanceKey, id: u64)
        requires
            old(self).wf(),
        ensures
            final(self).wf(),
            final(self)@ == listeners_removed(old(self)@, key@, id),
    {
        let ghost before = *self;
        let key_str = key.get_key();
        let ghost text = key_str@;
        if let Some(list) = self.listeners.get_mut(key_str.as_str()) {
            let ghost first = entries(list@);
            let ghost pred = other_id::<L>(id);
            let mut i: usize = 0;
            proof {
                reveal(Seq::filter);
                assert(first.take(0).filter(pred) =~= Seq::empty());
                assert(entries(list@.take(0)) =~= Seq::empty());
                assert(first.skip(0) =~= first);
                assert(list@.skip(0) =~= list@);
            }
            let ghost mut seen: int = 0;
            while i < list.len()
                invariant
                    pred == other_id::<L>(id),
                    0 <= seen <= first.len(),
                    i <= list@.len(),
                    list@.len() - i == first.len() - seen,
                    entries(list@.take(i as int)) == first.take(seen).filter(pred),
                    entries(list@.skip(i as int)) == first.skip(seen),
                decreases list@.len() - i,
            {
                let ghost whole = list@;
                proof {
                    assert(entries(whole.skip(i as int))[0] == first.skip(seen)[0]);
                    lemma_filter_push(first.take(seen), pred, first[seen]);
                    assert(first.take(seen).push(first[seen]) =~= first.take(seen + 1));
                    assert(first.skip(seen).drop_first() =~= first.skip(seen + 1));
                    assert(entries(whole.skip(i + 1)) =~= entries(whole.skip(i as int)).drop_first());
                }
                if list[i].id == id {
                    list.remove(i);
                    proof {
                        assert(list@.take(i as int) =~= whole.take(i as int));
                        assert(list@.skip(i as int) =~= whole.skip(i + 1));
                    }
                } else {
                    proof {
                        assert(entries(whole.take(i + 1)) =~= entries(whole.take(i as int)).push(
                            whole[i as int]@,
                        ));
                    }
                    i = i + 1;
                }
                proof {
                    seen = seen + 1;
                }
            }
            proof {
                assert(list@.take(i as int) =~= list@);
                assert(first.take(seen) =~= first);
            }
        }
        proof {
            if before@.listeners.contains_key(text) {
                assert(self@.listeners =~= before@.listeners.insert(
                    text,
                    before@.listeners[text].filter(other_id(id)),
                ));
            } else {
                assert(self@.listeners =~= before@.listeners);
            }
            assert(self@ =~= listeners_removed(before@, key@, id));
            assert forall|k: Seq<char>| #[trigger] self@.listeners.contains_key(k) implies valid_entries(
                k,
                self@.listeners[k],
            ) by {
                let former = before@.listeners[k];
                assert(valid_entries(k, former));
                if k == text {
                    let kept = former.filter(other_id(id));
                    assert forall|i: int| 0 <= i < kept.len() implies key_text(
                        (#[trigger] kept[i]).listener_key,
                    ) == k && kept[i].listener.ready() by {
                        lemma_filter_contains(former, other_id(id), kept[i]);
                    }
                }
            }
        }
    }

    /// Looks after a service: puts it down for its next heartbeat, and has it
    /// asked about where its time has come.
    fn heartbeat(&mut self, key: String, time: u64, now: u64) -> (action: ListenerAction)
        requires
            old(self).wf(),
            asks(old(self)@, key@, time) ==> now + old(self)@.period <= u64::MAX,
        ensures
            final(self).wf(),
            final(self)@ == beaten(old(self)@, key@, time, now),
            action@ == beat_action(old(self)@, key@, time),
    {
        let ghost before = *self;
        let ghost text = key@;
        let period = self.period;
        let mut is_query = false;
        if let Some(wrap) = self.instances.get_mut(key.as_str()) {
            if wrap.next_time <= time {
                is_query = true;
                wrap.next_time = now + period;
            }
            add_timeout(&mut self.timeout_set, wrap.next_time, key.clone());
        }
        proof {
            if before@.services.contains_key(text) {
                let next_time = self@.services[text].next_time;
                assert(self@.services =~= before@.services.insert(
                    text,
                    ServiceState { next_time, ..before@.services[text] },
                ));
                if !is_query {
                    assert(self@.services =~= before@.services);
                }
                law_scheduling_adds_one(before@.timeouts, next_time, text);
            } else {
                assert(self@.services =~= before@.services);
            }
            assert(self@ =~= beaten(before@, text, time, now));
            assert forall|k: Seq<char>| #[trigger] self@.services.contains_key(k) implies valid_service(
                self@,
                k,
                self@.services[k],
            ) by {
                assert(valid_service(before@, k, before@.services[k]));
            }
        }
        if is_query {
            match self.query_instance(key.as_str()) {
                Some(params) => ListenerAction::Query(key, params),
                None => ListenerAction::Nothing,
            }
        } else {
            ListenerAction::Nothing
        }
    }

    /// Carries out a command, and returns what is to be done then.
    pub fn handle(&mut self, msg: NamingListenerCmd<L>, now: u64) -> (action: ListenerAction)
        requires
            old(self).wf(),
            can_handle(old(self)@, msg, now),
        ensures
            final(self).wf(),
            handled(old(self)@, final(self)@, msg, now, action@),
    {
        match msg {
            NamingListenerCmd::Add(key, id, listener) => self.add_listener(key, id, listener),
            NamingListenerCmd::AddHeartbeat(key) => self.add_heartbeat(key, now),
            NamingListenerCmd::Remove(key, id) => {
                self.remove_listener(key, id);
                ListenerAction::Nothing
            },
            NamingListenerCmd::Heartbeat(key, time) => self.heartbeat(key, time, now),
            NamingListenerCmd::Close => ListenerAction::Close,
        }
    }

    /// Takes out the services whose time has come and returns their
    /// heartbeats, and when to look again.
    pub fn hb(&mut self, now: u64) -> (step: LookStep)
        requires
            old(self).wf(),
        ensures
            final(self).wf(),
            final(self)@ == swept(old(self)@, now),
            step.beats@.map_values(|a: ListenerAction| a@) == due_heartbeats(old(self)@, now),
            step.again_in == LOOK_INTERVAL,
    {
        let ghost before = self@;
        let keys = take_timeouts(&mut self.timeout_set, now);
        proof {
            assert(self@ =~= swept(before, now));
            law_timeout_parts_entries(before.timeouts, now);
            assert forall|k: Seq<char>| #[trigger] self@.services.contains_key(k) implies valid_service(
                self@,
                k,
                self@.services[k],
            ) by {
                assert(valid_service(before, k, before.services[k]));
            }
        }
        let ghost all = keys@;
        let ghost due = due_keys(before.timeouts, now);
        let mut beats: Vec<ListenerAction> = Vec::new();
        for key in it: keys
            invariant
                it.seq() == all,
                all.map_values(|k: String| k@) == due,
                beats@.len() == it.index(),
                forall|i: int|
                    0 <= i < beats@.len() ==> (#[trigger] beats@[i])@ == Action::Heartbeat(
                        due[i],
                        now,
                    ),
        {
            assert(key@ == all.map_values(|k: String| k@)[it.index() as int]);
            beats.push(ListenerAction::Heartbeat(key, now));
        }
        assert(beats@.map_values(|a: ListenerAction| a@) =~= due_heartbeats(before, now));
        LookStep { beats, again_in: LOOK_INTERVAL }
    }

    /// What the socket worker is asked for at the start: its port only where
    /// none is known.
    pub fn init_udp_info(&self) -> (requests: Vec<UdpRequest>)
        ensures
            requests@ == if self@.udp_port == 0 {
                seq![UdpRequest::SetListenerAddr, UdpRequest::QueryUdpPort]
            } else {
                seq![UdpRequest::SetListenerAddr]
            },
    {
        let mut requests: Vec<UdpRequest> = Vec::new();
        requests.push(UdpRequest::SetListenerAddr);
        if self.udp_port == 0 {
            requests.push(UdpRequest::QueryUdpPort);
        }
        requests
    }

    /// Takes over the port that the socket worker tells, and returns the one
    /// that was known before.
    pub fn init_local_addr(&mut self, port: u16) -> (former: u16)
        requires
            old(self).wf(),
        ensures
            final(self).wf(),
            final(self)@ == (NamingState { udp_port: port, ..old(self)@ }),
            former == old(self)@.udp_port,
    {
        let ghost before = self@;
        let former = self.udp_port;
        self.udp_port = port;
        proof {
            assert(self@ =~= NamingState { udp_port: port, ..before });
            assert forall|k: Seq<char>| #[trigger] self@.services.contains_key(k) implies valid_service(
                self@,
                k,
                self@.services[k],
            ) by {
                assert(valid_service(before, k, before.services[k]));
            }
        }
        former
    }

    /// The instances that are asked for, if the service is tracked.
    pub fn filter_instances(&self, params: &QueryInstanceListParams) -> (res: Option<
        Vec<Arc<Instance>>,
    >)
        requires
            self.wf(),
        ensures
            res is Some <==> known_instances(self@, params@) is Some,
            res matches Some(list) ==> list@ == known_instances(self@, params@)->0,
    {
        let key = params.get_key();
        match self.instances.get(key.as_str()) {
            Some(wrap) => Some(select_instances(&wrap.instances, params)),
            None => None,
        }
    }

    /// Answers a question from what is known, or says that the server is to be
    /// asked. Which one of several instances is picked is up to the caller.
    pub fn handle_query<F: Fn(&Vec<Arc<Instance>>) -> usize>(
        &self,
        cmd: &NamingQueryCmd,
        pick: F,
    ) -> (step: QueryStep)
        requires
            self.wf(),
            forall|v: &Vec<Arc<Instance>>| #[trigger] call_requires(pick, (v,)),
        ensures
            match known_instances(self@, cmd.asked()) {
                Some(list) => step@ is Answer && answers(*cmd, list, pick, step@->Answer_0),
                None => step@ == Step::Fetch(key_of_text(key_text(cmd.asked().service()))),
            },
    {
        let params = cmd.params();
        match self.filter_instances(params) {
            Some(list) => match cmd {
                NamingQueryCmd::QueryList(_) => QueryStep::Answer(NamingQueryResult::List(list)),
                NamingQueryCmd::Select(_) => {
                    let place = pick(&list);
                    QueryStep::Answer(pick_instance(&list, place))
                },
            },
            None => {
                let key = params.get_key();
                QueryStep::Fetch(ServiceInstanceKey::from_str(key.as_str()))
            },
        }
    }

    /// Takes over what the server answered to a question, and answers the
    /// question from what is known then. Where the server did not answer,
    /// nothing changes and there is no instance to answer with.
    pub fn handle_query_reply<F: Fn(&Vec<Arc<Instance>>) -> usize>(
        &mut self,
        cmd: &NamingQueryCmd,
        reply: Option<QueryListResult>,
        now: u64,
        pick: F,
    ) -> (res: QueryReply)
        requires
            old(self).wf(),
            reply matches Some(result) ==> deadline_fits(
                old(self)@,
                key_text(cmd.asked().service()),
                result@,
                now,
            ),
            forall|v: &Vec<Arc<Instance>>| #[trigger] call_requires(pick, (v,)),
        ensures
            final(self).wf(),
            match reply {
                Some(result) => reported(
                    old(self)@,
                    final(self)@,
                    key_text(cmd.asked().service()),
                    result@,
                    now,
                ) && match known_instances(final(self)@, cmd.asked()) {
                    Some(list) => answers(*cmd, list, pick, res.answer@) && res.heartbeat is None,
                    None => res.answer@ == QueryAnswer::Nothing && res.heartbeat is Some
                        && res.heartbeat->0@ == key_of_text(key_text(cmd.asked().service())),
                },
                None => *final(self) == *old(self) && res.answer@ == QueryAnswer::Nothing
                    && res.heartbeat is None,
            },
    {
        match reply {
            Some(result) => {
                let key = cmd.params().get_key();
                self.update_instances_and_notify(key.as_str(), result, now);
                match self.handle_query(cmd, pick) {
                    QueryStep::Answer(answer) => QueryReply { answer, heartbeat: None },
                    QueryStep::Fetch(service) => QueryReply {
                        answer: NamingQueryResult::Nothing,
                        heartbeat: Some(service),
                    },
                }
            },
            None => QueryReply { answer: NamingQueryResult::Nothing, heartbeat: None },
        }
    }

    /// Takes over what the server answered about a tracked service; where it
    /// did not answer, nothing changes.
    pub fn query_instance_reply(&mut self, key: &str, reply: Option<QueryListResult>, now: u64)
        requires
            old(self).wf(),
            reply matches Some(result) ==> deadline_fits(old(self)@, key@, result@, now),
        ensures
            final(self).wf(),
            match reply {
                Some(result) => reported(old(self)@, final(self)@, key@, result@, now),
                None => *final(self) == *old(self),
            },
    {
        if let Some(result) = reply {
            self.update_instances_and_notify(key, result, now);
        }
    }

    /// Tells whether the time at which a service would be asked for again,
    /// after a report about it, can be told.
    pub fn has_deadline(&self, key: &str, cache_millis: Option<u64>, now: u64) -> (res: bool)
        ensures
            res == (self@.services.contains_key(key@) ==> now + match cache_millis {
                Some(millis) => millis,
                None => self@.period,
            } <= u64::MAX),
    {
        let period = match cache_millis {
            Some(millis) => millis,
            None => self.period,
        };
        !self.instances.contains_key(key) || period <= u64::MAX - now
    }

    /// Tells whether the time of the next heartbeat, after a heartbeat of a
    /// service at a time, can be told.
    pub fn has_next_beat(&self, key: &str, time: u64, now: u64) -> (res: bool)
        requires
            self.wf(),
        ensures
            res == (asks(self@, key@, time) ==> now + self@.period <= u64::MAX),
    {
        match self.instances.get(key) {
            Some(wrap) => wrap.next_time > time || self.period <= u64::MAX - now,
            None => true,
        }
    }
}

/// A report leaves what is known of the services in order.
proof fn lemma_services_stay_valid<L: InstanceListener>(
    before: NamingState<L>,
    after: NamingState<L>,
    key: Seq<char>,
    report: ServiceReport,
    now: u64,
)
    requires
        valid_state(before),
        after == (NamingState {
            period: period_after(before.period, report),
            services: services_after(before, key, report, now),
            listeners: after.listeners,
            outside: after.outside,
            ..before
        }),
    ensures
        forall|k: Seq<char>| #[trigger]
            after.services.contains_key(k) ==> valid_service(after, k, after.services[k]),
        forall|e: (u64, Seq<char>)| #[trigger]
            after.timeouts.contains(e) ==> after.services.contains_key(e.1),
{
    if report.hosts is Some {
        law_weighted_hosts_count(report.hosts->0);
    }
    assert forall|k: Seq<char>| #[trigger] after.services.contains_key(k) implies valid_service(
        after,
        k,
        after.services[k],
    ) by {
        assert(before.services.contains_key(k));
        assert(valid_service(before, k, before.services[k]));
    }
}

} // verus!

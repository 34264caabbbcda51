use nacos_naming_listener::push::{handle_push, PushStep};
use nacos_naming_listener::query::{pick_instance, select_instances};
use nacos_naming_listener::{
    InnerNamingListener, Instance, InstanceListener, InstanceListenerValue, ListenerAction,
    LookStep, NamingListenerCmd, NamingQueryCmd, NamingQueryResult, QueryInstanceListParams, QueryListResult,
    QueryStep, ServiceInstanceKey, UdpRequest, Weight,
};
use std::sync::{Arc, Mutex};

type Log = Arc<Mutex<Vec<String>>>;

struct Recorder {
    name: String,
    log: Log,
}

fn names(list: &Vec<Arc<Instance>>) -> String {
    let names: Vec<String> = list.iter().map(|e| format!("{}:{}", e.ip, e.port)).collect();
    names.join(",")
}

impl InstanceListener for Recorder {
    type Outside = ();

    fn get_key(&self) -> ServiceInstanceKey {
        key("g", "s")
    }

    fn change(
        &mut self,
        _outside: &mut (),
        key: &ServiceInstanceKey,
        value: &InstanceListenerValue,
        add_list: &InstanceListenerValue,
        remove_list: &InstanceListenerValue,
    ) {
        self.log.lock().unwrap().push(format!(
            "{} {}/{} [{}] +[{}] -[{}]",
            self.name,
            key.group_name,
            key.service_name,
            names(value),
            names(add_list),
            names(remove_list)
        ));
    }
}

fn key(group: &str, service: &str) -> ServiceInstanceKey {
    ServiceInstanceKey { group_name: group.to_owned(), service_name: service.to_owned() }
}

fn recorder(name: &str, log: &Log) -> Recorder {
    Recorder { name: name.to_owned(), log: log.clone() }
}

fn taken(log: &Log) -> Vec<String> {
    std::mem::take(&mut *log.lock().unwrap())
}

fn host(ip: &str, port: u32) -> Instance {
    Instance {
        ip: ip.to_owned(),
        port,
        weight: Weight { bits: 1.0f32.to_bits() },
        healthy: true,
        cluster_name: "c1".to_owned(),
    }
}

fn report(sign: &str, hosts: Vec<Instance>) -> QueryListResult {
    QueryListResult {
        name: Some("g@@s".to_owned()),
        checksum: Some(sign.to_owned()),
        cache_millis: None,
        last_ref_time: None,
        hosts: Some(hosts),
    }
}

fn question(group: &str, service: &str) -> QueryInstanceListParams {
    QueryInstanceListParams {
        namespace_id: "public".to_owned(),
        group_name: group.to_owned(),
        service_name: service.to_owned(),
        clusters: None,
        healthy_only: false,
        client_ip: None,
        udp_port: None,
    }
}

fn started() -> InnerNamingListener<Recorder> {
    InnerNamingListener::new("public", "10.1.1.1", 0, ())
}

fn following(now: u64) -> InnerNamingListener<Recorder> {
    let mut state = started();
    state.handle(NamingListenerCmd::AddHeartbeat(key("g", "s")), now);
    state
}

fn known(state: &InnerNamingListener<Recorder>) -> String {
    names(&state.filter_instances(&question("g", "s")).unwrap())
}

#[test]
fn a_first_listener_leads_to_a_question() {
    let log = Log::default();
    let mut state = started();
    let action = state.handle(NamingListenerCmd::Add(key("g", "s"), 1, recorder("a", &log)), 100);
    let service = match action {
        ListenerAction::AddHeartbeat(service) => service,
        other => panic!("{:?}", other),
    };
    assert_eq!(service.get_key(), "g@@s");
    let action = state.handle(NamingListenerCmd::AddHeartbeat(service), 100);
    let (text, time) = match action {
        ListenerAction::Heartbeat(text, time) => (text, time),
        other => panic!("{:?}", other),
    };
    assert_eq!((text.as_str(), time), ("g@@s", 100));
    match state.handle(NamingListenerCmd::Heartbeat(text, time), 105) {
        ListenerAction::Query(text, params) => {
            assert_eq!(text, "g@@s");
            assert_eq!(params.namespace_id, "public");
            assert_eq!(params.group_name, "g");
            assert_eq!(params.service_name, "s");
            assert_eq!(params.clusters, None);
            assert!(!params.healthy_only);
            assert_eq!(params.client_ip, Some("10.1.1.1".to_owned()));
            assert_eq!(params.udp_port, Some(0));
        }
        other => panic!("{:?}", other),
    }
    assert!(taken(&log).is_empty());
    let again = state.handle(NamingListenerCmd::Add(key("g", "s"), 2, recorder("b", &log)), 106);
    assert!(matches!(again, ListenerAction::Nothing));
}

#[test]
fn listeners_are_told_of_changes() {
    let log = Log::default();
    let mut state = following(0);
    state.handle(NamingListenerCmd::Add(key("g", "s"), 1, recorder("a", &log)), 0);
    state.handle(NamingListenerCmd::Add(key("g", "s"), 2, recorder("b", &log)), 0);
    state.handle(NamingListenerCmd::Add(key("g", "t"), 3, recorder("c", &log)), 0);
    state.update_instances_and_notify("g@@s", report("1", vec![host("x", 1), host("y", 2)]), 5);
    assert_eq!(
        taken(&log),
        vec!["a g/s [x:1,y:2] +[x:1,y:2] -[]", "b g/s [x:1,y:2] +[x:1,y:2] -[]"]
    );
    state.update_instances_and_notify("g@@s", report("2", vec![host("y", 2), host("z", 3)]), 6);
    assert_eq!(
        taken(&log),
        vec!["a g/s [y:2,z:3] +[z:3] -[x:1]", "b g/s [y:2,z:3] +[z:3] -[x:1]"]
    );
    state.update_instances_and_notify("g@@s", report("3", vec![]), 7);
    assert_eq!(taken(&log), vec!["a g/s [] +[] -[y:2,z:3]", "b g/s [] +[] -[y:2,z:3]"]);
}

/// Writes down what it is told in a log that all share.
struct Scribe {
    name: String,
    turns: u32,
}

impl InstanceListener for Scribe {
    type Outside = Vec<String>;

    fn get_key(&self) -> ServiceInstanceKey {
        key("g", "s")
    }

    fn change(
        &mut self,
        outside: &mut Vec<String>,
        _key: &ServiceInstanceKey,
        _value: &InstanceListenerValue,
        add_list: &InstanceListenerValue,
        remove_list: &InstanceListenerValue,
    ) {
        self.turns += 1;
        let line = format!(
            "{}{} +[{}] -[{}]",
            self.name,
            self.turns,
            names(add_list),
            names(remove_list)
        );
        outside.push(line);
    }
}

#[test]
fn listeners_are_told_in_the_order_of_their_list() {
    let mut state: InnerNamingListener<Scribe> =
        InnerNamingListener::new("public", "10.1.1.1", 0, vec!["start".to_owned()]);
    assert_eq!(*state.outside(), vec!["start"]);
    state.handle(NamingListenerCmd::AddHeartbeat(key("g", "s")), 0);
    for (id, name) in [(1, "c"), (2, "a"), (3, "b")] {
        let scribe = Scribe { name: name.to_owned(), turns: 0 };
        state.handle(NamingListenerCmd::Add(key("g", "s"), id, scribe), 0);
    }
    state.update_instances_and_notify("g@@s", report("1", vec![host("x", 1)]), 5);
    assert_eq!(
        *state.outside(),
        vec!["start", "c1 +[x:1] -[]", "a1 +[x:1] -[]", "b1 +[x:1] -[]"]
    );
    state.handle(NamingListenerCmd::Remove(key("g", "s"), 2), 6);
    state.update_instances_and_notify("g@@s", report("2", vec![host("y", 1)]), 7);
    assert_eq!(state.outside()[4..], ["c2 +[y:1] -[x:1]", "b2 +[y:1] -[x:1]"]);
}

#[test]
fn what_a_listener_is_told_sums_up_to_what_is_known() {
    let log = Log::default();
    let mut state = following(0);
    state.update_instances_and_notify("g@@s", report("1", vec![host("x", 1), host("y", 2)]), 5);
    state.handle(NamingListenerCmd::Add(key("g", "s"), 7, recorder("a", &log)), 6);
    state.handle(NamingListenerCmd::Add(key("g", "s"), 8, recorder("b", &log)), 6);
    state.update_instances_and_notify("g@@s", report("2", vec![host("z", 3), host("y", 2)]), 7);
    state.handle(NamingListenerCmd::Remove(key("g", "s"), 8), 8);
    state.update_instances_and_notify("g@@s", report("2", vec![]), 8);
    state.update_instances_and_notify("g@@s", report("3", vec![host("x", 1), host("x", 1)]), 9);
    let mut sum: Vec<String> = vec![];
    for line in taken(&log).iter().filter(|line| line.starts_with("a ")) {
        let came = line.split("+[").nth(1).unwrap().split(']').next().unwrap();
        let went = line.split("-[").nth(1).unwrap().split(']').next().unwrap();
        sum.retain(|a| !went.split(',').any(|w| w == a));
        for one in came.split(',').filter(|a| !a.is_empty()) {
            if !sum.iter().any(|a| a == one) {
                sum.push(one.to_owned());
            }
        }
    }
    assert_eq!(sum, vec!["x:1"]);
    assert_eq!(known(&state), "x:1,x:1");
}

#[test]
fn a_report_that_comes_twice_counts_once() {
    let log = Log::default();
    let mut state = following(0);
    state.handle(NamingListenerCmd::Add(key("g", "s"), 1, recorder("a", &log)), 0);
    let plain = || {
        let mut plain = report("", vec![host("x", 1), host("y", 2)]);
        plain.checksum = None;
        plain.cache_millis = Some(500);
        plain
    };
    state.update_instances_and_notify("g@@s", plain(), 5);
    assert_eq!(taken(&log).len(), 1);
    state.update_instances_and_notify("g@@s", plain(), 6);
    assert!(taken(&log).is_empty());
    assert_eq!(known(&state), "x:1,y:2");
    let twins = || {
        let mut twins = report("", vec![host("x", 1), host("x", 1)]);
        twins.checksum = None;
        twins
    };
    state.update_instances_and_notify("g@@s", twins(), 7);
    taken(&log);
    state.update_instances_and_notify("g@@s", twins(), 8);
    assert_eq!(taken(&log), vec!["a g/s [x:1,x:1] +[x:1] -[]"]);
}

#[test]
fn equal_addresses_tell_no_one() {
    let log = Log::default();
    let mut state = following(0);
    state.handle(NamingListenerCmd::Add(key("g", "s"), 1, recorder("a", &log)), 0);
    state.update_instances_and_notify("g@@s", report("1", vec![host("x", 1), host("y", 2)]), 5);
    taken(&log);
    let mut sick = host("x", 1);
    sick.healthy = false;
    state.update_instances_and_notify("g@@s", report("2", vec![host("y", 2), sick]), 6);
    assert!(taken(&log).is_empty());
    assert_eq!(known(&state), "y:2,x:1");
    let mut params = question("g", "s");
    params.healthy_only = true;
    assert_eq!(names(&state.filter_instances(&params).unwrap()), "y:2");
}

#[test]
fn a_known_checksum_brings_nothing() {
    let log = Log::default();
    let mut state = following(0);
    state.handle(NamingListenerCmd::Add(key("g", "s"), 1, recorder("a", &log)), 0);
    state.update_instances_and_notify("g@@s", report("1", vec![host("x", 1)]), 5);
    assert_eq!(taken(&log).len(), 1);
    state.update_instances_and_notify("g@@s", report("1", vec![host("y", 2)]), 6);
    assert!(taken(&log).is_empty());
    assert_eq!(known(&state), "x:1");
}

#[test]
fn without_checksum_every_report_counts() {
    let log = Log::default();
    let mut state = following(0);
    state.handle(NamingListenerCmd::Add(key("g", "s"), 1, recorder("a", &log)), 0);
    let mut first = report("", vec![host("x", 1)]);
    first.checksum = None;
    state.update_instances_and_notify("g@@s", first, 5);
    state.update_instances_and_notify("g@@s", report("", vec![host("y", 2)]), 6);
    assert_eq!(taken(&log), vec!["a g/s [x:1] +[x:1] -[]", "a g/s [y:2] +[y:2] -[x:1]"]);
}

#[test]
fn a_report_without_hosts_keeps_the_instances() {
    let mut state = following(0);
    state.update_instances_and_notify("g@@s", report("1", vec![host("x", 1)]), 5);
    let mut empty = report("2", vec![]);
    empty.hosts = None;
    state.update_instances_and_notify("g@@s", empty, 6);
    assert_eq!(known(&state), "x:1");
    state.update_instances_and_notify("g@@s", report("2", vec![host("y", 2)]), 7);
    assert_eq!(known(&state), "x:1");
}

#[test]
fn hosts_that_do_not_count_are_not_known() {
    let mut state = following(0);
    let mut idle = host("y", 2);
    idle.weight = Weight { bits: 0.0f32.to_bits() };
    state.update_instances_and_notify("g@@s", report("1", vec![host("x", 1), idle]), 5);
    assert_eq!(known(&state), "x:1");
}

#[test]
fn a_new_listener_is_told_of_known_instances() {
    let log = Log::default();
    let mut state = following(0);
    state.handle(NamingListenerCmd::Add(key("g", "s"), 1, recorder("a", &log)), 0);
    assert!(taken(&log).is_empty());
    state.update_instances_and_notify("g@@s", report("1", vec![host("x", 1)]), 5);
    taken(&log);
    state.handle(NamingListenerCmd::Add(key("g", "s"), 2, recorder("b", &log)), 6);
    assert_eq!(taken(&log), vec!["b g/s [x:1] +[x:1] -[]"]);
}

#[test]
fn removed_listeners_are_told_no_more() {
    let log = Log::default();
    let mut state = following(0);
    for (id, name) in [(1, "a"), (2, "b"), (1, "c"), (1, "d"), (3, "e")] {
        state.handle(NamingListenerCmd::Add(key("g", "s"), id, recorder(name, &log)), 0);
    }
    state.handle(NamingListenerCmd::Remove(key("g", "other"), 2), 0);
    let action = state.handle(NamingListenerCmd::Remove(key("g", "s"), 1), 0);
    assert!(matches!(action, ListenerAction::Nothing));
    state.update_instances_and_notify("g@@s", report("1", vec![host("x", 1)]), 5);
    assert_eq!(taken(&log), vec!["b g/s [x:1] +[x:1] -[]", "e g/s [x:1] +[x:1] -[]"]);
    state.handle(NamingListenerCmd::Remove(key("g", "s"), 2), 0);
    state.handle(NamingListenerCmd::Remove(key("g", "s"), 3), 0);
    let action = state.handle(NamingListenerCmd::Add(key("g", "s"), 9, recorder("f", &log)), 0);
    assert!(matches!(action, ListenerAction::Nothing));
}

#[test]
fn heartbeats_come_when_due() {
    let mut state = following(1000);
    assert!(state.hb(5000).beats.is_empty());
    assert!(matches!(
        state.handle(NamingListenerCmd::Heartbeat("g@@s".to_owned(), 1000), 1000),
        ListenerAction::Query(_, _)
    ));
    assert!(state.hb(3999).beats.is_empty());
    let LookStep { beats, again_in } = state.hb(4000);
    assert_eq!(again_in, 1);
    assert_eq!(beats.len(), 1);
    match &beats[0] {
        ListenerAction::Heartbeat(text, time) => assert_eq!((text.as_str(), *time), ("g@@s", 4000)),
        other => panic!("{:?}", other),
    }
    assert!(state.hb(9000).beats.is_empty());
}

#[test]
fn heartbeats_come_in_the_order_of_their_times() {
    let mut state = started();
    for (name, time) in [("a", 30), ("b", 10), ("c", 20), ("d", 10)] {
        state.handle(NamingListenerCmd::AddHeartbeat(key("g", name)), time);
        state.handle(NamingListenerCmd::Heartbeat(format!("g@@{}", name), time), time);
    }
    let texts: Vec<String> = state
        .hb(3020)
        .beats
        .into_iter()
        .map(|b| match b {
            ListenerAction::Heartbeat(text, _) => text,
            other => panic!("{:?}", other),
        })
        .collect();
    assert_eq!(texts, vec!["g@@b", "g@@d", "g@@c"]);
    assert_eq!(state.hb(3030).beats.len(), 1);
}

#[test]
fn a_heartbeat_before_its_time_is_put_off() {
    let mut state = following(1000);
    state.handle(NamingListenerCmd::Heartbeat("g@@s".to_owned(), 1000), 1000);
    state.hb(4000);
    let mut longer = report("1", vec![host("x", 1)]);
    longer.cache_millis = Some(10000);
    state.update_instances_and_notify("g@@s", longer, 2000);
    assert!(matches!(
        state.handle(NamingListenerCmd::Heartbeat("g@@s".to_owned(), 4000), 4000),
        ListenerAction::Nothing
    ));
    assert!(state.hb(11999).beats.is_empty());
    assert_eq!(state.hb(12000).beats.len(), 1);
    assert!(matches!(
        state.handle(NamingListenerCmd::Heartbeat("g@@s".to_owned(), 12000), 12000),
        ListenerAction::Query(_, _)
    ));
    assert!(state.hb(21999).beats.is_empty());
    assert_eq!(state.hb(22000).beats.len(), 1);
}

#[test]
fn an_unknown_heartbeat_leads_to_nothing() {
    let mut state = started();
    assert!(matches!(
        state.handle(NamingListenerCmd::Heartbeat("g@@s".to_owned(), 1), 1),
        ListenerAction::Nothing
    ));
    assert!(state.hb(u64::MAX).beats.is_empty());
    assert!(state.query_instance("g@@s").is_none());
}

#[test]
fn tracking_twice_is_once() {
    let mut state = following(7);
    assert!(matches!(
        state.handle(NamingListenerCmd::AddHeartbeat(key("g", "s")), 9),
        ListenerAction::Nothing
    ));
    assert_eq!(state.query_instance("g@@s").unwrap().get_key(), "g@@s");
}

#[test]
fn close_leads_to_close() {
    let mut state = following(0);
    assert!(matches!(state.handle(NamingListenerCmd::Close, 0), ListenerAction::Close));
}

#[test]
fn the_port_is_asked_for_where_it_is_unknown() {
    let mut state = started();
    assert_eq!(
        state.init_udp_info(),
        vec![UdpRequest::SetListenerAddr, UdpRequest::QueryUdpPort]
    );
    assert_eq!(state.init_local_addr(4242), 0);
    assert_eq!(state.init_local_addr(4242), 4242);
    assert_eq!(state.init_udp_info(), vec![UdpRequest::SetListenerAddr]);
    state.handle(NamingListenerCmd::AddHeartbeat(key("g", "s")), 0);
    assert_eq!(state.query_instance("g@@s").unwrap().udp_port, Some(4242));
}

#[test]
fn questions_are_answered_from_what_is_known() {
    let mut state = following(0);
    state.update_instances_and_notify("g@@s", report("1", vec![host("x", 1), host("y", 2)]), 5);
    let cmd = NamingQueryCmd::QueryList(question("g", "s"));
    match state.handle_query(&cmd, |_| 0) {
        QueryStep::Answer(NamingQueryResult::List(list)) => assert_eq!(names(&list), "x:1,y:2"),
        other => panic!("{:?}", other),
    }
    let cmd = NamingQueryCmd::Select(question("g", "s"));
    match state.handle_query(&cmd, |list| list.len() - 1) {
        QueryStep::Answer(NamingQueryResult::One(one)) => assert_eq!(one.ip, "y"),
        other => panic!("{:?}", other),
    }
    assert!(matches!(
        state.handle_query(&cmd, |list| list.len()),
        QueryStep::Answer(NamingQueryResult::Nothing)
    ));
}

#[test]
fn a_question_about_an_unknown_service_goes_to_the_server() {
    let mut state = started();
    let cmd = NamingQueryCmd::QueryList(question("g", "s"));
    let service = match state.handle_query(&cmd, |_| 0) {
        QueryStep::Fetch(service) => service,
        other => panic!("{:?}", other),
    };
    assert_eq!(service.get_key(), "g@@s");
    let early = state.handle_query_reply(&cmd, Some(report("1", vec![host("x", 1)])), 5, |_| 0);
    assert!(matches!(early.answer, NamingQueryResult::Nothing));
    assert_eq!(early.heartbeat.unwrap().get_key(), "g@@s");
    state.handle(NamingListenerCmd::AddHeartbeat(service), 5);
    let reply = state.handle_query_reply(&cmd, Some(report("1", vec![host("x", 1)])), 5, |_| 0);
    assert!(reply.heartbeat.is_none());
    match reply.answer {
        NamingQueryResult::List(list) => assert_eq!(names(&list), "x:1"),
        other => panic!("{:?}", other),
    }
    let failed = state.handle_query_reply(&cmd, None, 6, |_| 0);
    assert!(failed.heartbeat.is_none());
    assert!(matches!(failed.answer, NamingQueryResult::Nothing));
}

#[test]
fn questions_select_by_cluster_and_health() {
    let mut other = host("y", 2);
    other.cluster_name = "c2".to_owned();
    let mut sick = host("z", 3);
    sick.healthy = false;
    let list: Vec<Arc<Instance>> = vec![Arc::new(host("x", 1)), Arc::new(other), Arc::new(sick)];
    let mut params = question("g", "s");
    assert_eq!(names(&select_instances(&list, &params)), "x:1,y:2,z:3");
    params.clusters = Some(vec!["c0".to_owned(), "c2".to_owned()]);
    assert_eq!(names(&select_instances(&list, &params)), "y:2");
    params.clusters = Some(vec![]);
    assert_eq!(names(&select_instances(&list, &params)), "");
    params.clusters = Some(vec!["c1".to_owned()]);
    params.healthy_only = true;
    assert_eq!(names(&select_instances(&list, &params)), "x:1");
    let copy = params.clone();
    assert_eq!(copy.clusters, params.clusters);
    assert_eq!(copy.get_key(), "g@@s");
    assert!(matches!(pick_instance(&list, 1), NamingQueryResult::One(_)));
    assert!(matches!(pick_instance(&list, 3), NamingQueryResult::Nothing));
}

#[test]
fn a_stricter_question_selects_part_of_a_weaker_one() {
    let list: Vec<Arc<Instance>> = (0..6u32)
        .map(|i| {
            let mut one = host("x", i);
            one.healthy = i % 2 == 0;
            one.cluster_name = format!("c{}", i % 3);
            Arc::new(one)
        })
        .collect();
    let mut weak = question("g", "s");
    weak.clusters = Some(vec!["c0".to_owned(), "c1".to_owned()]);
    let mut strict = weak.clone();
    strict.healthy_only = true;
    assert_eq!(names(&select_instances(&list, &weak)), "x:0,x:1,x:3,x:4");
    assert_eq!(names(&select_instances(&list, &strict)), "x:0,x:4");
}

#[test]
fn a_push_is_about_the_service_it_names() {
    let log = Log::default();
    let mut state = following(0);
    state.handle(NamingListenerCmd::Add(key("g", "s"), 1, recorder("a", &log)), 0);
    let mut unnamed = report("1", vec![host("x", 1)]);
    unnamed.name = None;
    unnamed.cache_millis = Some(77);
    let PushStep { key: about, result, .. } = handle_push(unnamed);
    state.update_instances_and_notify(&about, result, 5);
    assert!(taken(&log).is_empty());
    let PushStep { key: about, result, .. } = handle_push(report("1", vec![host("x", 1)]));
    state.update_instances_and_notify(&about, result, 5);
    assert_eq!(taken(&log), vec!["a g/s [x:1] +[x:1] -[]"]);
    state.handle(NamingListenerCmd::Heartbeat("g@@s".to_owned(), 81), 81);
    assert!(state.hb(81).beats.is_empty());
    assert_eq!(state.hb(82).beats.len(), 1);
}

#[test]
fn a_failed_question_changes_nothing() {
    let mut state = following(0);
    state.query_instance_reply("g@@s", Some(report("1", vec![host("x", 1)])), 5);
    state.query_instance_reply("g@@s", None, 6);
    assert_eq!(known(&state), "x:1");
}

#[test]
fn deadlines_beyond_reach_are_seen() {
    let mut state = following(0);
    assert!(state.has_deadline("g@@s", None, 0));
    assert!(!state.has_deadline("g@@s", None, u64::MAX));
    assert!(state.has_deadline("g@@t", None, u64::MAX));
    assert!(!state.has_deadline("g@@s", Some(u64::MAX), 1));
    assert!(state.has_deadline("g@@s", Some(u64::MAX), 0));
    assert!(!state.has_next_beat("g@@s", 0, u64::MAX));
    assert!(state.has_next_beat("g@@t", 0, u64::MAX));
    state.handle(NamingListenerCmd::Heartbeat("g@@s".to_owned(), 0), 0);
    assert!(state.has_next_beat("g@@s", 2999, u64::MAX));
    assert!(!state.has_next_beat("g@@s", 3000, u64::MAX));
}

#[test]
fn no_service_is_forgotten() {
    let mut state = started();
    for name in ["a", "b", "c"] {
        state.handle(NamingListenerCmd::AddHeartbeat(key("g", name)), 0);
        state.handle(NamingListenerCmd::Heartbeat(format!("g@@{}", name), 0), 0);
    }
    let mut asked = vec![];
    for second in 1..=10u64 {
        let now = second * 1000;
        if second == 4 {
            state.update_instances_and_notify("g@@b", report("1", vec![host("x", 1)]), now);
        }
        for beat in state.hb(now).beats {
            if let ListenerAction::Heartbeat(text, time) = beat {
                let cmd = NamingListenerCmd::Heartbeat(text, time);
                if let ListenerAction::Query(text, _) = state.handle(cmd, now) {
                    asked.push(format!("{} {}", second, text));
                }
            }
        }
    }
    assert_eq!(
        asked,
        vec![
            "3 g@@a", "3 g@@b", "3 g@@c", "6 g@@a", "6 g@@c", "7 g@@b", "9 g@@a", "9 g@@c",
            "10 g@@b"
        ]
    );
}

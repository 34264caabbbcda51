use nacos_naming_listener::{
    InnerNamingListener, Instance, InstanceCallback, InstanceDefaultListener, InstanceListener,
    InstanceListenerValue, NamingListenerCmd, QueryListResult, ServiceInstanceKey, Weight,
};
use std::sync::{Arc, Mutex};

type Callback = Box<dyn Fn(Arc<InstanceListenerValue>, InstanceListenerValue, InstanceListenerValue)>;

fn key() -> ServiceInstanceKey {
    ServiceInstanceKey { group_name: "g".to_owned(), service_name: "s".to_owned() }
}

fn host(ip: &str) -> Instance {
    Instance {
        ip: ip.to_owned(),
        port: 1,
        weight: Weight { bits: 1.0f32.to_bits() },
        healthy: true,
        cluster_name: "c".to_owned(),
    }
}

fn list(ips: &[&str]) -> InstanceListenerValue {
    ips.iter().map(|ip| Arc::new(host(ip))).collect()
}

fn ips(list: &InstanceListenerValue) -> Vec<String> {
    list.iter().map(|e| e.ip.clone()).collect()
}

#[test]
fn content_is_empty_at_first() {
    let listener: InstanceDefaultListener<Callback> = InstanceDefaultListener::new(key(), None);
    assert!(listener.get_content().is_empty());
    assert_eq!(listener.get_key().get_key(), "g@@s");
}

#[test]
fn content_is_the_last_that_was_not_empty() {
    let mut listener: InstanceDefaultListener<Callback> = InstanceDefaultListener::new(key(), None);
    listener.change(&mut (), &key(), &list(&["a", "b"]), &list(&["a", "b"]), &list(&[]));
    assert_eq!(ips(&listener.get_content()), vec!["a", "b"]);
    listener.change(&mut (), &key(), &list(&[]), &list(&[]), &list(&["a", "b"]));
    assert_eq!(ips(&listener.get_content()), vec!["a", "b"]);
    listener.change(&mut (), &key(), &list(&["c"]), &list(&["c"]), &list(&["a", "b"]));
    assert_eq!(ips(&listener.get_content()), vec!["c"]);
}

#[test]
fn the_callback_is_called_with_what_changed() {
    let calls: Arc<Mutex<Vec<(Vec<String>, Vec<String>, Vec<String>)>>> = Default::default();
    let log = calls.clone();
    let callback: Callback = Box::new(move |content, add, remove| {
        log.lock().unwrap().push((ips(&content), ips(&add), ips(&remove)));
    });
    let mut listener = InstanceDefaultListener::new(key(), Some(Arc::new(callback)));
    listener.change(&mut (), &key(), &list(&["a", "b"]), &list(&["b"]), &list(&["c"]));
    listener.change(&mut (), &key(), &list(&[]), &list(&[]), &list(&["a"]));
    let calls = calls.lock().unwrap();
    assert_eq!(calls.len(), 1);
    assert_eq!(calls[0].0, vec!["a", "b"]);
    assert_eq!(calls[0].1, vec!["b"]);
    assert_eq!(calls[0].2, vec!["c"]);
}

#[test]
fn nothing_is_passed_on_without_callback_or_instances() {
    let mut silent: InstanceDefaultListener<Callback> = InstanceDefaultListener::new(key(), None);
    assert!(silent.accept(&list(&["a"]), &list(&["a"]), &list(&[])).is_none());
    assert_eq!(ips(&silent.get_content()), vec!["a"]);
    let callback: Callback = Box::new(|_, _, _| {});
    let mut listener = InstanceDefaultListener::new(key(), Some(Arc::new(callback)));
    assert!(listener.accept(&list(&[]), &list(&[]), &list(&["a"])).is_none());
    let call = listener.accept(&list(&["a"]), &list(&["a"]), &list(&["b"])).unwrap();
    assert_eq!((ips(&call.0), ips(&call.1), ips(&call.2)), (
        vec!["a".to_owned()],
        vec!["a".to_owned()],
        vec!["b".to_owned()],
    ));
}

#[test]
fn a_default_listener_holds_what_was_reported() {
    let seen: Arc<Mutex<Vec<Vec<String>>>> = Default::default();
    let log = seen.clone();
    let callback: Callback = Box::new(move |content, _, _| {
        log.lock().unwrap().push(ips(&content));
    });
    let listener = InstanceDefaultListener::new(key(), Some(Arc::new(callback)));
    let mut state = InnerNamingListener::new("public", "10.1.1.1", 1, ());
    state.handle(NamingListenerCmd::Add(key(), 1, listener), 0);
    state.handle(NamingListenerCmd::AddHeartbeat(key()), 0);
    for (sign, hosts) in [("1", vec![host("a")]), ("2", vec![]), ("3", vec![host("b")])] {
        let report = QueryListResult {
            name: None,
            checksum: Some(sign.to_owned()),
            cache_millis: None,
            last_ref_time: None,
            hosts: Some(hosts),
        };
        state.update_instances_and_notify("g@@s", report, 1);
    }
    assert_eq!(*seen.lock().unwrap(), vec![vec!["a".to_owned()], vec!["b".to_owned()]]);
}

/// Writes down its calls in a log that it is handed.
struct Journal {
    name: String,
}

impl InstanceCallback for Journal {
    type Outside = Vec<String>;

    fn call_back(
        &self,
        outside: &mut Vec<String>,
        content: Arc<InstanceListenerValue>,
        add_list: InstanceListenerValue,
        remove_list: InstanceListenerValue,
    ) {
        outside.push(format!(
            "{} {} +{} -{}",
            self.name,
            ips(&content).join(","),
            ips(&add_list).join(","),
            ips(&remove_list).join(",")
        ));
    }
}

#[test]
fn each_change_with_instances_is_one_call() {
    let journal = Arc::new(Journal { name: "j".to_owned() });
    let mut listener = InstanceDefaultListener::new(key(), Some(journal));
    let mut log: Vec<String> = vec![];
    listener.change(&mut log, &key(), &list(&["a", "b"]), &list(&["b"]), &list(&["c"]));
    assert_eq!(log, vec!["j a,b +b -c"]);
    listener.change(&mut log, &key(), &list(&[]), &list(&["x"]), &list(&["a", "b"]));
    assert_eq!(log.len(), 1);
    assert_eq!(ips(&listener.get_content()), vec!["a", "b"]);
    let other = ServiceInstanceKey { group_name: "x".to_owned(), service_name: "y".to_owned() };
    listener.change(&mut log, &other, &list(&["a", "b"]), &list(&["b"]), &list(&["c"]));
    assert_eq!(log, vec!["j a,b +b -c", "j a,b +b -c"]);
    assert_eq!(listener.get_key().get_key(), "g@@s");
    let mut silent: InstanceDefaultListener<Journal> = InstanceDefaultListener::new(key(), None);
    silent.change(&mut log, &key(), &list(&["z"]), &list(&["z"]), &list(&[]));
    assert_eq!(log.len(), 2);
    assert_eq!(ips(&silent.get_content()), vec!["z"]);
}

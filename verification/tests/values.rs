use nacos_naming_listener::diff::diff_instances;
use nacos_naming_listener::instance::{copy_instances, keep_weighted};
use nacos_naming_listener::text::{decimal_text, signed_decimal_text};
use nacos_naming_listener::{Instance, ServiceInstanceKey, Weight};
use std::sync::Arc;

fn instance(ip: &str, port: u32, weight: f32) -> Instance {
    Instance {
        ip: ip.to_owned(),
        port,
        weight: Weight { bits: weight.to_bits() },
        healthy: true,
        cluster_name: "DEFAULT".to_owned(),
    }
}

fn shared(addresses: &[(&str, u32)]) -> Vec<Arc<Instance>> {
    addresses.iter().map(|a| Arc::new(instance(a.0, a.1, 1.0))).collect()
}

fn names(list: &Vec<Arc<Instance>>) -> Vec<String> {
    list.iter().map(|e| format!("{}:{}", e.ip, e.port)).collect()
}

fn counts(weight: f32) -> bool {
    Weight { bits: weight.to_bits() }.exceeds_minimum()
}

#[test]
fn weights_compare_as_numbers() {
    let mut weights: Vec<f32> = vec![
        0.0,
        -0.0,
        1.0,
        -1.0,
        0.5,
        0.001,
        0.0010001,
        0.0009999,
        0.01,
        1000.0,
        -0.002,
        f32::MAX,
        f32::MIN,
        f32::MIN_POSITIVE,
        f32::INFINITY,
        f32::NEG_INFINITY,
        f32::NAN,
        -f32::NAN,
        f32::EPSILON,
    ];
    let bits = 0.001f32.to_bits();
    for step in 0..50u32 {
        weights.push(f32::from_bits(bits + step));
        weights.push(f32::from_bits(bits - step));
    }
    for weight in weights {
        assert_eq!(counts(weight), weight > 0.001f32, "{}", weight);
    }
}

#[test]
fn the_least_weight_does_not_count() {
    assert!(!counts(0.001));
    assert!(counts(f32::from_bits(0.001f32.to_bits() + 1)));
    assert!(!counts(f32::NAN));
    assert!(counts(f32::INFINITY));
}

#[test]
fn decimals_are_those_of_std() {
    for n in [0u64, 1, 9, 10, 11, 99, 100, 101, 8848, 65535, 1234567890, u64::MAX] {
        assert_eq!(decimal_text(n), n.to_string());
    }
    for n in [0i64, 1, -1, 10, -10, 1650000000000, -1650000000000, i64::MAX, i64::MIN] {
        assert_eq!(signed_decimal_text(n), n.to_string());
    }
}

#[test]
fn addresses_join_ip_and_port() {
    assert_eq!(instance("10.0.0.1", 8080, 1.0).address_text(), "10.0.0.1:8080");
    assert_eq!(instance("", 0, 1.0).address_text(), ":0");
    assert_eq!(instance("a:1", 2, 1.0).address_text(), "a:1:2");
    assert_ne!(instance("a", 12, 1.0).address_text(), instance("a:1", 2, 1.0).address_text());
    assert_ne!(instance("a1", 2, 1.0).address_text(), instance("a", 12, 1.0).address_text());
}

#[test]
fn keys_read_back() {
    let key = ServiceInstanceKey {
        group_name: "DEFAULT_GROUP".to_owned(),
        service_name: "orders".to_owned(),
    };
    assert_eq!(key.get_key(), "DEFAULT_GROUP@@orders");
    let read = ServiceInstanceKey::from_str("DEFAULT_GROUP@@orders");
    assert_eq!(read.group_name, "DEFAULT_GROUP");
    assert_eq!(read.service_name, "orders");
    let copy = read.clone();
    assert_eq!(copy.get_key(), "DEFAULT_GROUP@@orders");
}

#[test]
fn keys_split_at_the_first_separator() {
    let read = ServiceInstanceKey::from_str("a@@b@@c");
    assert_eq!((read.group_name.as_str(), read.service_name.as_str()), ("a", "b@@c"));
    let read = ServiceInstanceKey::from_str("a@@@b");
    assert_eq!((read.group_name.as_str(), read.service_name.as_str()), ("a", "@b"));
    let read = ServiceInstanceKey::from_str("@@");
    assert_eq!((read.group_name.as_str(), read.service_name.as_str()), ("", ""));
    let read = ServiceInstanceKey::from_str("gruppe-\u{e4}@@dienst-\u{f6}");
    assert_eq!(read.group_name, "gruppe-\u{e4}");
    assert_eq!(read.service_name, "dienst-\u{f6}");
    for text in ["a@@b@@c", "a@@@b", "@@", "@@@@", "x@@"] {
        assert_eq!(ServiceInstanceKey::from_str(text).get_key(), text);
    }
}

#[test]
fn keys_without_separator_name_a_service() {
    let read = ServiceInstanceKey::from_str("orders");
    assert_eq!((read.group_name.as_str(), read.service_name.as_str()), ("", "orders"));
    let read = ServiceInstanceKey::from_str("");
    assert_eq!((read.group_name.as_str(), read.service_name.as_str()), ("", ""));
    let read = ServiceInstanceKey::from_str("a@b@");
    assert_eq!((read.group_name.as_str(), read.service_name.as_str()), ("", "a@b@"));
}

#[test]
fn hosts_without_weight_are_left_out() {
    let kept = keep_weighted(vec![
        instance("a", 1, 1.0),
        instance("b", 2, 0.0),
        instance("c", 3, 0.5),
        instance("d", 4, f32::NAN),
        instance("e", 5, 0.001),
    ]);
    assert_eq!(names(&kept), vec!["a:1", "c:3"]);
    assert!(keep_weighted(vec![]).is_empty());
}

#[test]
fn copies_share_the_instances() {
    let list = shared(&[("a", 1), ("b", 2)]);
    let copy = copy_instances(&list);
    assert_eq!(copy.len(), 2);
    assert!(Arc::ptr_eq(&list[0], &copy[0]) && Arc::ptr_eq(&list[1], &copy[1]));
}

#[test]
fn changes_are_what_came_and_what_went() {
    let old = shared(&[("a", 1), ("b", 2), ("c", 3)]);
    let new = shared(&[("d", 4), ("b", 2), ("a", 7)]);
    let (add_list, remove_list) = diff_instances(&old, &new);
    assert_eq!(names(&add_list), vec!["d:4", "a:7"]);
    assert_eq!(names(&remove_list), vec!["a:1", "c:3"]);
    assert!(Arc::ptr_eq(&add_list[0], &new[0]));
    assert!(Arc::ptr_eq(&remove_list[1], &old[2]));
}

#[test]
fn equal_addresses_are_no_change() {
    let old = shared(&[("a", 1), ("b", 2)]);
    let new = shared(&[("b", 2), ("a", 1)]);
    let (add_list, remove_list) = diff_instances(&old, &new);
    assert!(add_list.is_empty() && remove_list.is_empty());
}

#[test]
fn from_nothing_all_come_and_to_nothing_all_go() {
    let list = shared(&[("a", 1), ("b", 2)]);
    let none = shared(&[]);
    let (add_list, remove_list) = diff_instances(&none, &list);
    assert_eq!(names(&add_list), vec!["a:1", "b:2"]);
    assert!(remove_list.is_empty());
    let (add_list, remove_list) = diff_instances(&list, &none);
    assert!(add_list.is_empty());
    assert_eq!(names(&remove_list), vec!["a:1", "b:2"]);
}

#[test]
fn a_repeated_address_comes_again_and_goes_once() {
    let once = shared(&[("a", 1)]);
    let twice = shared(&[("a", 1), ("a", 1)]);
    let (add_list, remove_list) = diff_instances(&once, &twice);
    assert_eq!(names(&add_list), vec!["a:1"]);
    assert!(Arc::ptr_eq(&add_list[0], &twice[1]));
    assert!(remove_list.is_empty());
    let (add_list, remove_list) = diff_instances(&twice, &shared(&[]));
    assert!(add_list.is_empty());
    assert_eq!(remove_list.len(), 1);
    assert!(Arc::ptr_eq(&remove_list[0], &twice[1]));
}

#[test]
fn each_address_goes_once_with_its_last_instance() {
    let old = shared(&[("a", 1), ("b", 2), ("a", 1), ("c", 3), ("b", 2)]);
    let new = shared(&[("d", 4), ("c", 3), ("e", 5)]);
    let (add_list, remove_list) = diff_instances(&old, &new);
    assert_eq!(names(&add_list), vec!["d:4", "e:5"]);
    assert_eq!(names(&remove_list), vec!["a:1", "b:2"]);
    assert!(Arc::ptr_eq(&remove_list[0], &old[2]));
    assert!(Arc::ptr_eq(&remove_list[1], &old[4]));
}

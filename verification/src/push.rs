//! Messages that the server pushes, and their acknowledgement. Both are JSON
//! objects whose values are texts.

use crate::query::{QueryListResult, ServiceReport};
use crate::state::pushed_key;
use crate::text::{signed_decimal, signed_decimal_text};
use std::collections::HashMap;
use vstd::prelude::*;
use vstd::string::*;
use vstd::utf8::encode_utf8;

verus! {

/// The error type of `serde_json`.
#[verifier::external_type_specification]
#[verifier::external_body]
pub struct ExJsonError(serde_json::Error);

/// What `serde_json::from_slice` reads as a map from text to text: `None`
/// where the bytes are no JSON object whose values are all texts.
pub uninterp spec fn json_string_map(data: Seq<u8>) -> Option<Map<Seq<char>, Seq<char>>>;

/// Whether the entries are those of the map.
pub open spec fn lists(entries: Seq<(String, String)>, map: Map<Seq<char>, Seq<char>>) -> bool {
    &&& forall|i: int|
        0 <= i < entries.len() ==> map.contains_key((#[trigger] entries[i]).0@)
            && map[entries[i].0@] == entries[i].1@
    &&& forall|k: Seq<char>| #[trigger]
        map.contains_key(k) ==> exists|i: int|
            0 <= i < entries.len() && (#[trigger] entries[i]).0@ == k
}

/// Whether no text occurs twice as a key of the entries.
pub open spec fn distinct_keys(entries: Seq<(String, String)>) -> bool {
    forall|i: int, j: int|
        0 <= i < j < entries.len() ==> (#[trigger] entries[i]).0@ != (#[trigger] entries[j]).0@
}

/// `serde_json::from_slice` for a hash map from text to text. The entries come
/// in no particular order.
#[verifier::external_body]
fn read_string_map(data: &[u8]) -> (res: Result<Vec<(String, String)>, serde_json::Error>)
    ensures
        res is Ok <==> json_string_map(data@) is Some,
        res is Ok ==> distinct_keys(res->Ok_0@),
        res is Ok ==> lists(res->Ok_0@, json_string_map(data@)->0),
{
    serde_json::from_slice::<HashMap<String, String>>(data).map(|map| map.into_iter().collect())
}

/// `serde_json::to_string` for a hash map from text to text. It does not fail
/// on such a map, and reading the text gives the map back. In which order the
/// text has the entries is left open.
#[verifier::external_body]
fn write_string_map(entries: &Vec<(String, String)>) -> (res: Result<String, serde_json::Error>)
    requires
        distinct_keys(entries@),
    ensures
        res is Ok,
        json_string_map(encode_utf8(res->Ok_0@)) is Some,
        lists(entries@, json_string_map(encode_utf8(res->Ok_0@))->0),
{
    let map: HashMap<&str, &str> = entries.iter().map(|e| (e.0.as_str(), e.1.as_str())).collect();
    serde_json::to_string(&map)
}

/// The bytes of a pushed message: what was unpacked, or the message as it came
/// where it could not be unpacked.
pub fn push_data(unpacked: Option<Vec<u8>>, message: Vec<u8>) -> (data: Vec<u8>)
    ensures
        data@ == match unpacked {
            Some(bytes) => bytes@,
            None => message@,
        },
{
    match unpacked {
        Some(bytes) => bytes,
        None => message,
    }
}

/// The value of the first entry with the given key.
pub fn find_entry(entries: &Vec<(String, String)>, key: &str) -> (res: Option<String>)
    ensures
        match res {
            Some(value) => exists|i: int|
                0 <= i < entries@.len() && (#[trigger] entries@[i]).0@ == key@ && entries@[i].1@
                    == value@ && forall|j: int|
                    0 <= j < i ==> (#[trigger] entries@[j]).0@ != key@,
            None => forall|i: int| 0 <= i < entries@.len() ==> (#[trigger] entries@[i]).0@ != key@,
        },
{
    let wanted = key.to_owned();
    for i in 0..entries.len()
        invariant
            wanted@ == key@,
            forall|j: int| 0 <= j < i ==> (#[trigger] entries@[j]).0@ != key@,
    {
        if entries[i].0 == wanted {
            return Some(entries[i].1.clone());
        }
    }
    None
}

/// What a pushed message carries: the text under `data` of its JSON object.
pub open spec fn pushed_text(data: Seq<u8>) -> Option<Seq<char>> {
    match json_string_map(data) {
        Some(map) => if map.contains_key("data"@) {
            Some(map["data"@])
        } else {
            None
        },
        None => None,
    }
}

/// Reads what a pushed message carries. Bytes that are no JSON object of
/// texts, and an object without `data`, carry nothing.
pub fn push_text(data: &[u8]) -> (res: Option<String>)
    ensures
        res is Some <==> pushed_text(data@) is Some,
        res matches Some(text) ==> text@ == pushed_text(data@)->0,
{
    let entries = match read_string_map(data) {
        Ok(entries) => entries,
        Err(_) => Vec::new(),
    };
    find_entry(&entries, "data")
}

/// What an acknowledgement says, for the time stamp of the acknowledged message.
pub open spec fn ack_map(last_ref_time: int) -> Map<Seq<char>, Seq<char>> {
    map![
        "type"@ => "push-ack"@,
        "lastRefTime"@ => signed_decimal(last_ref_time),
        "data"@ => ""@,
    ]
}

/// The entries of an acknowledgement.
pub fn ack_entries(last_ref_time: i64) -> (entries: Vec<(String, String)>)
    ensures
        distinct_keys(entries@),
        lists(entries@, ack_map(last_ref_time as int)),
{
    let mut entries: Vec<(String, String)> = Vec::new();
    entries.push(("type".to_owned(), "push-ack".to_owned()));
    entries.push(("lastRefTime".to_owned(), signed_decimal_text(last_ref_time)));
    entries.push(("data".to_owned(), "".to_owned()));
    proof {
        lemma_ack_keys();
        let map = ack_map(last_ref_time as int);
        assert forall|k: Seq<char>| #[trigger] map.contains_key(k) implies exists|i: int|
            0 <= i < entries@.len() && (#[trigger] entries@[i]).0@ == k by {
            assert(entries@[0].0@ == k || entries@[1].0@ == k || entries@[2].0@ == k);
        }
    }
    entries
}

proof fn lemma_ack_keys()
    ensures
        "type"@ != "lastRefTime"@,
        "type"@ != "data"@,
        "lastRefTime"@ != "data"@,
{
    reveal_strlit("type");
    reveal_strlit("lastRefTime");
    reveal_strlit("data");
    assert("type"@[0] != "data"@[0]);
    assert("type"@.len() != "lastRefTime"@.len());
    assert("data"@.len() != "lastRefTime"@.len());
}

/// The acknowledgement of a pushed message, as bytes to send: read as JSON
/// they say `push-ack` and the time stamp of the message.
pub fn push_ack(last_ref_time: i64) -> (ack: Vec<u8>)
    ensures
        json_string_map(ack@) == Some(ack_map(last_ref_time as int)),
{
    let entries = ack_entries(last_ref_time);
    let text = write_string_map(&entries).unwrap();
    let ack = text.as_str().as_bytes_vec();
    proof {
        let read = json_string_map(ack@)->0;
        let meant = ack_map(last_ref_time as int);
        assert forall|k: Seq<char>| #[trigger] read.contains_key(k) implies meant.contains_key(k)
            && read[k] == meant[k] by {
        }
        assert(read =~= meant);
    }
    ack
}

/// The time stamp of a report; zero where it has none.
pub open spec fn time_stamp(report: ServiceReport) -> int {
    match report.last_ref_time {
        Some(time) => time as int,
        None => 0,
    }
}

/// What a pushed report leads to: the acknowledgement is sent, and then the
/// report is taken over for the service with the key.
#[derive(Debug)]
pub struct PushStep {
    pub ack: Vec<u8>,
    pub key: String,
    pub result: QueryListResult,
}

/// Tells what a pushed report leads to. A report without a name is about no
/// service.
pub fn handle_push(result: QueryListResult) -> (step: PushStep)
    ensures
        json_string_map(step.ack@) == Some(ack_map(time_stamp(result@))),
        step.key@ == pushed_key(result@),
        step.result == result,
{
    let ref_time: i64 = match result.last_ref_time {
        Some(time) => time,
        None => 0,
    };
    let key = match &result.name {
        Some(name) => name.clone(),
        None => String::new(),
    };
    PushStep { ack: push_ack(ref_time), key, result }
}

/// A pushed message carries the text that its JSON object has under `data`,
/// and nothing where the bytes are no such object or it has no `data`.
pub proof fn law_push_carries_its_data(data: Seq<u8>)
    ensures
        pushed_text(data) is Some <==> json_string_map(data) is Some && json_string_map(
            data,
        )->0.contains_key("data"@),
        pushed_text(data) is Some ==> pushed_text(data)->0 == json_string_map(data)->0["data"@],
{
}

/// An acknowledgement says that it is one, gives the time stamp in decimal and
/// carries no data; it says nothing else.
pub proof fn law_ack_says(last_ref_time: int)
    ensures
        ack_map(last_ref_time).contains_key("type"@),
        ack_map(last_ref_time)["type"@] == "push-ack"@,
        ack_map(last_ref_time).contains_key("lastRefTime"@),
        ack_map(last_ref_time)["lastRefTime"@] == signed_decimal(last_ref_time),
        ack_map(last_ref_time).contains_key("data"@),
        ack_map(last_ref_time)["data"@].len() == 0,
        forall|k: Seq<char>| #[trigger]
            ack_map(last_ref_time).contains_key(k) ==> k == "type"@ || k == "lastRefTime"@ || k
                == "data"@,
{
    lemma_ack_keys();
    reveal_strlit("");
}

/// A pushed report is acknowledged with its time stamp and is about the
/// service that it names; without a time stamp it is acknowledged with zero,
/// and without a name it is about the empty key.
pub proof fn law_push_is_about_its_name(report: ServiceReport)
    ensures
        report.last_ref_time is Some ==> time_stamp(report) == report.last_ref_time->0,
        report.last_ref_time is None ==> time_stamp(report) == 0,
        report.name is Some ==> pushed_key(report) == report.name->0,
        report.name is None ==> pushed_key(report).len() == 0,
{
}

/// Entries that list a map hold each key of the map with its value, and no
/// other.
pub proof fn law_listed_map_has_the_entries(
    entries: Seq<(String, String)>,
    map: Map<Seq<char>, Seq<char>>,
    key: Seq<char>,
    value: Seq<char>,
)
    requires
        lists(entries, map),
    ensures
        map.contains_key(key) && map[key] == value <==> exists|i: int|
            0 <= i < entries.len() && (#[trigger] entries[i]).0@ == key && entries[i].1@ == value,
{
    if map.contains_key(key) && map[key] == value {
        let i = choose|i: int| 0 <= i < entries.len() && (#[trigger] entries[i]).0@ == key;
        assert(entries[i].1@ == value);
    }
}

} // verus!

//! The name of a service within its group, and the text it is filed under.

use vstd::prelude::*;
use vstd::string::*;

verus! {

/// A service within a group, as a mathematical value.
#[verifier::ext_equal]
pub struct ServiceKey {
    pub group_name: Seq<char>,
    pub service_name: Seq<char>,
}

/// The text `group@@service` that a service is filed under.
pub open spec fn key_text(key: ServiceKey) -> Seq<char> {
    key.group_name + seq!['@', '@'] + key.service_name
}

/// Whether `@@` stands at position `i` of a text.
pub open spec fn separator_at(text: Seq<char>, i: int) -> bool {
    0 <= i && i + 1 < text.len() && text[i] == '@' && text[i + 1] == '@'
}

/// Whether position `i` of a text is the first at which `@@` stands.
pub open spec fn first_separator(text: Seq<char>, i: int) -> bool {
    separator_at(text, i) && forall|j: int| 0 <= j < i ==> !#[trigger] separator_at(text, j)
}

/// What a key text says: the group before its first `@@` and the service
/// behind it, or the service alone where there is no `@@`.
pub open spec fn key_of_text(text: Seq<char>) -> ServiceKey {
    if exists|i: int| first_separator(text, i) {
        let i = choose|i: int| first_separator(text, i);
        ServiceKey { group_name: text.take(i), service_name: text.skip(i + 2) }
    } else {
        ServiceKey { group_name: Seq::empty(), service_name: text }
    }
}

/// A service within a group.
#[derive(Debug)]
pub struct ServiceInstanceKey {
    pub group_name: String,
    pub service_name: String,
}

impl View for ServiceInstanceKey {
    type V = ServiceKey;

    open spec fn view(&self) -> ServiceKey {
        ServiceKey { group_name: self.group_name@, service_name: self.service_name@ }
    }
}

impl Clone for ServiceInstanceKey {
    fn clone(&self) -> (res: Self)
        ensures
            res@ == self@,
    {
        ServiceInstanceKey {
            group_name: self.group_name.clone(),
            service_name: self.service_name.clone(),
        }
    }
}

/// Joins a group and a service to the text that the service is filed under.
pub fn join_key(group_name: &str, service_name: &str) -> (text: String)
    ensures
        text@ == key_text(ServiceKey { group_name: group_name@, service_name: service_name@ }),
{
    let mut text = group_name.to_owned();
    proof {
        reveal_strlit("@@");
    }
    text.append("@@");
    text.append(service_name);
    assert(text@ =~= key_text(
        ServiceKey { group_name: group_name@, service_name: service_name@ },
    ));
    text
}

/// The characters of a text, one by one.
fn chars_of(text: &str) -> (chars: Vec<char>)
    ensures
        chars@ == text@,
{
    let mut chars: Vec<char> = Vec::new();
    for c in it: text.chars()
        invariant
            it.seq() == text@,
            chars@ == text@.take(it.index() as int),
    {
        chars.push(c);
        assert(chars@ =~= text@.take(it.index() + 1));
    }
    assert(chars@ =~= text@);
    chars
}

impl ServiceInstanceKey {
    /// The text `group@@service` that the service is filed under.
    pub fn get_key(&self) -> (text: String)
        ensures
            text@ == key_text(self@),
    {
        join_key(self.group_name.as_str(), self.service_name.as_str())
    }

    /// Reads a key text: the group is what stands before the first `@@`, the
    /// service is what follows it. A text without `@@` is a service alone.
    pub fn from_str(text: &str) -> (key: Self)
        ensures
            key@ == key_of_text(text@),
    {
        let chars = chars_of(text);
        let n = chars.len();
        let mut i: usize = 0;
        while i < n
            invariant
                n == text@.len(),
                chars@ == text@,
                i <= n,
                forall|j: int| 0 <= j < i ==> !#[trigger] separator_at(text@, j),
            decreases n - i,
        {
            if n - i >= 2 && chars[i] == '@' && chars[i + 1] == '@' {
                proof {
                    assert(first_separator(text@, i as int));
                    let k = choose|k: int| first_separator(text@, k);
                    assert(separator_at(text@, k) && separator_at(text@, i as int));
                }
                return ServiceInstanceKey {
                    group_name: text.substring_char(0, i).to_owned(),
                    service_name: text.substring_char(i + 2, n).to_owned(),
                };
            }
            assert(!separator_at(text@, i as int));
            i = i + 1;
        }
        assert(forall|j: int| !first_separator(text@, j));
        ServiceInstanceKey { group_name: String::new(), service_name: text.to_owned() }
    }
}

/// Reading the text of a key gives the key back, where the first `@@` of the
/// text is the one that was put between group and service: the group holds no
/// `@@` and does not end in `@`.
pub proof fn law_key_text_reads_back(key: ServiceKey)
    requires
        forall|i: int| !separator_at(key.group_name, i),
        key.group_name.len() > 0 ==> key.group_name.last() != '@',
    ensures
        key_of_text(key_text(key)) == key,
{
    let text = key_text(key);
    let n = key.group_name.len() as int;
    assert(separator_at(text, n));
    assert forall|j: int| 0 <= j < n implies !#[trigger] separator_at(text, j) by {
        assert(!separator_at(key.group_name, j));
        assert(text[j] == key.group_name[j]);
        if j + 1 < n {
            assert(text[j + 1] == key.group_name[j + 1]);
        }
    }
    assert(first_separator(text, n));
    let k = choose|k: int| first_separator(text, k);
    assert(separator_at(text, k));
    assert(k == n);
    assert(key_of_text(text).group_name =~= key.group_name);
    assert(key_of_text(text).service_name =~= key.service_name);
}

/// A key text that holds `@@` is the text of the key that is read from it.
pub proof fn law_key_text_is_kept(text: Seq<char>)
    requires
        exists|i: int| separator_at(text, i),
    ensures
        key_text(key_of_text(text)) == text,
{
    let i = choose|i: int| separator_at(text, i);
    lemma_first_separator(text, i);
    let k = choose|k: int| first_separator(text, k);
    assert(key_text(key_of_text(text)) =~= text);
}

/// Where `@@` occurs, it occurs for a first time.
proof fn lemma_first_separator(text: Seq<char>, i: int)
    requires
        separator_at(text, i),
    ensures
        exists|k: int| first_separator(text, k),
    decreases i,
{
    if !first_separator(text, i) {
        let j = choose|j: int| 0 <= j < i && separator_at(text, j);
        lemma_first_separator(text, j);
    }
}

/// The text of a key always holds `@@`.
pub proof fn lemma_key_text_has_separator(key: ServiceKey)
    ensures
        separator_at(key_text(key), key.group_name.len() as int),
{
}

/// The text of a key is its group, two `@` and its service.
pub proof fn law_key_text_is_joined(key: ServiceKey)
    ensures
        key_text(key).len() == key.group_name.len() + 2 + key.service_name.len(),
        key_text(key).take(key.group_name.len() as int) == key.group_name,
        key_text(key)[key.group_name.len() as int] == '@',
        key_text(key)[key.group_name.len() as int + 1] == '@',
        key_text(key).skip(key.group_name.len() as int + 2) == key.service_name,
{
    assert(key_text(key).take(key.group_name.len() as int) =~= key.group_name);
    assert(key_text(key).skip(key.group_name.len() as int + 2) =~= key.service_name);
}

/// A key text is split where two `@` stand for the first time; one without
/// them names a service alone.
pub proof fn law_key_text_is_split(text: Seq<char>, i: int)
    ensures
        0 <= i < text.len() - 1 && text[i] == '@' && text[i + 1] == '@' && (forall|j: int|
            0 <= j < i ==> !(#[trigger] text[j] == '@' && text[j + 1] == '@')) ==> key_of_text(
            text,
        ).group_name == text.take(i) && key_of_text(text).service_name == text.skip(i + 2),
        (forall|j: int|
            0 <= j < text.len() - 1 ==> !(#[trigger] text[j] == '@' && text[j + 1] == '@'))
            ==> key_of_text(text).group_name.len() == 0 && key_of_text(text).service_name == text,
{
    if exists|k: int| first_separator(text, k) {
        let k = choose|k: int| first_separator(text, k);
        assert(separator_at(text, k));
        assert(text[k] == '@' && text[k + 1] == '@');
        if 0 <= i < text.len() - 1 && text[i] == '@' && text[i + 1] == '@' && (forall|j: int|
            0 <= j < i ==> !(#[trigger] text[j] == '@' && text[j + 1] == '@')) {
            assert(separator_at(text, i));
        }
    } else if 0 <= i < text.len() - 1 && text[i] == '@' && text[i + 1] == '@' {
        assert(separator_at(text, i));
        lemma_first_separator(text, i);
    }
}

} // verus!

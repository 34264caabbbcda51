//! What changes when one list of instances takes the place of another.

use crate::instance::{address, has_address, law_address_tells_ip_and_port, Instance};
use crate::lemmas::{
    lemma_filter_push, lemma_picks_out_front, lemma_picks_out_push, picks_out, stands_at,
};
use std::sync::Arc;
use vstd::hash_map::StringHashMap;
use vstd::prelude::*;

verus! {

/// The instances that the new list brings, in its order. An instance is left
/// out where its address was known before and occurs in the new list for the
/// first time.
pub open spec fn added(old: Seq<Arc<Instance>>, new: Seq<Arc<Instance>>) -> Seq<Arc<Instance>>
    decreases new.len(),
{
    if new.len() == 0 {
        Seq::empty()
    } else {
        let rest = new.drop_last();
        let wanted = address(new.last());
        if has_address(old, wanted) && !has_address(rest, wanted) {
            added(old, rest)
        } else {
            added(old, rest).push(new.last())
        }
    }
}

/// The instances that the new list drops, in the order of the old one. Of
/// several old instances with one address, the last stands for all.
pub open spec fn removed(old: Seq<Arc<Instance>>, new: Seq<Arc<Instance>>) -> Seq<Arc<Instance>>
    decreases old.len(),
{
    if old.len() == 0 {
        Seq::empty()
    } else {
        let rest = old.drop_first();
        let wanted = address(old.first());
        if has_address(new, wanted) || has_address(rest, wanted) {
            removed(rest, new)
        } else {
            seq![old.first()] + removed(rest, new)
        }
    }
}

/// Whether `i` is the last position at which the list has the given address.
pub open spec fn last_with_address(list: Seq<Arc<Instance>>, wanted: Seq<char>, i: int) -> bool {
    &&& 0 <= i < list.len()
    &&& address(list[i]) == wanted
    &&& forall|j: int| i < j < list.len() ==> address(#[trigger] list[j]) != wanted
}

/// Whether the map leads from each address of `old` that `seen` lacks to the
/// last place where `old` has it, and from nowhere else.
spec fn leads_to_last(
    known: Map<Seq<char>, usize>,
    old: Seq<Arc<Instance>>,
    seen: Seq<Arc<Instance>>,
) -> bool {
    &&& forall|a: Seq<char>| #[trigger]
        known.contains_key(a) <==> has_address(old, a) && !has_address(seen, a)
    &&& forall|a: Seq<char>| #[trigger]
        known.contains_key(a) ==> last_with_address(old, a, known[a] as int)
}

proof fn lemma_has_address_push(list: Seq<Arc<Instance>>, e: Arc<Instance>, wanted: Seq<char>)
    ensures
        has_address(list.push(e), wanted) <==> has_address(list, wanted) || address(e) == wanted,
{
    let longer = list.push(e);
    if has_address(list, wanted) {
        let i = choose|i: int| 0 <= i < list.len() && address(#[trigger] list[i]) == wanted;
        assert(longer[i] == list[i]);
    }
    if address(e) == wanted {
        assert(longer[list.len() as int] == e);
    }
    if has_address(longer, wanted) {
        let i = choose|i: int| 0 <= i < longer.len() && address(#[trigger] longer[i]) == wanted;
        if i < list.len() {
            assert(longer[i] == list[i]);
        }
    }
}

/// Files each address of the list under the last place where the list has it.
fn index_addresses(old: &Vec<Arc<Instance>>) -> (known: StringHashMap<usize>)
    ensures
        leads_to_last(known@, old@, Seq::empty()),
{
    let mut known: StringHashMap<usize> = StringHashMap::new();
    for i in 0..old.len()
        invariant
            leads_to_last(known@, old@.take(i as int), Seq::empty()),
    {
        let ghost before = known@;
        let ghost part = old@.take(i as int);
        let text = old[i].address_text();
        known.insert(text, i);
        proof {
            let longer = old@.take(i + 1);
            assert(longer =~= part.push(old@[i as int]));
            assert forall|a: Seq<char>| #[trigger]
                known@.contains_key(a) <==> has_address(longer, a) && !has_address(
                    Seq::<Arc<Instance>>::empty(),
                    a,
                ) by {
                lemma_has_address_push(part, old@[i as int], a);
                assert(before.contains_key(a) || !before.contains_key(a));
            }
            assert forall|a: Seq<char>| #[trigger]
                known@.contains_key(a) implies last_with_address(longer, a, known@[a] as int) by {
                if a != text@ {
                    assert(before.contains_key(a));
                    assert(last_with_address(part, a, before[a] as int));
                    assert(longer[before[a] as int] == part[before[a] as int]);
                    assert forall|j: int| before[a] < j < longer.len() implies address(
                        #[trigger] longer[j],
                    ) != a by {
                        if j < i {
                            assert(longer[j] == part[j]);
                        }
                    }
                }
            }
        }
    }
    assert(old@.take(old@.len() as int) =~= old@);
    known
}

/// Compares two lists of instances by address.
pub fn diff_instances(old: &Vec<Arc<Instance>>, new: &Vec<Arc<Instance>>) -> (res: (
    Vec<Arc<Instance>>,
    Vec<Arc<Instance>>,
))
    ensures
        res.0@ == added(old@, new@),
        res.1@ == removed(old@, new@),
{
    let mut known = index_addresses(old);
    let mut add_list: Vec<Arc<Instance>> = Vec::new();
    assert(new@.take(0) =~= Seq::empty());
    for i in 0..new.len()
        invariant
            leads_to_last(known@, old@, new@.take(i as int)),
            add_list@ == added(old@, new@.take(i as int)),
    {
        let ghost before = known@;
        let ghost part = new@.take(i as int);
        let text = new[i].address_text();
        proof {
            let longer = new@.take(i + 1);
            assert(longer =~= part.push(new@[i as int]));
            assert(longer.drop_last() =~= part);
            assert forall|a: Seq<char>| #[trigger]
                before.remove(text@).contains_key(a) <==> has_address(old@, a) && !has_address(
                    longer,
                    a,
                ) by {
                lemma_has_address_push(part, new@[i as int], a);
                assert(before.contains_key(a) || !before.contains_key(a));
            }
            assert forall|a: Seq<char>| #[trigger]
                before.remove(text@).contains_key(a) implies last_with_address(
                old@,
                a,
                before.remove(text@)[a] as int,
            ) by {
                assert(before.contains_key(a));
            }
        }
        if known.contains_key(text.as_str()) {
            known.remove(text.as_str());
        } else {
            assert(before.remove(text@) =~= before);
            add_list.push(new[i].clone());
        }
    }
    assert(new@.take(new@.len() as int) =~= new@);
    let mut remove_list: Vec<Arc<Instance>> = Vec::new();
    assert(old@.skip(0) =~= old@);
    for i in 0..old.len()
        invariant
            leads_to_last(known@, old@, new@),
            remove_list@ + removed(old@.skip(i as int), new@) == removed(old@, new@),
    {
        let text = old[i].address_text();
        let ghost tail = old@.skip(i as int);
        let ghost done = remove_list@;
        proof {
            assert(tail.first() == old@[i as int]);
            assert(tail.drop_first() =~= old@.skip(i + 1));
            lemma_gone_here(known@, old@, new@, i as int);
        }
        match known.get(text.as_str()) {
            Some(last) => {
                if *last == i {
                    remove_list.push(old[i].clone());
                    assert(remove_list@ + removed(old@.skip(i + 1), new@) =~= done + removed(
                        tail,
                        new@,
                    ));
                }
            },
            None => {},
        }
    }
    assert(old@.skip(old@.len() as int) =~= Seq::empty());
    assert(remove_list@ + removed(Seq::empty(), new@) =~= remove_list@);
    (add_list, remove_list)
}

/// An old instance is dropped where it stands exactly if the map leads from
/// its address to its place.
proof fn lemma_gone_here(
    known: Map<Seq<char>, usize>,
    old: Seq<Arc<Instance>>,
    new: Seq<Arc<Instance>>,
    i: int,
)
    requires
        leads_to_last(known, old, new),
        0 <= i < old.len(),
    ensures
        known.contains_key(address(old[i])) && known[address(old[i])] == i <==> !has_address(
            new,
            address(old[i]),
        ) && !has_address(old.skip(i + 1), address(old[i])),
{
    let a = address(old[i]);
    let rest = old.skip(i + 1);
    assert(has_address(old, a));
    if known.contains_key(a) {
        let last = known[a] as int;
        assert(last_with_address(old, a, last));
        if last == i {
            assert forall|j: int| 0 <= j < rest.len() implies address(#[trigger] rest[j]) != a by {
                assert(rest[j] == old[j + i + 1]);
            }
        } else {
            assert(last > i);
            assert(rest[last - i - 1] == old[last]);
        }
    }
}

/// Whether no address occurs twice in the list.
pub open spec fn distinct_addresses(list: Seq<Arc<Instance>>) -> bool {
    forall|i: int, j: int|
        0 <= i < j < list.len() ==> address(#[trigger] list[i]) != address(#[trigger] list[j])
}

proof fn lemma_has_address_first(list: Seq<Arc<Instance>>, wanted: Seq<char>)
    requires
        list.len() > 0,
    ensures
        has_address(list, wanted) <==> address(list.first()) == wanted || has_address(
            list.drop_first(),
            wanted,
        ),
{
    let rest = list.drop_first();
    if has_address(list, wanted) {
        let i = choose|i: int| 0 <= i < list.len() && address(#[trigger] list[i]) == wanted;
        if i > 0 {
            assert(rest[i - 1] == list[i]);
        }
    }
    if has_address(rest, wanted) {
        let i = choose|i: int| 0 <= i < rest.len() && address(#[trigger] rest[i]) == wanted;
        assert(list[i + 1] == rest[i]);
    }
}

/// The dropped addresses are those of the old list that the new one lacks.
pub proof fn law_removed_addresses(
    old: Seq<Arc<Instance>>,
    new: Seq<Arc<Instance>>,
    wanted: Seq<char>,
)
    ensures
        has_address(removed(old, new), wanted) <==> has_address(old, wanted) && !has_address(
            new,
            wanted,
        ),
    decreases old.len(),
{
    if old.len() > 0 {
        let rest = old.drop_first();
        law_removed_addresses(rest, new, wanted);
        lemma_has_address_first(old, wanted);
        let whole = removed(old, new);
        if !(has_address(new, address(old.first())) || has_address(rest, address(old.first()))) {
            assert(whole.drop_first() =~= removed(rest, new));
            lemma_has_address_first(whole, wanted);
        }
    }
}

/// Every address that is brought is in the new list, and every address of the
/// new list that the old one lacked is brought.
pub proof fn law_added_addresses(
    old: Seq<Arc<Instance>>,
    new: Seq<Arc<Instance>>,
    wanted: Seq<char>,
)
    ensures
        has_address(added(old, new), wanted) ==> has_address(new, wanted),
        has_address(new, wanted) && !has_address(old, wanted) ==> has_address(
            added(old, new),
            wanted,
        ),
    decreases new.len(),
{
    if new.len() > 0 {
        let rest = new.drop_last();
        law_added_addresses(old, rest, wanted);
        assert(rest.push(new.last()) =~= new);
        lemma_has_address_push(rest, new.last(), wanted);
        lemma_has_address_push(added(old, rest), new.last(), wanted);
    }
}

/// Whether the list has no instance with the address of the given one.
pub open spec fn unknown_in(list: Seq<Arc<Instance>>) -> spec_fn(Arc<Instance>) -> bool {
    |e: Arc<Instance>| !has_address(list, address(e))
}

/// Where the new list has no address twice, it brings those of its instances
/// whose address the old list lacks.
pub proof fn law_added_are_unknown(old: Seq<Arc<Instance>>, new: Seq<Arc<Instance>>)
    requires
        distinct_addresses(new),
    ensures
        added(old, new) == new.filter(unknown_in(old)),
    decreases new.len(),
{
    if new.len() == 0 {
        reveal(Seq::filter);
    } else {
        let rest = new.drop_last();
        let last = new.last();
        assert forall|i: int| 0 <= i < rest.len() implies address(#[trigger] rest[i]) != address(
            last,
        ) by {
            assert(rest[i] == new[i] && last == new[rest.len() as int]);
        }
        assert forall|i: int, j: int| 0 <= i < j < rest.len() implies address(
            #[trigger] rest[i],
        ) != address(#[trigger] rest[j]) by {
            assert(rest[i] == new[i] && rest[j] == new[j]);
        }
        law_added_are_unknown(old, rest);
        lemma_filter_push(rest, unknown_in(old), last);
        assert(rest.push(last) =~= new);
    }
}

/// Whether an instance is the last of the list with its address.
pub open spec fn is_last_of(list: Seq<Arc<Instance>>, e: Arc<Instance>) -> bool {
    exists|i: int| #[trigger] last_with_address(list, address(e), i) && list[i] == e
}

/// No address is dropped twice, and each instance that is dropped is the last
/// of the old list with its address.
pub proof fn law_removed_are_last(old: Seq<Arc<Instance>>, new: Seq<Arc<Instance>>)
    ensures
        distinct_addresses(removed(old, new)),
        forall|i: int|
            0 <= i < removed(old, new).len() ==> is_last_of(old, #[trigger] removed(old, new)[i]),
    decreases old.len(),
{
    if old.len() > 0 {
        let rest = old.drop_first();
        let first = old.first();
        let later = removed(rest, new);
        let whole = removed(old, new);
        law_removed_are_last(rest, new);
        assert forall|e: Arc<Instance>| #[trigger] is_last_of(rest, e) implies is_last_of(
            old,
            e,
        ) by {
            let i = choose|i: int| #[trigger]
                last_with_address(rest, address(e), i) && rest[i] == e;
            assert(old[i + 1] == rest[i]);
            assert forall|j: int| i + 1 < j < old.len() implies address(#[trigger] old[j])
                != address(e) by {
                assert(rest[j - 1] == old[j]);
            }
            assert(last_with_address(old, address(e), i + 1));
        }
        if !(has_address(new, address(first)) || has_address(rest, address(first))) {
            assert forall|j: int| 0 < j < old.len() implies address(#[trigger] old[j]) != address(
                first,
            ) by {
                assert(rest[j - 1] == old[j]);
            }
            assert(last_with_address(old, address(first), 0));
            assert forall|i: int| 0 <= i < whole.len() implies is_last_of(
                old,
                #[trigger] whole[i],
            ) by {
                if i > 0 {
                    assert(whole[i] == later[i - 1]);
                }
            }
            assert forall|i: int, j: int| 0 <= i < j < whole.len() implies address(
                #[trigger] whole[i],
            ) != address(#[trigger] whole[j]) by {
                assert(whole[j] == later[j - 1]);
                if i > 0 {
                    assert(whole[i] == later[i - 1]);
                } else {
                    law_removed_addresses(rest, new, address(first));
                    assert(!has_address(later, address(first)));
                }
            }
        }
    }
}

/// Taking the dropped addresses from the old ones and adding those that are
/// brought gives the addresses of the new list.
pub proof fn law_changes_lead_to_new_addresses(
    old: Seq<Arc<Instance>>,
    new: Seq<Arc<Instance>>,
    wanted: Seq<char>,
)
    ensures
        has_address(new, wanted) <==> (has_address(old, wanted) && !has_address(
            removed(old, new),
            wanted,
        )) || has_address(added(old, new), wanted),
{
    law_removed_addresses(old, new, wanted);
    law_added_addresses(old, new, wanted);
}

proof fn lemma_nothing_added(old: Seq<Arc<Instance>>, new: Seq<Arc<Instance>>)
    ensures
        added(old, new).len() == 0 <==> distinct_addresses(new) && forall|i: int|
            0 <= i < new.len() ==> has_address(old, address(#[trigger] new[i])),
    decreases new.len(),
{
    if new.len() > 0 {
        let rest = new.drop_last();
        let last = new.last();
        let n = rest.len() as int;
        lemma_nothing_added(old, rest);
        if distinct_addresses(new) && forall|i: int|
            0 <= i < new.len() ==> has_address(old, address(#[trigger] new[i])) {
            assert forall|i: int, j: int| 0 <= i < j < rest.len() implies address(
                #[trigger] rest[i],
            ) != address(#[trigger] rest[j]) by {
                assert(rest[i] == new[i] && rest[j] == new[j]);
            }
            assert forall|i: int| 0 <= i < rest.len() implies has_address(
                old,
                address(#[trigger] rest[i]),
            ) by {
                assert(rest[i] == new[i]);
            }
            assert(has_address(old, address(new[n])));
            if has_address(rest, address(last)) {
                let i = choose|i: int|
                    0 <= i < rest.len() && address(#[trigger] rest[i]) == address(last);
                assert(rest[i] == new[i] && new[n] == last);
            }
        }
        if added(old, new).len() == 0 {
            assert forall|i: int| 0 <= i < new.len() implies has_address(
                old,
                address(#[trigger] new[i]),
            ) by {
                if i < n {
                    assert(rest[i] == new[i]);
                }
            }
            assert forall|i: int, j: int| 0 <= i < j < new.len() implies address(
                #[trigger] new[i],
            ) != address(#[trigger] new[j]) by {
                assert(rest[i] == new[i]);
                if j < n {
                    assert(rest[j] == new[j]);
                }
            }
        }
    }
}

/// Nothing changes exactly if both lists have the same addresses and the new
/// one has none of them twice.
pub proof fn law_no_change(old: Seq<Arc<Instance>>, new: Seq<Arc<Instance>>)
    ensures
        added(old, new).len() == 0 && removed(old, new).len() == 0 <==> distinct_addresses(new)
            && forall|a: Seq<char>| #[trigger] has_address(old, a) <==> has_address(new, a),
{
    lemma_nothing_added(old, new);
    if added(old, new).len() == 0 && removed(old, new).len() == 0 {
        assert forall|a: Seq<char>| #[trigger] has_address(old, a) <==> has_address(new, a) by {
            law_changes_lead_to_new_addresses(old, new, a);
        }
    }
    if distinct_addresses(new) && forall|a: Seq<char>| #[trigger]
        has_address(old, a) <==> has_address(new, a) {
        assert forall|i: int| 0 <= i < new.len() implies has_address(
            old,
            address(#[trigger] new[i]),
        ) by {
            assert(has_address(new, address(new[i])));
        }
        if removed(old, new).len() > 0 {
            let gone = address(removed(old, new)[0]);
            assert(has_address(removed(old, new), gone));
            law_removed_addresses(old, new, gone);
        }
    }
}

/// Whether an instance of the list has the ip and the port of the given one.
pub open spec fn has_twin(list: Seq<Arc<Instance>>, e: Arc<Instance>) -> bool {
    exists|i: int|
        0 <= i < list.len() && (#[trigger] list[i]).ip@ == e.ip@ && list[i].port == e.port
}

/// Whether the instance at a place of the new list comes: no old instance has
/// its ip and port, or an instance before it in the new list has them.
pub open spec fn comes(old: Seq<Arc<Instance>>, new: Seq<Arc<Instance>>, j: int) -> bool {
    !has_twin(old, new[j]) || exists|i: int|
        0 <= i < j && (#[trigger] new[i]).ip@ == new[j].ip@ && new[i].port == new[j].port
}

/// Whether the instance at a place of the old list goes: no new instance has
/// its ip and port, and no instance behind it in the old list has them.
pub open spec fn goes(old: Seq<Arc<Instance>>, new: Seq<Arc<Instance>>, j: int) -> bool {
    !has_twin(new, old[j]) && !exists|i: int|
        j < i < old.len() && (#[trigger] old[i]).ip@ == old[j].ip@ && old[i].port == old[j].port
}

/// A list has the address of an instance exactly if it has its ip and port.
pub proof fn lemma_address_is_ip_and_port(list: Seq<Arc<Instance>>, e: Arc<Instance>)
    ensures
        has_address(list, address(e)) <==> has_twin(list, e),
{
    if has_address(list, address(e)) {
        let i = choose|i: int| 0 <= i < list.len() && address(#[trigger] list[i]) == address(e);
        law_address_tells_ip_and_port(list[i], e);
    }
    if has_twin(list, e) {
        let i = choose|i: int|
            0 <= i < list.len() && (#[trigger] list[i]).ip@ == e.ip@ && list[i].port == e.port;
        law_address_tells_ip_and_port(list[i], e);
    }
}

/// What the new list brings is made of those of its instances that come, in
/// its order: those whose ip and port no old instance has, and those whose ip
/// and port the new list has had before.
pub proof fn law_brings_what_comes(old: Seq<Arc<Instance>>, new: Seq<Arc<Instance>>)
    ensures
        picks_out(added(old, new), new, |j: int| comes(old, new, j)),
    decreases new.len(),
{
    if new.len() == 0 {
        assert(stands_at(added(old, new), new, Seq::empty()));
    } else {
        let rest = new.drop_last();
        let last = new.last();
        let n = rest.len() as int;
        law_brings_what_comes(old, rest);
        assert(rest.push(last) =~= new);
        let kept = |j: int| comes(old, rest, j);
        let longer = |j: int| comes(old, new, j);
        assert forall|j: int| 0 <= j < rest.len() implies #[trigger] longer(j) == kept(j) by {
            assert(rest[j] == new[j]);
            assert(forall|i: int| 0 <= i < j ==> #[trigger] rest[i] == new[i]);
            assert(forall|i: int| 0 <= i < j ==> #[trigger] new[i] == rest[i]);
        }
        lemma_address_is_ip_and_port(old, last);
        lemma_address_is_ip_and_port(rest, last);
        assert(new[n] == last);
        assert(forall|i: int| 0 <= i < n ==> #[trigger] rest[i] == new[i]);
        assert(forall|i: int| 0 <= i < n ==> #[trigger] new[i] == rest[i]);
        assert(has_twin(rest, last) <==> exists|i: int|
            0 <= i < n && (#[trigger] new[i]).ip@ == new[n].ip@ && new[i].port == new[n].port);
        lemma_picks_out_push(added(old, rest), rest, kept, last, longer);
    }
}

/// What the new list drops is made of those of the old instances that go, in
/// the order of the old list: those whose ip and port neither a new instance
/// nor a later old one has.
pub proof fn law_drops_what_goes(old: Seq<Arc<Instance>>, new: Seq<Arc<Instance>>)
    ensures
        picks_out(removed(old, new), old, |j: int| goes(old, new, j)),
    decreases old.len(),
{
    if old.len() == 0 {
        assert(stands_at(removed(old, new), old, Seq::empty()));
    } else {
        let rest = old.drop_first();
        let first = old.first();
        law_drops_what_goes(rest, new);
        assert(seq![first] + rest =~= old);
        let kept = |j: int| goes(rest, new, j);
        let longer = |j: int| goes(old, new, j);
        assert forall|j: int| 0 <= j < rest.len() implies longer(j + 1) == #[trigger] kept(j) by {
            assert(rest[j] == old[j + 1]);
            if kept(j) && !longer(j + 1) {
                let i = choose|i: int|
                    j + 1 < i < old.len() && (#[trigger] old[i]).ip@ == old[j + 1].ip@
                        && old[i].port == old[j + 1].port;
                assert(rest[i - 1] == old[i]);
            }
            if longer(j + 1) && !kept(j) {
                let i = choose|i: int|
                    j < i < rest.len() && (#[trigger] rest[i]).ip@ == rest[j].ip@ && rest[i].port
                        == rest[j].port;
                assert(rest[i] == old[i + 1]);
            }
        }
        lemma_address_is_ip_and_port(new, first);
        lemma_address_is_ip_and_port(rest, first);
        if has_twin(rest, first) {
            let i = choose|i: int|
                0 <= i < rest.len() && (#[trigger] rest[i]).ip@ == first.ip@ && rest[i].port
                    == first.port;
            assert(rest[i] == old[i + 1]);
        } else if !longer(0) && !has_twin(new, first) {
            let i = choose|i: int|
                0 < i < old.len() && (#[trigger] old[i]).ip@ == old[0].ip@ && old[i].port
                    == old[0].port;
            assert(rest[i - 1] == old[i]);
        }
        lemma_picks_out_front(removed(rest, new), rest, kept, first, longer);
    }
}

} // verus!

//! Service instances.

use crate::lemmas::{lemma_filter_of_map, lemma_filter_push};
use crate::text::{decimal, decimal_text, lemma_decimal_digits, lemma_decimal_injective};
use crate::weight::{law_weight_counts_by_bits, Weight};
use std::sync::Arc;
use vstd::prelude::*;
use vstd::string::*;

verus! {

/// One instance of a service.
#[derive(Debug)]
pub struct Instance {
    pub ip: String,
    pub port: u32,
    pub weight: Weight,
    pub healthy: bool,
    pub cluster_name: String,
}

/// The instances of a service, as they are handed to its listeners.
pub type InstanceListenerValue = Vec<Arc<Instance>>;

/// An ip and a port, joined by a colon.
pub open spec fn joined_address(ip: Seq<char>, port: u32) -> Seq<char> {
    ip + seq![':'] + decimal(port as nat)
}

/// The address of an instance: its ip and its port, joined by a colon.
pub open spec fn address(instance: Arc<Instance>) -> Seq<char> {
    joined_address(instance.ip@, instance.port)
}

/// Whether an instance of the list has the given address.
pub open spec fn has_address(list: Seq<Arc<Instance>>, wanted: Seq<char>) -> bool {
    exists|i: int| 0 <= i < list.len() && address(#[trigger] list[i]) == wanted
}

/// Whether the weight of an instance is a number above the least one that counts.
pub open spec fn weighs_enough() -> spec_fn(Arc<Instance>) -> bool {
    |e: Arc<Instance>| e.weight.counts()
}

/// The hosts that count, in their order.
pub open spec fn weighted(hosts: Seq<Instance>) -> Seq<Arc<Instance>> {
    hosts.map_values(|e: Instance| Arc::new(e)).filter(weighs_enough())
}

impl Instance {
    /// The address of the instance: its ip and its port, joined by a colon.
    pub fn address_text(&self) -> (text: String)
        ensures
            text@ == joined_address(self.ip@, self.port),
    {
        let mut text = self.ip.clone();
        proof {
            reveal_strlit(":");
        }
        text.append(":");
        let port = decimal_text(self.port as u64);
        text.append(port.as_str());
        assert(text@ =~= joined_address(self.ip@, self.port));
        text
    }
}

/// A list of the same instances.
pub fn copy_instances(list: &Vec<Arc<Instance>>) -> (copy: Vec<Arc<Instance>>)
    ensures
        copy@ == list@,
{
    let mut copy: Vec<Arc<Instance>> = Vec::new();
    for i in 0..list.len()
        invariant
            copy@ == list@.take(i as int),
    {
        copy.push(list[i].clone());
        assert(copy@ =~= list@.take(i + 1));
    }
    assert(copy@ =~= list@);
    copy
}

/// Keeps the hosts whose weight is a number above `0.001`.
pub fn keep_weighted(hosts: Vec<Instance>) -> (kept: Vec<Arc<Instance>>)
    ensures
        kept@ == weighted(hosts@),
{
    let ghost all = hosts@;
    let ghost shared = all.map_values(|e: Instance| Arc::new(e));
    let mut kept: Vec<Arc<Instance>> = Vec::new();
    proof {
        reveal(Seq::filter);
        assert(shared.take(0).filter(weighs_enough()) =~= Seq::empty());
    }
    for host in it: hosts
        invariant
            it.seq() == all,
            shared == all.map_values(|e: Instance| Arc::new(e)),
            kept@ == shared.take(it.index() as int).filter(weighs_enough()),
    {
        let counts = host.weight.exceeds_minimum();
        proof {
            lemma_filter_push(shared.take(it.index() as int), weighs_enough(), shared[it.index() as int]);
            assert(shared.take(it.index() as int).push(shared[it.index() as int]) =~= shared.take(
                it.index() + 1,
            ));
        }
        if counts {
            kept.push(Arc::new(host));
        }
    }
    assert(shared.take(all.len() as int) =~= shared);
    kept
}

/// Two instances have the same address exactly if they have the same ip and
/// the same port.
pub proof fn law_address_tells_ip_and_port(a: Arc<Instance>, b: Arc<Instance>)
    ensures
        address(a) == address(b) <==> a.ip@ == b.ip@ && a.port == b.port,
{
    let p = decimal(a.port as nat);
    let q = decimal(b.port as nat);
    lemma_decimal_digits(a.port as nat);
    lemma_decimal_digits(b.port as nat);
    if address(a) == address(b) {
        let text = address(a);
        let n = a.ip@.len() as int;
        let m = b.ip@.len() as int;
        let front = a.ip@ + seq![':'];
        let back = b.ip@ + seq![':'];
        assert(text.len() == front.len() + p.len() && text.len() == back.len() + q.len());
        assert((front + p)[n] == front[n] && (back + q)[m] == back[m]);
        if n < m {
            assert((front + p)[m] == p[m - front.len()]);
        }
        if m < n {
            assert((back + q)[n] == q[n - back.len()]);
        }
        assert(a.ip@ =~= text.take(n));
        assert(b.ip@ =~= text.take(m));
        assert(p =~= text.skip(n + 1));
        assert(q =~= text.skip(m + 1));
        lemma_decimal_injective(a.port as nat, b.port as nat);
    }
}

/// Every host that is kept weighs enough.
pub proof fn law_weighted_hosts_count(hosts: Seq<Instance>)
    ensures
        forall|i: int| 0 <= i < weighted(hosts).len() ==> (#[trigger] weighted(hosts)[i]).weight.counts(),
{
    let shared = hosts.map_values(|e: Instance| Arc::new(e));
    assert forall|i: int| 0 <= i < weighted(hosts).len() implies (#[trigger] weighted(
        hosts,
    )[i]).weight.counts() by {
        shared.lemma_filter_pred(weighs_enough(), i);
    }
}

/// The hosts that are kept are those whose weight has bits above those of one
/// thousandth and not above those of infinity: all of them, in their order, as
/// they are.
pub proof fn law_weighted_hosts_are_kept(hosts: Seq<Instance>)
    ensures
        weighted(hosts) == hosts.filter(
            |h: Instance| 0x3A83_126F < h.weight.bits <= 0x7F80_0000,
        ).map_values(|h: Instance| Arc::new(h)),
{
    let before = |h: Instance| 0x3A83_126F < h.weight.bits <= 0x7F80_0000;
    let f = |h: Instance| Arc::new(h);
    assert forall|h: Instance| #[trigger] before(h) == weighs_enough()(f(h)) by {
        law_weight_counts_by_bits(h.weight);
    }
    lemma_filter_of_map(hosts, f, weighs_enough(), before);
}

/// The address of an instance is its ip, a colon and the digits of its port.
pub proof fn law_address_is_joined(e: Arc<Instance>)
    ensures
        address(e).take(e.ip@.len() as int) == e.ip@,
        address(e)[e.ip@.len() as int] == ':',
        address(e).skip(e.ip@.len() as int + 1) == decimal(e.port as nat),
{
    assert(address(e).take(e.ip@.len() as int) =~= e.ip@);
    assert(address(e).skip(e.ip@.len() as int + 1) =~= decimal(e.port as nat));
}

} // verus!

//! Questions about the instances of a service, what the server answers and
//! what is answered to those who ask.

use crate::instance::Instance;
use crate::key::{join_key, key_text, ServiceKey};
use crate::lemmas::{
    is_subsequence, lemma_filter_contains, lemma_filter_push, lemma_same_filter,
    lemma_stricter_filter,
};
use std::sync::Arc;
use vstd::prelude::*;

verus! {

/// The texts that a list of strings holds.
pub open spec fn texts(list: Seq<String>) -> Seq<Seq<char>> {
    list.map_values(|s: String| s@)
}

/// What an optional string holds.
pub open spec fn optional_text(text: Option<String>) -> Option<Seq<char>> {
    match text {
        Some(s) => Some(s@),
        None => None,
    }
}

/// What is asked about a service, as a mathematical value.
#[verifier::ext_equal]
pub struct QueryParams {
    pub namespace_id: Seq<char>,
    pub group_name: Seq<char>,
    pub service_name: Seq<char>,
    pub clusters: Option<Seq<Seq<char>>>,
    pub healthy_only: bool,
    pub client_ip: Option<Seq<char>>,
    pub udp_port: Option<u16>,
}

impl QueryParams {
    /// The service that is asked about.
    pub open spec fn service(self) -> ServiceKey {
        ServiceKey { group_name: self.group_name, service_name: self.service_name }
    }
}

/// What is asked about a service.
#[derive(Debug)]
pub struct QueryInstanceListParams {
    pub namespace_id: String,
    pub group_name: String,
    pub service_name: String,
    pub clusters: Option<Vec<String>>,
    pub healthy_only: bool,
    pub client_ip: Option<String>,
    pub udp_port: Option<u16>,
}

impl View for QueryInstanceListParams {
    type V = QueryParams;

    open spec fn view(&self) -> QueryParams {
        QueryParams {
            namespace_id: self.namespace_id@,
            group_name: self.group_name@,
            service_name: self.service_name@,
            clusters: match self.clusters {
                Some(list) => Some(texts(list@)),
                None => None,
            },
            healthy_only: self.healthy_only,
            client_ip: optional_text(self.client_ip),
            udp_port: self.udp_port,
        }
    }
}

/// A list of the same texts.
fn copy_texts(list: &Vec<String>) -> (copy: Vec<String>)
    ensures
        texts(copy@) == texts(list@),
{
    let mut copy: Vec<String> = Vec::new();
    for i in 0..list.len()
        invariant
            copy@ == list@.take(i as int),
    {
        copy.push(list[i].clone());
        assert(copy@ =~= list@.take(i + 1));
    }
    assert(copy@ =~= list@);
    copy
}

/// Tells whether a text is in the list.
fn contains_text(list: &Vec<String>, text: &String) -> (res: bool)
    ensures
        res == texts(list@).contains(text@),
{
    for i in 0..list.len()
        invariant
            forall|j: int| 0 <= j < i ==> (#[trigger] texts(list@)[j]) != text@,
    {
        if list[i] == *text {
            assert(texts(list@)[i as int] == text@);
            return true;
        }
    }
    false
}

impl Clone for QueryInstanceListParams {
    fn clone(&self) -> (res: Self)
        ensures
            res@ == self@,
    {
        QueryInstanceListParams {
            namespace_id: self.namespace_id.clone(),
            group_name: self.group_name.clone(),
            service_name: self.service_name.clone(),
            clusters: match &self.clusters {
                Some(list) => Some(copy_texts(list)),
                None => None,
            },
            healthy_only: self.healthy_only,
            client_ip: match &self.client_ip {
                Some(ip) => Some(ip.clone()),
                None => None,
            },
            udp_port: self.udp_port,
        }
    }
}

impl QueryInstanceListParams {
    /// The text that the service in question is filed under.
    pub fn get_key(&self) -> (text: String)
        ensures
            text@ == key_text(self@.service()),
    {
        join_key(self.group_name.as_str(), self.service_name.as_str())
    }
}

/// What the server says about a service, as a mathematical value.
pub struct ServiceReport {
    pub name: Option<Seq<char>>,
    pub checksum: Option<Seq<char>>,
    pub cache_millis: Option<u64>,
    pub last_ref_time: Option<i64>,
    pub hosts: Option<Seq<Instance>>,
}

/// What the server says about a service.
#[derive(Debug)]
pub struct QueryListResult {
    pub name: Option<String>,
    pub checksum: Option<String>,
    pub cache_millis: Option<u64>,
    pub last_ref_time: Option<i64>,
    pub hosts: Option<Vec<Instance>>,
}

impl View for QueryListResult {
    type V = ServiceReport;

    open spec fn view(&self) -> ServiceReport {
        ServiceReport {
            name: optional_text(self.name),
            checksum: optional_text(self.checksum),
            cache_millis: self.cache_millis,
            last_ref_time: self.last_ref_time,
            hosts: match self.hosts {
                Some(list) => Some(list@),
                None => None,
            },
        }
    }
}

/// Whether an instance is one of those that are asked for.
pub open spec fn asked_for(params: QueryParams) -> spec_fn(Arc<Instance>) -> bool {
    |e: Arc<Instance>|
        {
            &&& params.healthy_only ==> e.healthy
            &&& params.clusters matches Some(names) ==> names.contains(e.cluster_name@)
        }
}

/// Selects the instances that are asked for, in their order.
pub fn select_instances(
    instances: &Vec<Arc<Instance>>,
    params: &QueryInstanceListParams,
) -> (list: Vec<Arc<Instance>>)
    ensures
        list@ == instances@.filter(asked_for(params@)),
        forall|e: Arc<Instance>| #[trigger]
            list@.contains(e) <==> instances@.contains(e) && (e.healthy || !params.healthy_only)
                && (params.clusters is None || params@.clusters->0.contains(e.cluster_name@)),
{
    let mut list: Vec<Arc<Instance>> = Vec::new();
    proof {
        reveal(Seq::filter);
        assert(instances@.take(0).filter(asked_for(params@)) =~= Seq::empty());
    }
    for i in 0..instances.len()
        invariant
            list@ == instances@.take(i as int).filter(asked_for(params@)),
    {
        let item = &instances[i];
        proof {
            lemma_filter_push(instances@.take(i as int), asked_for(params@), instances@[i as int]);
            assert(instances@.take(i as int).push(instances@[i as int]) =~= instances@.take(i + 1));
        }
        let in_cluster = match &params.clusters {
            Some(clusters) => contains_text(clusters, &item.cluster_name),
            None => true,
        };
        if (item.healthy || !params.healthy_only) && in_cluster {
            list.push(item.clone());
        }
    }
    assert(instances@.take(instances@.len() as int) =~= instances@);
    proof {
        assert forall|e: Arc<Instance>| #[trigger] list@.contains(e) <==> instances@.contains(e) && (
        e.healthy || !params.healthy_only) && (params.clusters is None
            || params@.clusters->0.contains(e.cluster_name@)) by {
            lemma_filter_contains(instances@, asked_for(params@), e);
        }
    }
    list
}

/// What is wanted of the instances that are asked for: all of them, or one.
#[derive(Debug)]
pub enum NamingQueryCmd {
    QueryList(QueryInstanceListParams),
    Select(QueryInstanceListParams),
}

impl NamingQueryCmd {
    /// What is asked.
    pub open spec fn asked(self) -> QueryParams {
        match self {
            NamingQueryCmd::QueryList(params) => params@,
            NamingQueryCmd::Select(params) => params@,
        }
    }

    /// What is asked.
    pub fn params(&self) -> (params: &QueryInstanceListParams)
        ensures
            params@ == self.asked(),
    {
        match self {
            NamingQueryCmd::QueryList(params) => params,
            NamingQueryCmd::Select(params) => params,
        }
    }
}

/// An answer, as a mathematical value.
#[verifier::ext_equal]
pub enum QueryAnswer {
    Nothing,
    One(Arc<Instance>),
    List(Seq<Arc<Instance>>),
}

/// An answer to those who ask.
#[derive(Debug)]
pub enum NamingQueryResult {
    Nothing,
    One(Arc<Instance>),
    List(Vec<Arc<Instance>>),
}

impl View for NamingQueryResult {
    type V = QueryAnswer;

    open spec fn view(&self) -> QueryAnswer {
        match self {
            NamingQueryResult::Nothing => QueryAnswer::Nothing,
            NamingQueryResult::One(e) => QueryAnswer::One(*e),
            NamingQueryResult::List(list) => QueryAnswer::List(list@),
        }
    }
}

/// The answer with the instance at a place of the list; no instance where the
/// list has no such place.
pub open spec fn answer_one(list: Seq<Arc<Instance>>, place: int) -> QueryAnswer {
    if 0 <= place < list.len() {
        QueryAnswer::One(list[place])
    } else {
        QueryAnswer::Nothing
    }
}

/// Answers with the instance at the place that was picked, if there is one.
pub fn pick_instance(list: &Vec<Arc<Instance>>, place: usize) -> (res: NamingQueryResult)
    ensures
        res@ == answer_one(list@, place as int),
        place < list@.len() ==> res == NamingQueryResult::One(list@[place as int]),
        place >= list@.len() ==> res is Nothing,
{
    if place < list.len() {
        NamingQueryResult::One(list[place].clone())
    } else {
        NamingQueryResult::Nothing
    }
}

/// A question that asks neither for health nor for clusters selects all.
pub proof fn law_plain_question_selects_all(instances: Seq<Arc<Instance>>, params: QueryParams)
    requires
        !params.healthy_only,
        params.clusters is None,
    ensures
        instances.filter(asked_for(params)) == instances,
    decreases instances.len(),
{
    reveal(Seq::filter);
    if instances.len() > 0 {
        law_plain_question_selects_all(instances.drop_last(), params);
        assert(instances.drop_last().push(instances.last()) =~= instances);
    }
}

/// What is selected is asked for and was known, and what is known and asked
/// for is selected.
pub proof fn law_selection_is_exact(
    instances: Seq<Arc<Instance>>,
    params: QueryParams,
    e: Arc<Instance>,
)
    ensures
        instances.filter(asked_for(params)).contains(e) <==> instances.contains(e) && asked_for(
            params,
        )(e),
{
    lemma_filter_contains(instances, asked_for(params), e);
}

/// A stricter question selects a subsequence of what a weaker one selects.
pub proof fn law_stricter_question_selects_part(
    instances: Seq<Arc<Instance>>,
    strict: QueryParams,
    weak: QueryParams,
)
    requires
        forall|e: Arc<Instance>| #[trigger] asked_for(strict)(e) ==> asked_for(weak)(e),
    ensures
        is_subsequence(
            instances.filter(asked_for(strict)),
            instances.filter(asked_for(weak)),
        ),
{
    lemma_stricter_filter(instances, asked_for(strict), asked_for(weak));
}

/// What is selected is made of the instances that are healthy, where only
/// those are wanted, and that belong to one of the clusters, where clusters
/// are named: of all of them, in their order.
pub proof fn law_selected_by_health_and_cluster(
    instances: Seq<Arc<Instance>>,
    params: QueryParams,
)
    ensures
        instances.filter(asked_for(params)) == instances.filter(
            |e: Arc<Instance>|
                (e.healthy || !params.healthy_only) && (params.clusters is None
                    || params.clusters->0.contains(e.cluster_name@)),
        ),
{
    let plain = |e: Arc<Instance>|
        (e.healthy || !params.healthy_only) && (params.clusters is None
            || params.clusters->0.contains(e.cluster_name@));
    assert forall|e: Arc<Instance>| #[trigger] asked_for(params)(e) == plain(e) by {}
    lemma_same_filter(instances, asked_for(params), plain);
}

/// An instance is selected exactly if it is known, is healthy where only
/// healthy ones are wanted, and belongs to one of the clusters where clusters
/// are named.
pub proof fn law_selected_are_healthy_and_in_cluster(
    instances: Seq<Arc<Instance>>,
    params: QueryParams,
    e: Arc<Instance>,
)
    ensures
        instances.filter(asked_for(params)).contains(e) ==> instances.contains(e),
        instances.filter(asked_for(params)).contains(e) && params.healthy_only ==> e.healthy,
        instances.filter(asked_for(params)).contains(e) && params.clusters is Some ==> exists|
            i: int,
        |
            0 <= i < params.clusters->0.len() && #[trigger] params.clusters->0[i]
                == e.cluster_name@,
        instances.contains(e) && (e.healthy || !params.healthy_only) && (params.clusters is None
            || params.clusters->0.contains(e.cluster_name@)) ==> instances.filter(
            asked_for(params),
        ).contains(e),
{
    lemma_filter_contains(instances, asked_for(params), e);
}

/// The answer with one instance is the very instance at the place that was
/// picked, so that each place of the list gives its own instance; a place
/// behind the list gives none.
pub proof fn law_picked_place_is_answered(list: Seq<Arc<Instance>>, place: int)
    ensures
        0 <= place < list.len() ==> answer_one(list, place) is One && answer_one(
            list,
            place,
        )->One_0 == list[place],
        place >= list.len() ==> answer_one(list, place) is Nothing,
{
}

/// A command asks what it carries, whether for all instances or for one.
pub proof fn law_command_asks_what_it_carries(params: QueryInstanceListParams)
    ensures
        NamingQueryCmd::QueryList(params).asked() == params@,
        NamingQueryCmd::Select(params).asked() == params@,
        params@.service().group_name == params.group_name@,
        params@.service().service_name == params.service_name@,
{
}

/// What is asked about a service has the texts and numbers of its fields.
pub proof fn law_question_says_its_fields(params: QueryInstanceListParams)
    ensures
        params@.namespace_id == params.namespace_id@,
        params@.group_name == params.group_name@,
        params@.service_name == params.service_name@,
        params@.clusters is Some <==> params.clusters is Some,
        params.clusters is Some ==> params@.clusters->0.len() == params.clusters->0@.len(),
        params.clusters is Some ==> forall|i: int|
            0 <= i < params.clusters->0@.len() ==> #[trigger] params@.clusters->0[i]
                == params.clusters->0@[i]@,
        params@.healthy_only == params.healthy_only,
        params@.client_ip is Some <==> params.client_ip is Some,
        params.client_ip is Some ==> params@.client_ip->0 == params.client_ip->0@,
        params@.udp_port == params.udp_port,
{
}

/// What the server says about a service has the texts, numbers and hosts of
/// its fields.
pub proof fn law_report_says_its_fields(result: QueryListResult)
    ensures
        result@.name is Some <==> result.name is Some,
        result.name is Some ==> result@.name->0 == result.name->0@,
        result@.checksum is Some <==> result.checksum is Some,
        result.checksum is Some ==> result@.checksum->0 == result.checksum->0@,
        result@.cache_millis == result.cache_millis,
        result@.last_ref_time == result.last_ref_time,
        result@.hosts is Some <==> result.hosts is Some,
        result.hosts is Some ==> result@.hosts->0 == result.hosts->0@,
{
}

/// An answer says what it holds.
pub proof fn law_answer_says_what_it_holds(one: Arc<Instance>, list: Vec<Arc<Instance>>)
    ensures
        NamingQueryResult::Nothing@ is Nothing,
        NamingQueryResult::One(one)@ == QueryAnswer::One(one),
        NamingQueryResult::List(list)@ == QueryAnswer::List(list@),
{
}

} // verus!

//! Those who are told when the instances of a service change.

use crate::instance::{copy_instances, Instance, InstanceListenerValue};
use crate::key::{ServiceInstanceKey, ServiceKey};
use std::sync::Arc;
use vstd::prelude::*;

verus! {

/// What a listener is told: the instances of a service, and which of them came
/// and which went.
#[verifier::ext_equal]
pub struct Change {
    pub key: ServiceKey,
    pub value: Seq<Arc<Instance>>,
    pub add_list: Seq<Arc<Instance>>,
    pub remove_list: Seq<Arc<Instance>>,
}

/// One who is told when the instances of a service change.
pub trait InstanceListener: Sized {
    /// What a listener acts on beyond itself. All listeners of a naming
    /// listener share it, so it shows which of them were told, and in which
    /// order.
    type Outside;

    /// Whether the listener can be told of a change.
    open spec fn ready(&self) -> bool {
        true
    }

    /// What being told does to the listener and to the outside. A listener
    /// that says nothing of its own may do anything.
    open spec fn told(
        before: Self,
        after: Self,
        outside_before: Self::Outside,
        outside_after: Self::Outside,
        change: Change,
    ) -> bool {
        true
    }

    /// The service that the listener is about.
    fn get_key(&self) -> ServiceInstanceKey;

    /// Tells the listener the instances of a service, and which of them came
    /// and which went.
    fn change(
        &mut self,
        outside: &mut Self::Outside,
        key: &ServiceInstanceKey,
        value: &InstanceListenerValue,
        add_list: &InstanceListenerValue,
        remove_list: &InstanceListenerValue,
    )
        requires
            old(self).ready(),
        ensures
            final(self).ready(),
            Self::told(
                *old(self),
                *final(self),
                *old(outside),
                *final(outside),
                (Change {
                    key: key@,
                    value: value@,
                    add_list: add_list@,
                    remove_list: remove_list@,
                }),
            ),
    ;
}

/// What a default listener passes the instances on to.
pub trait InstanceCallback: Sized {
    /// What the callback acts on.
    type Outside;

    /// Whether the callback takes whatever it is called with.
    open spec fn ready(&self) -> bool {
        true
    }

    /// What one call does to the outside. A callback that says nothing of its
    /// own may do anything.
    open spec fn called(
        &self,
        outside_before: Self::Outside,
        outside_after: Self::Outside,
        content: Seq<Arc<Instance>>,
        add_list: Seq<Arc<Instance>>,
        remove_list: Seq<Arc<Instance>>,
    ) -> bool {
        true
    }

    fn call_back(
        &self,
        outside: &mut Self::Outside,
        content: Arc<InstanceListenerValue>,
        add_list: InstanceListenerValue,
        remove_list: InstanceListenerValue,
    )
        requires
            self.ready(),
        ensures
            self.called(
                *old(outside),
                *final(outside),
                content@,
                add_list@,
                remove_list@,
            ),
    ;
}

/// A closure is a callback. What it acts on it has captured.
impl<
    F: Fn(Arc<InstanceListenerValue>, InstanceListenerValue, InstanceListenerValue),
> InstanceCallback for F {
    type Outside = ();

    open spec fn ready(&self) -> bool {
        forall|
            content: Arc<InstanceListenerValue>,
            add: InstanceListenerValue,
            remove: InstanceListenerValue,
        | #[trigger]
            call_requires(*self, (content, add, remove))
    }

    open spec fn called(
        &self,
        outside_before: (),
        outside_after: (),
        content: Seq<Arc<Instance>>,
        add_list: Seq<Arc<Instance>>,
        remove_list: Seq<Arc<Instance>>,
    ) -> bool {
        exists|
            list: Arc<InstanceListenerValue>,
            add: InstanceListenerValue,
            remove: InstanceListenerValue,
        |
            list@ == content && add@ == add_list && remove@ == remove_list
                && #[trigger] call_ensures(*self, (list, add, remove), ())
    }

    fn call_back(
        &self,
        outside: &mut (),
        content: Arc<InstanceListenerValue>,
        add_list: InstanceListenerValue,
        remove_list: InstanceListenerValue,
    ) {
        self(content, add_list, remove_list);
    }
}

/// A listener that keeps the last instances it was told of, and passes them on
/// to a callback.
pub struct InstanceDefaultListener<C: InstanceCallback> {
    pub key: ServiceInstanceKey,
    pub content: Option<Arc<InstanceListenerValue>>,
    pub callback: Option<Arc<C>>,
}

/// The instances that a listener holds; none before it was told of any.
pub open spec fn held(content: Option<Arc<InstanceListenerValue>>) -> Seq<Arc<Instance>> {
    match content {
        Some(list) => list@,
        None => Seq::empty(),
    }
}

impl<C: InstanceCallback> InstanceDefaultListener<C> {
    pub fn new(key: ServiceInstanceKey, callback: Option<Arc<C>>) -> (listener: Self)
        ensures
            listener.key == key,
            listener.content is None,
            listener.callback == callback,
    {
        InstanceDefaultListener { key, content: None, callback }
    }

    /// The last instances that the listener was told of.
    pub fn get_content(&self) -> (list: Arc<InstanceListenerValue>)
        ensures
            list@ == held(self.content),
            self.content is Some ==> list == self.content->0,
    {
        match &self.content {
            Some(list) => list.clone(),
            None => Arc::new(Vec::new()),
        }
    }

    /// Takes over the instances of the service, unless there are none, and
    /// returns what the callback is to be called with: nothing where nothing
    /// was taken over or there is no callback.
    pub fn accept(
        &mut self,
        value: &InstanceListenerValue,
        add_list: &InstanceListenerValue,
        remove_list: &InstanceListenerValue,
    ) -> (call: Option<
        (Arc<InstanceListenerValue>, InstanceListenerValue, InstanceListenerValue),
    >)
        ensures
            final(self).key == old(self).key,
            final(self).callback == old(self).callback,
            value@.len() == 0 ==> *final(self) == *old(self),
            value@.len() > 0 ==> final(self).content is Some && final(self).content->0@ == value@,
            call is Some <==> value@.len() > 0 && old(self).callback is Some,
            call matches Some(args) ==> args.0 == final(self).content->0 && args.1@ == add_list@
                && args.2@ == remove_list@,
    {
        if value.len() > 0 {
            self.content = Some(Arc::new(copy_instances(value)));
            if self.callback.is_some() {
                let content = self.get_content();
                return Some((content, copy_instances(add_list), copy_instances(remove_list)));
            }
        }
        None
    }
}

impl<C: InstanceCallback> InstanceListener for InstanceDefaultListener<C> {
    type Outside = C::Outside;

    open spec fn ready(&self) -> bool {
        self.callback matches Some(callback) ==> callback.ready()
    }

    /// Instances are taken over and passed to the callback, in one call. An
    /// empty list leaves the listener as it was, and the callback is not
    /// called.
    open spec fn told(
        before: Self,
        after: Self,
        outside_before: C::Outside,
        outside_after: C::Outside,
        change: Change,
    ) -> bool {
        if change.value.len() == 0 {
            &&& after == before
            &&& outside_after == outside_before
        } else {
            &&& after.key == before.key
            &&& after.callback == before.callback
            &&& after.content is Some
            &&& after.content->0@ == change.value
            &&& match before.callback {
                Some(callback) => callback.called(
                    outside_before,
                    outside_after,
                    change.value,
                    change.add_list,
                    change.remove_list,
                ),
                None => outside_after == outside_before,
            }
        }
    }

    fn get_key(&self) -> (key: ServiceInstanceKey)
        ensures
            key@ == self.key@,
    {
        self.key.clone()
    }

    fn change(
        &mut self,
        outside: &mut C::Outside,
        key: &ServiceInstanceKey,
        value: &InstanceListenerValue,
        add_list: &InstanceListenerValue,
        remove_list: &InstanceListenerValue,
    ) {
        if let Some((content, add, remove)) = self.accept(value, add_list, remove_list) {
            if let Some(callback) = &self.callback {
                callback.call_back(outside, content, add, remove);
            }
        }
    }
}

} // verus!

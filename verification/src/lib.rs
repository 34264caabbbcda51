//! State and decisions of a Nacos naming listener: which services are
//! tracked, which instances are known for them, when they are asked for again
//! and who is told when they change.

pub mod diff;
pub mod effects;
pub mod history;
pub mod instance;
pub mod key;
pub mod laws;
pub mod lemmas;
pub mod listener;
pub mod naming;
pub mod push;
pub mod query;
pub mod state;
pub mod store;
pub mod text;
pub mod timeouts;
pub mod weight;

pub use crate::instance::{Instance, InstanceListenerValue};
pub use crate::key::ServiceInstanceKey;
pub use crate::listener::{InstanceCallback, InstanceDefaultListener, InstanceListener};
pub use crate::naming::{
    InnerNamingListener, ListenerAction, LookStep, NamingListenerCmd, QueryReply, QueryStep,
    UdpRequest,
};
pub use crate::query::{
    NamingQueryCmd, NamingQueryResult, QueryInstanceListParams, QueryListResult,
};
pub use crate::weight::Weight;

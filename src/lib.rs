//! A key-value capability layer: a logical resource name is resolved through an
//! immutable configuration snapshot to one of a closed set of backend kinds, a
//! backend instance is constructed once per name, and get / set / list-keys /
//! delete are dispatched to it through shared session handles.
use vstd::prelude::*;

pub mod builder;
pub mod error;
pub mod implementors;
pub mod keyvalue;
pub mod laws;
pub mod resource;
pub mod store;

pub use builder::Builder;
pub use error::KeyvalueError;
pub use implementors::{KeyvalueImplementor, MemoryImplementor};
pub use keyvalue::{Keyvalue, KeyvalueInner};
pub use resource::{EnabledBackends, KeyvalueImplementors, KeyvalueResource, Resource};
pub use store::{BasicState, CapabilityStore};

//! A minimal cross-boundary plugin capability framework: values cross the
//! host/plugin boundary through a verified marshaling layer, stateful plugin
//! instances live behind opaque handles in an instance registry, callbacks
//! are a replace-on-register single slot per instance, and a small lifecycle
//! state machine orders load, init, construct, operate and destroy.

pub mod auth;
pub mod callback;
pub mod logger;
pub mod capability;
pub mod lifecycle;
pub mod marshal;
pub mod registry;
pub mod validator;
pub mod value;

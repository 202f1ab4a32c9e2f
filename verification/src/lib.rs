//! Broker, wire protocol, client rules and adapters of the Valkyr cache.

pub mod broker;
pub mod broker_laws;
pub mod capi;
pub mod checks;
pub mod client;
pub mod client_laws;
pub mod command_laws;
pub mod crypto;
pub mod db;
pub mod duration;
pub mod error;
pub mod frame_laws;
pub mod json;
pub mod line_callback;
pub mod line_protocol;
pub mod lines;
pub mod match_laws;
pub mod memory;
pub mod message_laws;
pub mod miss_cache;
pub mod openbao;
pub mod order;
pub mod outcome;
pub mod pattern;
pub mod protocol;
pub mod read_laws;
pub mod registry;
pub mod route;
pub mod router;
pub mod routes;
pub mod security;
pub mod session_laws;
pub mod state_laws;
pub mod store;
pub mod store_laws;
pub mod table;
pub mod text;
pub mod text_laws;
pub mod tls;
pub mod view_laws;
pub mod wire;
pub mod words;

pub use broker::{Broker, AUTH_NAMESPACE, LEASE_NAMESPACE, SECURITY_NAMESPACE};
pub use error::Error;
pub use memory::MemoryStoreConfig;
pub use outcome::{
    BrokerOutcome, Dispatch, PendingMutation, ProvideOptions, RequestContext, SecurityKeyRecord,
};
pub use pattern::{Capture, Pattern};
pub use protocol::{Command, Response, ServerCommand, ServerResult, SetEntry, Stats};
pub use registry::{
    BatchStoreMatch, ConnectionId, ProviderRegistration, Registry, StoreRegistration,
};
pub use route::{
    validate_context_move, Key, KeyPattern, NamespaceContext, NamespacePattern, Route,
};
pub use security::{
    AuthInfo, AuthLookup, AuthManager, AuthRecord, AuthSource, Operation, Permission,
    PermissionOperation, Role, SimpleAuthenticator, StoreAuthenticator, ValueCipher,
};
pub use store::{CompositeStore, StoredValue};

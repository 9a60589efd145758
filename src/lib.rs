//! Client-side bookkeeping for a display-server connection: the table of
//! server-advertised globals, the dispatcher that keeps it in step with the
//! registry's events, socket path resolution and the wire's C-string form.

mod cstring;
mod dispatch;
mod error;
mod registry;
mod transport;

pub use cstring::{
    c_string_payload, decode_c_string, encode_c_string, lemma_c_string_round_trip,
    wire_c_string,
};
pub use dispatch::{
    apply_all, apply_events, dispatch, lemma_final_names, lemma_removal_of_never_added,
    lemma_unknown_removal_is_harmless,
    live_names, step, step_result, EventView, RegistryEvent,
};
pub use error::ConnectionError;
pub use registry::{
    has_name, index_of, name_set, names_unique, Global, GlobalView, RegistryState,
};
pub use transport::{joined_path, resolve_socket_path};

//! Structured metadata for enumerated error types: a status, a stable code,
//! a message template with named placeholders, and a catalogue of summaries.
//!
//! A declaration of an error type is checked by [`validator::validate`] and
//! turned into an [`descriptor::ErrorType`] by [`descriptor::process`]. A
//! value of such a type reports its status, code, message template and fields
//! through [`ErrorInfo`], which also renders the final message as
//! [`template::render`] does. The summaries of all registered types are
//! listed, sorted, by [`summary`].

pub mod case;
pub mod declaration;
pub mod descriptor;
pub mod registry;
pub mod status;
pub mod template;
pub mod text;
pub mod validator;

pub use descriptor::{ErrorInfo, ErrorInfoSummary};
pub use registry::summary;

//! An adapter that lets a blockchain execution engine (the dispatcher)
//! drive services hosted in a managed foreign runtime. The dispatcher's
//! lifecycle operations are validated and marshaled into `ForeignCall`
//! requests; what the foreign side answers comes back as a `CallOutcome`
//! event, out of which the library builds the dispatcher's structured
//! results: foreign exceptions classified into execution errors, and
//! decoded state hash aggregates. The invocation layer that carries a
//! `ForeignCall` across the boundary and hands back the `CallOutcome` is
//! deliberately outside: everything up to and after that crossing is
//! verified here.
//!
//! - `runtime` — the lifecycle operations: request builders and outcome
//!   interpreters for deploy, query, start, initialize, stop, execute,
//!   state hashing, the commit hooks and API notification.
//! - `exception` — classification of pending foreign exceptions by an
//!   ordered dispatch table, first match wins.
//! - `codec` — the wire codec for the state hash aggregate, with its
//!   round-trip law.
//! - `handles` — the bridge wrapping native views into opaque handles.
//! - `config`, `services`, `vm` — node-side configuration: JVM parameter
//!   validation, the services definition file, JVM option assembly.

use vstd::prelude::*;

mod artifact;
pub mod calls;
pub mod codec;
pub mod config;
pub mod errors;
pub mod exception;
pub mod handles;
pub mod runtime;
pub mod services;
pub mod vm;

pub use artifact::ArtifactId;
pub use artifact::JavaArtifactId;
pub use artifact::JAVA_RUNTIME_ID;
pub use artifact::parse_artifact;


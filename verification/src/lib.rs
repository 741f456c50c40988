//! Developer-tooling support library.
//!
//! Two collaborating mechanisms:
//! - probing an external tool through its text output, with a unified
//!   error classification (`probe`, `system_profile`);
//! - mirroring named template directory trees into a per-user configuration
//!   location (`templates`), computed as an action plan before any
//!   filesystem mutation happens.
//!
//! Process launching and filesystem mutation are left to the host program;
//! this crate holds the decisions: classification, extraction, and planning.

pub mod probe;
pub mod system_profile;
pub mod templates;

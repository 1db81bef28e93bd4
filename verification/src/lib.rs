//! Verified core of a document-serving gateway.
//!
//! The library covers the pieces of the gateway that carry real invariants:
//! sandboxed path resolution with an exclusion policy, construction of
//! ordered directory listings, the decision logic that turns a resolved file
//! into a render plan, and the tiered credential negotiation used to reach
//! the session database.  All I/O (HTTP, filesystem, subprocess, network)
//! stays outside; callers hand the library plain values and get plain values
//! back.

pub mod config;
pub mod errors;
pub mod listing;
pub mod negotiate;
pub mod path_rules;
pub mod render;

pub use config::get_exclude_files;
pub use config::AppState;
pub use config::LoginForm;
pub use path_rules::is_file_name_ignored;
pub use path_rules::is_path_ignored;

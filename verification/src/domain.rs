//! The vocabulary the rest of the crate speaks: identities, versions, and the
//! addon shapes that sources produce and the installer consumes.

pub mod addon;
pub mod expansion;
pub mod folder;
pub mod source_id;
pub mod version;

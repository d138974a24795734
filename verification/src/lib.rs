//! The pre-flight version-compatibility check of a toolchain's command-line
//! front end. Before any build work begins, the toolchain reads the minimum
//! compiler version it was built against out of its own manifest, probes the
//! compiler actually installed on the host, and compares the two: an
//! installed compiler at or below the minimum is accepted silently, a newer
//! one draws a non-fatal warning. The registry of canonical project names
//! that the toolchain builds its paths from sits beside them.

pub mod compat;
pub mod layout;
pub mod manifest;
pub mod probe;
pub mod version;

//! Find-references support for a compiled query-definition program.
//!
//! Given a resolved fragment name, the library walks a compiled program
//! graph collecting every spread of that fragment, then re-anchors each
//! recorded span (relative to an embedded literal) into an absolute
//! editor range in the literal's host file.

pub mod graph;
pub mod references;
pub mod span;

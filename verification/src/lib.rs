//! Verified core of a project-scaffolding tool: it validates a project name,
//! rewrites the package-identity line of a build manifest, and decides how the
//! scaffolding steps follow one another and which failures halt the run.

pub mod flow;
pub mod manifest;
pub mod name;

//! Audits a resolved dependency manifest against a database of security
//! advisories: the database is loaded from a local mirror and checked for
//! freshness, the lockfile is parsed into a dependency list, dependencies are
//! matched against advisories under ignore/arch/os filters, and the matches
//! are aggregated into a deterministic report with a CI-friendly exit code.

pub mod bytes;
pub mod semver;
pub mod vrange;
pub mod advisory;
pub mod lockfile;
pub mod database;
pub mod matcher;
pub mod report;
pub mod parse;
pub mod record;
pub mod config;
pub mod pipeline;

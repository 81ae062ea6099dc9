//! The repository model behind a Git client: the snapshot types, the parsers
//! for what `git` prints, and the rules that decide what an operation does.
pub mod coauthor;
pub mod conflict;
pub mod graph;
pub mod grep;
pub mod logparse;
pub mod oid;
pub mod ops;
pub mod order;
pub mod patch;
pub mod project;
pub mod rebase;
pub mod reflog;
pub mod remote;
pub mod resolve;
pub mod paths;
pub mod rewrite;
pub mod roundtrip;
pub mod status;
pub mod submodule;
pub mod text;
pub mod types;
pub mod watcher;

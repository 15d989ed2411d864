//! Build orchestration for a web-application compiler: route and entrypoint
//! resolution, the endpoint write/change contract, client-reference chunk
//! computation, asset-graph traversal and emission, and manifest assembly.
//!
//! The incremental memoization substrate, the filesystem watcher and the
//! per-module bundler are external collaborators: their results enter the
//! library as plain values, and every decision the library takes on them is
//! verified.

pub mod asset_graph;
pub mod client_reference;
pub mod diagnostics;
pub mod manifests;
pub mod next_build;
pub mod pages;
pub mod paths;
pub mod project;
pub mod route;
pub mod route_table;
pub mod sorted_routes;

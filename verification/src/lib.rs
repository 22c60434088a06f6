//! Metrics of Rust code: the shape of its types, the complexity of its
//! functions and the cohesion of its `impl` blocks, over a corpus of parsed
//! files, as one report.
//!
//! A corpus is a run of syntax trees (`syntax`). A metric family
//! (`metrics`) reads its observations off the nodes of a walk (`walk`,
//! `measure`) and hands them to an observer (`observer`), which keeps them
//! raw or in the buckets of a histogram. The metric of each file is taken by
//! itself, and the metrics of the files combine (`monoid`); a collector
//! (`collector`) binds the two, and the collectors of a report (`registry`)
//! give the values (`value`) that are counted and flattened into dotted
//! paths (`report`, `pathmap`).
//!
//! The two metrics that take more than counting are the cognitive
//! complexity of a function (`complexity`) and the lack of cohesion of the
//! methods of an `impl` block (`metrics::methods`), which counts the
//! connected components of a graph (`graph`).

pub mod collector;
pub mod complexity;
pub mod graph;
pub mod listing;
pub mod measure;
pub mod metrics;
pub mod monoid;
pub mod observer;
pub mod pathmap;
pub mod registry;
pub mod repo;
pub mod report;
pub mod spaces;
pub mod span;
pub mod syntax;
pub mod value;
pub mod walk;

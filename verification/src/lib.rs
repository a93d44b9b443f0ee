//! Audit of the third-party actions that a GitHub Actions workflow uses.
//!
//! The library reads a workflow, walks the graph of the actions and
//! reusable workflows it uses, breadth first, runs an ordered list of
//! stages over every node, and returns a tree of findings. It sends no
//! request itself: a stage that needs the network says what to fetch and
//! is handed the answer.
//!
//! - [`action_ref`], [`workflow`], [`audit`], [`warnings`]: references,
//!   their extraction from YAML, the roots of an audit, and what a user
//!   is told about a document read in part.
//! - [`stage`], [`stages`], [`pipeline`], [`context`]: the stages and the
//!   state they work on.
//! - [`walker`], [`forest`], [`lineage`]: the traversal, and what holds of
//!   its result.
//! - [`advisory`], [`providers`], [`ghsa`], [`osv`], [`scan`], [`deps`],
//!   [`github`]: advisories and the answers of their sources.
//! - [`output`], [`output_json`]: the result tree and its two forms.
//! - [`depth`], [`selection`], [`index_set`]: the options of an audit.
//! - [`yaml`], [`json`], [`text`], [`order`]: documents and texts.
pub mod action_ref;
pub mod advisory;
pub mod audit;
pub mod context;
pub mod deps;
pub mod depth;
pub mod forest;
pub mod ghsa;
pub mod github;
pub mod index_set;
pub mod json;
pub mod lineage;
pub mod order;
pub mod osv;
pub mod output;
pub mod output_json;
pub mod pipeline;
pub mod providers;
pub mod scan;
pub mod selection;
pub mod stage;
pub mod stages;
pub mod text;
pub mod walker;
pub mod warnings;
pub mod workflow;
pub mod yaml;

//! Application and ApplicationSet resources out of Kubernetes manifests,
//! patched so that they can be rendered against a branch.
//!
//! The texts of the manifest files are split into documents, each document
//! is read as a tree, the Application and ApplicationSet resources that the
//! selector keeps are patched, and the result is written out as one stream
//! of YAML documents.

pub mod classify;
pub mod files;
pub mod laws;
pub mod patch;
pub mod pipeline;
pub mod selector;
pub mod split;
pub mod tree;
pub mod yaml;

pub use classify::{get_applications, Application, ApplicationKind, K8sResource};
pub use pipeline::{
    get_applications_as_string, parse_yaml, patch_applications, SerializationError, SourceFile,
};
pub use selector::{Operator, Selector};
pub use tree::Node;

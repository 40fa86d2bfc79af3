//! Typed, hierarchical resource identifiers: pattern compilation, annotation
//! decoding, model building, matching and source emission.

pub mod codegen;
pub mod descriptor;
pub mod emit_rust;
pub mod emit_text;
pub mod error;
pub mod matching;
pub mod model;
pub mod names;
pub mod options;
pub mod parse_descriptor;
pub mod pattern;
pub mod resource_id;
pub mod schema;
pub mod text;
pub mod traits;

pub use codegen::{GenerationRequest, GenerationResponse, OutputFile, ResourceCodegen};
pub use emit_rust::EmitRust;
pub use error::{BuildError, ParseError};
pub use model::{ParentLink, Reference, Registry, Resource, ResourceBranch, ResourceShape};
pub use names::{
    BucketName, DatabaseName, DocumentName, InstanceName, ObjectName, ProjectName, TopicName,
    UserName,
};
pub use options::ResourceCodegenOptions;
pub use parse_descriptor::{
    ParsedFileResources, ParsedResource, ParsedResourceReference, ResourceParser,
};
pub use pattern::{ResourcePattern, ResourcePatternComponent};
pub use resource_id::ResourceId;
pub use schema::{SchemaField, SchemaFile, SchemaMessage, SchemaOption};
pub use traits::{Format, ResourceName, ResourceNameExt, Validate};

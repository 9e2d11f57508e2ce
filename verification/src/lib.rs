//! Streaming GML reading: namespaces, feature splitting, version detection,
//! typed values and the decisions of the read pipeline.

pub mod text;
pub mod ns;
pub mod qname;

pub use qname::QName;
pub mod namespace;

pub use namespace::NamespaceContext;
pub mod version;

pub use version::{Dialect, GmlVersion};
pub mod location;

pub use location::{Location, SourceId};
pub mod error;

pub use error::Error;
pub mod scan;
pub mod attributes;
pub mod chunk;

pub use chunk::{FeatureChunk, RawElement};
pub mod splitter;

pub use splitter::{DocumentHeader, FeatureSplitter, MemberRule, Poll, SplitterOptions};
pub mod report;

pub use report::{ReadReport, Warning, WarningKind};
pub mod overflow;

pub use overflow::OverflowCollector;
pub mod feature;

pub use feature::{FeatureOutcome, GeometryKind, OnFeatureError};
pub mod pipeline;

pub use pipeline::LayerSelector;
pub mod route;

pub use route::Step;
pub mod settings;

pub use settings::ColumnSpec;
pub mod args;

pub use args::{AxisMode, InputArgs, OutputArgs, OutputFormat, Preset};
pub mod decode;

pub use decode::{Compression, detect_compression};
pub mod glob;
pub mod archive;

pub use archive::{MemberInfo, expand, split_member_path};
pub mod source;

pub use source::Source;
pub mod value;
pub mod reader;
pub mod row;
pub mod wkb;
pub mod element;

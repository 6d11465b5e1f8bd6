//! Document conversion to Markdown: detection, conversion to one document
//! model, and rendering, each proved against what it is meant to do.

use vstd::prelude::*;

pub mod archive;
pub mod bytes;
pub mod chars;
pub mod config;
pub mod converters;
pub mod cx;
pub mod detect;
pub mod disclosure;
pub mod engine;
pub mod error;
pub mod fidelity;
pub mod guarantees;
pub mod ir;
pub mod markdown;
pub mod registry;
pub mod render;
pub mod spacing;
pub mod stream_info;
pub mod template;
pub mod text;

pub use config::{ConvertOptions, FormatSelection, TemplateSpec};
pub use converters::extract::{Extracted, Extractor};
pub use cx::{Budget, ConvertCx, Limits};
pub use detect::{Detection, Signal, detect};
pub use engine::{Conversion, Engine};
pub use error::{ConvertError, Warning, WarningKind};
pub use ir::{Block, Document, Image, ImageRef, Inline, Metadata, Span, Table};
pub use registry::{Converter, ConverterRegistry, PRIORITY_GENERIC, PRIORITY_SPECIFIC};
pub use render::{FrontMatter, RenderOptions, Rendered, TableStyle};
pub use stream_info::{Probe, StreamInfo};
pub use template::{Parsed, RenderExtras, Templates, Written};

verus! {

/// The names of the library's own converters, in the order in which they are
/// tried.
#[must_use]
pub fn available_formats() -> (r: Vec<&'static str>)
    ensures
        registry::strs(r@) == converters::builtin::order_names(),
{
    converters::builtin::builtin_names()
}

} // verus!

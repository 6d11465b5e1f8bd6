//! What a caller can ask for.

use vstd::prelude::*;
use crate::cx;
use crate::cx::Limits;
use crate::render;
use crate::render::RenderOptions;

verus! {

/// Everything an engine is built from.
#[derive(Debug, Clone, PartialEq, Eq)]
pub struct ConvertOptions {
    pub limits: Limits,
    pub output: RenderOptions,
    pub formats: FormatSelection,
    pub templates: Option<TemplateSpec>,
}

/// Which converters may run.
#[derive(Debug, Clone, PartialEq, Eq)]
pub struct FormatSelection {
    /// Only these, where given.
    pub enable: Option<Vec<String>>,
}

/// Operator-supplied templates.
#[derive(Debug, Clone, PartialEq, Eq)]
pub struct TemplateSpec {
    /// Wraps the whole document.
    pub document: Option<String>,
    /// One template for each kind of block: the kind's name and the source.
    pub blocks: Vec<(String, String)>,
}

impl Default for ConvertOptions {
    fn default() -> (r: Self)
        ensures
            r.limits == cx::default_limits(),
            r.output == render::default_options(),
            r.formats.enable is None,
            r.templates is None,
    {
        ConvertOptions {
            limits: Limits::default(),
            output: RenderOptions::default(),
            formats: FormatSelection::default(),
            templates: None,
        }
    }
}

impl Default for FormatSelection {
    fn default() -> (r: Self)
        ensures
            r.enable is None,
    {
        FormatSelection { enable: None }
    }
}

impl Default for TemplateSpec {
    fn default() -> (r: Self)
        ensures
            r.document is None,
            r.blocks@.len() == 0,
    {
        TemplateSpec { document: None, blocks: Vec::new() }
    }
}

impl TemplateSpec {
    /// Nothing is templated.
    #[must_use]
    pub fn is_empty(&self) -> (r: bool)
        ensures
            r == (self.document is None && self.blocks@.len() == 0),
    {
        self.document.is_none() && self.blocks.len() == 0
    }
}

} // verus!

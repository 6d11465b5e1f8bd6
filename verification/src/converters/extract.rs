//! What the host reads on the library's behalf.

use minijinja::Environment;
use serde_json::Value;
use vstd::prelude::*;
use crate::converters::json;
use crate::converters::json::JsonV;
use crate::converters::media;
use crate::converters::media::{AudioRead, AudioReadV};
use crate::converters::pdf;
use crate::converters::pdf::{PdfFile, PdfFileV};
use crate::converters::sheet;
use crate::converters::sheet::{Sheet, SheetV};
use crate::template::{Parsed, ParsedV, Written, WrittenV};

verus! {

/// How an extraction ended.
pub enum Extracted<T> {
    Ready(T),
    /// The extractor refused the file, with this message.
    Failed(String),
    /// The extractor panicked, and the host caught it.
    Panicked,
}

/// The value of how an extraction ended.
#[verifier::ext_equal]
pub enum ExtractedV<T> {
    Ready(T),
    Failed(Seq<char>),
    Panicked,
}

pub open spec fn text_view(r: Extracted<String>) -> ExtractedV<Seq<char>> {
    match r {
        Extracted::Ready(s) => ExtractedV::Ready(s@),
        Extracted::Failed(m) => ExtractedV::Failed(m@),
        Extracted::Panicked => ExtractedV::Panicked,
    }
}

/// The host's side of what may panic or overflow the stack: the extractors of
/// some formats on damaged files, and templates that chain too many operators or
/// ask for too much. The host runs them under a guard and hands over what came
/// back. What may come back for an input is the host's own affair; the library
/// holds for all of it.
pub trait Extractor: Copy + Send + Sync {
    /// What loading a PDF file may give.
    open spec fn may_load(&self, bytes: Seq<u8>, r: ExtractedV<PdfFileV>) -> bool {
        arbitrary()
    }

    /// What the pages of a PDF file may give.
    open spec fn may_give_pages(&self, bytes: Seq<u8>, r: ExtractedV<Seq<Seq<char>>>) -> bool {
        arbitrary()
    }

    /// What the sheets of a workbook may give.
    open spec fn may_give_sheets(&self, bytes: Seq<u8>, r: ExtractedV<Seq<SheetV>>) -> bool {
        arbitrary()
    }

    /// What an HTML text may become.
    open spec fn may_give_markdown(&self, html: Seq<char>, r: ExtractedV<Seq<char>>) -> bool {
        arbitrary()
    }

    /// What reading an audio file may give.
    open spec fn may_give_audio(&self, bytes: Seq<u8>, r: ExtractedV<AudioReadV>) -> bool {
        arbitrary()
    }

    /// What adding a template to an environment may give, and leave of it.
    open spec fn may_add(
        &self,
        env: Environment<'static>,
        name: Seq<char>,
        source: Seq<char>,
        after: Environment<'static>,
        r: ParsedV,
    ) -> bool {
        arbitrary()
    }

    /// What running a template on a context may write.
    open spec fn may_write(
        &self,
        env: Environment<'static>,
        name: Seq<char>,
        context: JsonV,
        r: WrittenV,
    ) -> bool {
        arbitrary()
    }

    /// Loads a PDF file: whether it is encrypted, and its information.
    fn pdf_file(&self, bytes: &[u8]) -> (r: Extracted<PdfFile>)
        ensures
            self.may_load(bytes@, pdf::file_view(r)),
    ;

    /// The text of a PDF file's pages, one by one.
    fn pdf_pages(&self, bytes: &[u8]) -> (r: Extracted<Vec<String>>)
        ensures
            self.may_give_pages(bytes@, pdf::pages_view(r)),
    ;

    /// The sheets of a workbook, one by one.
    fn sheets(&self, bytes: &[u8]) -> (r: Extracted<Vec<Sheet>>)
        ensures
            self.may_give_sheets(bytes@, sheet::opened_view(r)),
    ;

    /// The Markdown of an HTML text.
    fn markdown(&self, html: &str) -> (r: Extracted<String>)
        ensures
            self.may_give_markdown(html@, text_view(r)),
    ;

    /// What an audio file says about itself.
    fn audio(&self, bytes: &[u8]) -> (r: Extracted<AudioRead>)
        ensures
            self.may_give_audio(bytes@, media::read_view(r)),
    ;

    /// Parses a template and adds it to an environment.
    fn add_template(
        &self,
        env: &mut Environment<'static>,
        name: &str,
        source: &str,
    ) -> (r: Parsed)
        ensures
            self.may_add(*old(env), name@, source@, *final(env), r@),
    ;

    /// Runs one of an environment's templates on a context.
    fn write(&self, env: &Environment<'static>, name: &str, context: &Value) -> (r: Written)
        ensures
            self.may_write(*env, name@, json::json_of(*context), r@),
    ;
}

} // verus!

//! Errors and warnings.

use vstd::prelude::*;
use crate::chars;
use crate::text;
use crate::text::IntoText;

verus! {

/// Why a conversion produced nothing.
#[derive(Debug)]
pub enum ConvertError {
    /// No registered converter accepted the input.
    Unsupported { tried: String },
    /// A converter accepted the input and could not parse it.
    Malformed { format: &'static str, message: String },
    /// The input is password-protected.
    Encrypted { format: &'static str },
    /// A budget ran out.
    LimitExceeded { limit: &'static str, actual: u64, allowed: u64 },
    /// A converter panicked.
    ConverterPanic { format: &'static str },
    /// A template failed to compile or render.
    Template { stage: &'static str, message: String },
    /// The caller asked for something this build cannot do.
    InvalidInput(String),
}

/// The value of a [`ConvertError`].
#[verifier::ext_equal]
pub enum ErrorV {
    Unsupported { tried: Seq<char> },
    Malformed { format: Seq<char>, message: Seq<char> },
    Encrypted { format: Seq<char> },
    LimitExceeded { limit: Seq<char>, actual: u64, allowed: u64 },
    ConverterPanic { format: Seq<char> },
    Template { stage: Seq<char>, message: Seq<char> },
    InvalidInput(Seq<char>),
}

impl View for ConvertError {
    type V = ErrorV;

    open spec fn view(&self) -> ErrorV {
        match self {
            ConvertError::Unsupported { tried } => ErrorV::Unsupported { tried: tried@ },
            ConvertError::Malformed { format, message } => ErrorV::Malformed {
                format: format@,
                message: message@,
            },
            ConvertError::Encrypted { format } => ErrorV::Encrypted { format: format@ },
            ConvertError::LimitExceeded { limit, actual, allowed } => ErrorV::LimitExceeded {
                limit: limit@,
                actual: *actual,
                allowed: *allowed,
            },
            ConvertError::ConverterPanic { format } => ErrorV::ConverterPanic { format: format@ },
            ConvertError::Template { stage, message } => ErrorV::Template {
                stage: stage@,
                message: message@,
            },
            ConvertError::InvalidInput(s) => ErrorV::InvalidInput(s@),
        }
    }
}

impl ErrorV {
    /// The stable machine-readable name of the error.
    pub open spec fn code(self) -> Seq<char> {
        match self {
            ErrorV::Unsupported { .. } => "unsupported"@,
            ErrorV::Malformed { .. } => "malformed"@,
            ErrorV::Encrypted { .. } => "encrypted"@,
            ErrorV::LimitExceeded { .. } => "limit_exceeded"@,
            ErrorV::ConverterPanic { .. } => "panic"@,
            ErrorV::Template { .. } => "template"@,
            ErrorV::InvalidInput(_) => "invalid_input"@,
        }
    }

    /// The sentence shown to people.
    pub open spec fn message(self) -> Seq<char> {
        match self {
            ErrorV::Unsupported { tried } => "unsupported format (tried: "@ + tried + ")"@,
            ErrorV::Malformed { format, message } => format + ": malformed input — "@ + message,
            ErrorV::Encrypted { format } => format + ": input is encrypted or password-protected"@,
            ErrorV::LimitExceeded { limit, actual, allowed } => "limit exceeded: "@ + limit + " ("@
                + chars::decimal(actual as nat) + " > "@ + chars::decimal(allowed as nat) + ")"@,
            ErrorV::ConverterPanic { format } => format + ": converter panicked"@,
            ErrorV::Template { stage, message } => "template "@ + stage + ": "@ + message,
            ErrorV::InvalidInput(s) => "invalid input: "@ + s,
        }
    }
}

impl ConvertError {
    /// The stable machine-readable name of the error.
    #[must_use]
    pub fn code(&self) -> (r: &'static str)
        ensures
            r@ == self@.code(),
    {
        match self {
            ConvertError::Unsupported { .. } => "unsupported",
            ConvertError::Malformed { .. } => "malformed",
            ConvertError::Encrypted { .. } => "encrypted",
            ConvertError::LimitExceeded { .. } => "limit_exceeded",
            ConvertError::ConverterPanic { .. } => "panic",
            ConvertError::Template { .. } => "template",
            ConvertError::InvalidInput(_) => "invalid_input",
        }
    }

    /// The sentence shown to people.
    pub fn to_string(&self) -> (r: String)
        ensures
            r@ == self@.message(),
    {
        match self {
            ConvertError::Unsupported { tried } => text::cat3(
                "unsupported format (tried: ",
                tried,
                ")",
            ),
            ConvertError::Malformed { format, message } => text::cat3(
                format,
                ": malformed input — ",
                message,
            ),
            ConvertError::Encrypted { format } => text::cat(
                format,
                ": input is encrypted or password-protected",
            ),
            ConvertError::LimitExceeded { limit, actual, allowed } => {
                let mut r = text::cat3("limit exceeded: ", limit, " (");
                let a = text::decimal(*actual);
                let b = text::decimal(*allowed);
                r.append(a.as_str());
                r.append(" > ");
                r.append(b.as_str());
                r.append(")");
                r
            },
            ConvertError::ConverterPanic { format } => text::cat(format, ": converter panicked"),
            ConvertError::Template { stage, message } => {
                let mut r = text::cat3("template ", stage, ": ");
                r.append(message.as_str());
                r
            },
            ConvertError::InvalidInput(s) => text::cat("invalid input: ", s),
        }
    }
}

/// Something the converter wants known about a conversion that went through.
#[derive(Debug, PartialEq, Eq)]
pub struct Warning {
    pub kind: WarningKind,
    pub message: String,
}

/// The value of a [`Warning`].
#[verifier::ext_equal]
pub struct WarningV {
    pub kind: WarningKind,
    pub message: Seq<char>,
}

impl View for Warning {
    type V = WarningV;

    open spec fn view(&self) -> WarningV {
        WarningV { kind: self.kind, message: self.message@ }
    }
}

/// The values of a list of warnings.
pub open spec fn warnings_view(s: Seq<Warning>) -> Seq<WarningV> {
    Seq::new(s.len(), |i: int| s[i]@)
}

impl Clone for Warning {
    fn clone(&self) -> (r: Self)
        ensures
            r@ == self@,
    {
        Warning { kind: self.kind, message: self.message.clone() }
    }
}

impl Warning {
    pub fn new<T: IntoText>(kind: WarningKind, message: T) -> (r: Self)
        ensures
            r@ == (WarningV { kind, message: message.text() }),
    {
        Warning { kind, message: message.into_text() }
    }
}

/// A copy of a list of warnings.
pub fn clone_warnings(w: &Vec<Warning>) -> (r: Vec<Warning>)
    ensures
        warnings_view(r@) == warnings_view(w@),
{
    let mut out: Vec<Warning> = Vec::new();
    append_warnings(&mut out, w);
    assert(warnings_view(out@) =~= warnings_view(w@));
    out
}

/// Adds copies of the warnings in `more`.
pub fn append_warnings(to: &mut Vec<Warning>, more: &Vec<Warning>)
    ensures
        warnings_view(final(to)@) == warnings_view(old(to)@) + warnings_view(more@),
{
    let ghost start = to@;
    let mut i: usize = 0;
    assert(warnings_view(more@.take(0)) =~= Seq::empty());
    assert(warnings_view(to@) =~= warnings_view(start) + warnings_view(more@.take(0)));
    while i < more.len()
        invariant
            i <= more@.len(),
            warnings_view(to@) == warnings_view(start) + warnings_view(more@.take(i as int)),
        decreases more@.len() - i,
    {
        let ghost before = to@;
        let w = more[i].clone();
        to.push(w);
        i += 1;
        proof {
            assert(warnings_view(to@) =~= warnings_view(before).push(w@));
            assert(warnings_view(more@.take(i as int)) =~= warnings_view(more@.take(i - 1)).push(
                more@[i - 1]@,
            ));
            assert(warnings_view(to@) =~= warnings_view(start) + warnings_view(
                more@.take(i as int),
            ));
        }
    }
    assert(more@.take(more@.len() as int) =~= more@);
}

/// What a warning is about.
#[derive(Debug, Clone, Copy, PartialEq, Eq, Structural)]
pub enum WarningKind {
    /// Output was cut at a limit.
    Truncated,
    /// A container member was not converted.
    SkippedMember,
    /// Something was expressed less exactly than in the source.
    Degraded,
    /// Structure was guessed.
    HeuristicApplied,
    /// There was no text to extract.
    NoTextLayer,
    /// Optional extra information could not be read.
    EnrichmentFailed,
    /// The declared type disagrees with the content.
    TypeMismatch,
}

impl WarningKind {
    pub open spec fn name(self) -> Seq<char> {
        match self {
            WarningKind::Truncated => "truncated"@,
            WarningKind::SkippedMember => "skipped_member"@,
            WarningKind::Degraded => "degraded"@,
            WarningKind::HeuristicApplied => "heuristic_applied"@,
            WarningKind::NoTextLayer => "no_text_layer"@,
            WarningKind::EnrichmentFailed => "enrichment_failed"@,
            WarningKind::TypeMismatch => "type_mismatch"@,
        }
    }

    #[must_use]
    pub fn as_str(&self) -> (r: &'static str)
        ensures
            r@ == self.name(),
    {
        match self {
            WarningKind::Truncated => "truncated",
            WarningKind::SkippedMember => "skipped_member",
            WarningKind::Degraded => "degraded",
            WarningKind::HeuristicApplied => "heuristic_applied",
            WarningKind::NoTextLayer => "no_text_layer",
            WarningKind::EnrichmentFailed => "enrichment_failed",
            WarningKind::TypeMismatch => "type_mismatch",
        }
    }
}

} // verus!

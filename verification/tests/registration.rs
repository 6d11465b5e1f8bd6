//! The order of converters.

use mcpg_markdown_convert::{ConvertCx, ConvertError, Converter, ConverterRegistry, Document};
use mcpg_markdown_convert::{PRIORITY_GENERIC, PRIORITY_SPECIFIC, Probe, StreamInfo};

struct Stub(&'static str, i32);

impl Converter for Stub {
    fn name(&self) -> &'static str {
        self.0
    }
    fn priority(&self) -> i32 {
        self.1
    }
    fn accepts(&self, _p: &Probe<'_>, _i: &StreamInfo) -> bool {
        true
    }
    fn convert(
        &self,
        _b: &[u8],
        _i: &StreamInfo,
        _c: &mut ConvertCx<'_>,
    ) -> Result<Document, ConvertError> {
        Ok(Document::new())
    }
}

fn reg(specs: &[(&'static str, i32)]) -> ConverterRegistry<Stub> {
    let mut r = ConverterRegistry::new();
    for (n, p) in specs {
        r.register(Stub(n, *p));
    }
    r
}

#[test]
fn specific_beats_generic() {
    let r = reg(&[("zip", PRIORITY_GENERIC), ("docx", PRIORITY_SPECIFIC)]);
    assert_eq!(r.names(), vec!["docx", "zip"]);
}

#[test]
fn later_registration_wins_within_a_tier() {
    let r = reg(&[
        ("builtin", PRIORITY_SPECIFIC),
        ("override", PRIORITY_SPECIFIC),
    ]);
    assert_eq!(r.names(), vec!["override", "builtin"]);
}

#[test]
fn retain_applies_an_allowlist() {
    let mut r = reg(&[("a", 0), ("b", 0), ("c", 0)]);
    r.retain_names(&["a".to_owned(), "c".to_owned()]);
    let mut names = r.names();
    names.sort_unstable();
    assert_eq!(names, vec!["a", "c"]);
}

#[test]
fn explicit_priority_overrides_the_declared_one() {
    let mut r = ConverterRegistry::new();
    r.register(Stub("generic", PRIORITY_GENERIC));
    r.register_at(Stub("promoted", PRIORITY_GENERIC), -1);
    assert_eq!(r.names(), vec!["promoted", "generic"]);
}

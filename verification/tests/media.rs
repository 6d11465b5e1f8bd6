//! Images and audio.

use lofty::file::{AudioFile, TaggedFileExt};
use lofty::tag::ItemKey;
use mcpg_markdown_convert::converters::media::{AudioConverter, ImageConverter};
use mcpg_markdown_convert::converters::media::{AudioFacts, AudioRead};
use mcpg_markdown_convert::converters::pdf::PdfFile;
use mcpg_markdown_convert::converters::sheet::Sheet;
use mcpg_markdown_convert::{Block, ImageRef, Probe, WarningKind};
use mcpg_markdown_convert::{Budget, ConvertCx, Limits};
use mcpg_markdown_convert::{Converter, Document, StreamInfo};
use mcpg_markdown_convert::{Extracted, Extractor, Parsed, Written};
use std::io::Cursor;

/// Reads audio files and does nothing else.
#[derive(Clone, Copy)]
struct Host;

impl Extractor for Host {
    fn pdf_file(&self, _bytes: &[u8]) -> Extracted<PdfFile> {
        Extracted::Panicked
    }

    fn pdf_pages(&self, _bytes: &[u8]) -> Extracted<Vec<String>> {
        Extracted::Panicked
    }

    fn sheets(&self, _bytes: &[u8]) -> Extracted<Vec<Sheet>> {
        Extracted::Panicked
    }

    fn markdown(&self, _html: &str) -> Extracted<String> {
        Extracted::Panicked
    }

    fn audio(&self, bytes: &[u8]) -> Extracted<AudioRead> {
        let probe = match lofty::probe::Probe::new(Cursor::new(bytes)).guess_file_type() {
            Ok(p) => p,
            Err(e) => return Extracted::Failed(e.to_string()),
        };
        if probe.file_type().is_none() {
            return Extracted::Ready(AudioRead::Unknown);
        }
        let file = match probe.read() {
            Ok(f) => f,
            Err(e) => return Extracted::Ready(AudioRead::Unread(e.to_string())),
        };
        let tag = file.primary_tag().or_else(|| file.first_tag());
        let text = |key: ItemKey| tag.and_then(|t| t.get_string(key)).map(str::to_owned);
        let p = file.properties();
        Extracted::Ready(AudioRead::Read(AudioFacts {
            seconds: p.duration().as_secs(),
            bitrate: p.audio_bitrate(),
            sample_rate: p.sample_rate(),
            title: text(ItemKey::TrackTitle),
            artist: text(ItemKey::TrackArtist),
            album: text(ItemKey::AlbumTitle),
            date: text(ItemKey::RecordingDate),
            comment: text(ItemKey::Comment),
        }))
    }

    fn add_template(
        &self,
        _env: &mut minijinja::Environment<'static>,
        _name: &str,
        _source: &str,
    ) -> Parsed {
        Parsed::Panicked
    }

    fn write(
        &self,
        _env: &minijinja::Environment<'static>,
        _name: &str,
        _context: &serde_json::Value,
    ) -> Written {
        Written::Panicked
    }
}

fn convert(c: &dyn Converter, bytes: &[u8], info: &StreamInfo) -> Document {
    let mut b = Budget::new(Limits::default());
    let mut cx = ConvertCx::new(&mut b);
    c.convert(bytes, info, &mut cx).expect("converts")
}

/// A 1×1 PNG. No EXIF, which is the common case for generated images.
fn png() -> Vec<u8> {
    vec![
        0x89, b'P', b'N', b'G', 0x0D, 0x0A, 0x1A, 0x0A, 0x00, 0x00, 0x00, 0x0D, b'I', b'H',
        b'D', b'R', 0x00, 0x00, 0x00, 0x01, 0x00, 0x00, 0x00, 0x01, 0x08, 0x06, 0x00, 0x00,
        0x00, 0x1F, 0x15, 0xC4, 0x89, 0x00, 0x00, 0x00, 0x00, b'I', b'E', b'N', b'D', 0xAE,
        0x42, 0x60, 0x82,
    ]
}

#[test]
fn an_image_yields_an_image_block_for_enrichment_to_find() {
    let info = StreamInfo::new().with_filename("photo.png");
    let doc = convert(&ImageConverter, &png(), &info);
    assert!(
        doc.blocks.iter().any(|b| matches!(b, Block::Image(_))),
        "{:?}",
        doc.blocks
    );
}

#[test]
fn a_resource_uri_reaches_the_image_block_so_enrichment_can_fetch_it() {
    let info = StreamInfo::new()
        .with_filename("photo.png")
        .with_url("mcpg-resource://hash:abc");
    let doc = convert(&ImageConverter, &png(), &info);
    match doc.blocks.iter().find_map(|b| match b {
        Block::Image(i) => Some(&i.source),
        _ => None,
    }) {
        Some(ImageRef::Resource(u)) => assert_eq!(u, "mcpg-resource://hash:abc"),
        other => panic!("{other:?}"),
    }
}

#[test]
fn a_metadata_only_conversion_says_so() {
    let info = StreamInfo::new().with_filename("photo.png");
    let doc = convert(&ImageConverter, &png(), &info);
    assert!(
        doc.warnings.iter().any(|w| w.kind == WarningKind::Degraded),
        "a metadata-only image conversion must not look like a full one"
    );
}

#[test]
fn broken_exif_does_not_fail_the_conversion() {
    let mut bytes = png();
    bytes.extend_from_slice(b"\xFF\xE1\x00\x10Exif\x00\x00garbage");
    let info = StreamInfo::new().with_filename("photo.png");
    let doc = convert(&ImageConverter, &bytes, &info);
    assert!(doc.blocks.iter().any(|b| matches!(b, Block::Image(_))));
}

#[test]
fn images_are_matched_by_mime_or_by_extension_plus_binary_content() {
    let bytes = png();
    let bin = Probe::new(&bytes);
    assert!(ImageConverter.accepts(&bin, &StreamInfo::new().with_mimetype("image/png")));
    assert!(ImageConverter.accepts(&bin, &StreamInfo::new().with_extension("png")));
    // A text file named .png is not an image.
    assert!(!ImageConverter.accepts(
        &Probe::new(b"plain text"),
        &StreamInfo::new().with_extension("png")
    ));
}

#[test]
fn audio_declines_text_and_accepts_by_mime() {
    assert!(AudioConverter(Host).accepts(
        &Probe::new(&[0xFF, 0xFB, 0x00]),
        &StreamInfo::new().with_mimetype("audio/mpeg")
    ));
    assert!(!AudioConverter(Host).accepts(
        &Probe::new(b"not audio"),
        &StreamInfo::new().with_extension("mp3")
    ));
}

#[test]
fn unreadable_audio_is_malformed_not_a_panic() {
    let mut b = Budget::new(Limits::default());
    let mut cx = ConvertCx::new(&mut b);
    let e = AudioConverter(Host).convert(&[0u8; 32], &StreamInfo::new().with_extension("mp3"), &mut cx);
    assert!(e.is_err(), "garbage must not convert");
}

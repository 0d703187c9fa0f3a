//! Aseprite documents read from their bytes.

use dimetric::assets::aseprite::{clip_from_range, import_aseprite, Playback};
use dimetric::assets::image::ImageError;

fn word(out: &mut Vec<u8>, v: u16) {
    out.extend_from_slice(&v.to_le_bytes());
}

fn dword(out: &mut Vec<u8>, v: u32) {
    out.extend_from_slice(&v.to_le_bytes());
}

/// A 32-bit RGBA document of the given canvas with no layers, one frame a
/// duration.
fn document(width: u16, height: u16, durations: &[u16]) -> Vec<u8> {
    let mut out = Vec::new();
    dword(&mut out, (128 + 16 * durations.len()) as u32);
    word(&mut out, 0xA5E0);
    word(&mut out, durations.len() as u16);
    word(&mut out, width);
    word(&mut out, height);
    word(&mut out, 32);
    dword(&mut out, 1);
    word(&mut out, 100);
    dword(&mut out, 0);
    dword(&mut out, 0);
    out.push(0);
    out.push(0);
    word(&mut out, 0);
    word(&mut out, 0);
    out.push(1);
    out.push(1);
    word(&mut out, 0);
    word(&mut out, 0);
    word(&mut out, 16);
    word(&mut out, 16);
    out.extend_from_slice(&[0u8; 84]);
    assert_eq!(out.len(), 128);
    for &ms in durations {
        dword(&mut out, 16);
        word(&mut out, 0xF1FA);
        word(&mut out, 0);
        word(&mut out, ms);
        word(&mut out, 0);
        dword(&mut out, 0);
    }
    out
}

#[test]
fn an_untagged_document_imports_as_a_strip_with_one_default_clip() {
    let bytes = document(2, 1, &[100, 50]);
    let doc = import_aseprite("coin.aseprite", &bytes, 60).expect("a well-formed document imports");
    assert_eq!(doc.frame_width, 2);
    assert_eq!(doc.frame_height, 1);
    assert_eq!(doc.frame_count, 2);
    assert_eq!((doc.sheet.width, doc.sheet.height), (4, 1));
    assert_eq!(doc.sheet.pixels, vec![0u8; 16]);
    assert_eq!(doc.clips.len(), 1);
    let clip = &doc.clips[0];
    assert_eq!(clip.name, "default");
    assert!(clip.looping);
    let frames: Vec<(u32, u32)> = clip.frames.iter().map(|f| (f.index, f.ticks)).collect();
    assert_eq!(frames, vec![(0, 6), (1, 3)]);
}

#[test]
fn bytes_that_are_not_a_document_fail_to_decode_naming_the_file() {
    match import_aseprite("broken.aseprite", b"not an aseprite file at all", 60) {
        Err(ImageError::Decode { path, detail }) => {
            assert_eq!(path, "broken.aseprite");
            assert!(!detail.is_empty());
        }
        other => panic!("expected a decode error, got {other:?}"),
    }
}

#[test]
fn a_fast_tick_rate_still_converts_the_default_duration() {
    let clip = clip_from_range("spin", 0, 0, Playback::Forward, &[], 0x8000_0000);
    assert_eq!(clip.frames.len(), 1);
    assert_eq!(clip.frames[0].ticks, 214_748_365);
}

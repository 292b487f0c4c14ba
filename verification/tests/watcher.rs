use superclip::hash::hash_bytes;
use superclip::images::encode_png;
use superclip::watcher::{CaptureState, ImageStep, TextStep};

fn png_2x3() -> Vec<u8> {
    encode_png(2, 3, &[200; 24]).unwrap()
}

#[test]
fn clipboard_text_is_trimmed_and_blank_text_is_none() {
    assert_eq!(CaptureState::clean_text(Some("  hi there \n".to_string())).as_deref(), Some("hi there"));
    assert_eq!(CaptureState::clean_text(Some(" \t\n ".to_string())), None);
    assert_eq!(CaptureState::clean_text(Some(String::new())), None);
    assert_eq!(CaptureState::clean_text(None), None);
}

#[test]
fn the_same_text_is_recorded_once() {
    let mut state = CaptureState::new();
    match state.on_text(Some("hello".to_string())) {
        TextStep::Fresh(t) => {
            assert_eq!(t, "hello");
            assert!(state.finish_text(t, false));
        }
        other => panic!("expected fresh text, got {other:?}"),
    }
    assert!(matches!(state.on_text(Some("hello".to_string())), TextStep::Unchanged));
    assert!(matches!(state.on_text(Some("world".to_string())), TextStep::Fresh(_)));
}

#[test]
fn text_that_names_an_image_is_not_recorded_as_text() {
    let mut state = CaptureState::new();
    assert!(!state.finish_text("file:///tmp/a.png".to_string(), true));
    assert_eq!(state.last_text.as_deref(), Some("file:///tmp/a.png"));
}

#[test]
fn an_empty_clipboard_forgets_the_last_text() {
    let mut state = CaptureState::new();
    state.finish_text("x".to_string(), false);
    assert!(matches!(state.on_text(None), TextStep::Absent));
    assert_eq!(state.last_text, None);
    assert!(matches!(state.on_text(Some("x".to_string())), TextStep::Fresh(_)));
}

#[test]
fn a_new_image_is_recorded_once_with_its_size() {
    let png = png_2x3();
    let mut state = CaptureState::new();
    match state.check_image(&png, None) {
        ImageStep::Fresh { hash, width, height, name } => {
            assert_eq!(hash, hash_bytes(&png));
            assert_eq!((width, height), (2, 3));
            assert_eq!(name, "Image");
        }
        other => panic!("expected a fresh image, got {other:?}"),
    }
    assert_eq!(state.last_image_hash, Some(hash_bytes(&png)));
    assert!(matches!(state.check_image(&png, Some("again.png".to_string())), ImageStep::Repeat));
}

#[test]
fn a_named_image_keeps_its_name() {
    let png = png_2x3();
    let mut state = CaptureState::new();
    match state.check_image(&png, Some("shot.png".to_string())) {
        ImageStep::Fresh { name, .. } => assert_eq!(name, "shot.png"),
        other => panic!("expected a fresh image, got {other:?}"),
    }
}

#[test]
fn an_image_whose_size_cannot_be_read_is_skipped() {
    let mut state = CaptureState::new();
    assert!(matches!(state.check_image(b"junk", None), ImageStep::Unreadable));
    assert_eq!(state.last_image_hash, None);
}

#[test]
fn text_makes_a_seen_image_fresh_again() {
    let png = png_2x3();
    let mut state = CaptureState::new();
    assert!(matches!(state.check_image(&png, None), ImageStep::Fresh { .. }));
    if let TextStep::Fresh(t) = state.on_text(Some("note".to_string())) {
        state.finish_text(t, false);
    }
    assert_eq!(state.last_image_hash, None);
    assert!(matches!(state.check_image(&png, None), ImageStep::Fresh { .. }));
}

#[test]
fn unchanged_text_also_forgets_the_image() {
    let png = png_2x3();
    let mut state = CaptureState::new();
    state.finish_text("same".to_string(), false);
    assert!(matches!(state.check_image(&png, None), ImageStep::Fresh { .. }));
    assert!(matches!(state.on_text(Some("same".to_string())), TextStep::Unchanged));
    assert_eq!(state.last_image_hash, None);
}

#[test]
fn no_image_on_the_clipboard_forgets_the_last_one() {
    let png = png_2x3();
    let mut state = CaptureState::new();
    state.check_image(&png, None);
    state.image_absent();
    assert_eq!(state.last_image_hash, None);
}

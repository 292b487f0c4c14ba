use superclip::clipboard::{
    advertised_raster_types, backend_for_session, checked_image_name_from_uri_list,
    escape_splits_char, file_name, file_uri_splits_char, first_supported_image_type,
    image_name_from_files, image_name_from_uri_list, image_path_in_line, is_image_file,
    looks_like_path, offers_target, percent_decode, percent_decode_bytes, same_chars, split_on,
    text_lines, SessionBackend,
};

fn chars(s: &str) -> Vec<char> {
    s.chars().collect()
}

#[test]
fn percent_escapes_decode_to_what_the_user_sees() {
    assert_eq!(percent_decode("a%20b"), "a b");
    assert_eq!(percent_decode("%C3%A9t%C3%A9"), "été");
    assert_eq!(percent_decode("my%2fdir"), "my/dir");
    assert_eq!(percent_decode("plain name.png"), "plain name.png");
}

#[test]
fn escapes_that_do_not_parse_are_kept() {
    assert_eq!(percent_decode("%zz"), "%zz");
    assert_eq!(percent_decode("50%"), "50%");
    assert_eq!(percent_decode("%4"), "%4");
    assert_eq!(percent_decode("%%41"), "%A");
}

#[test]
fn only_two_hex_digits_make_an_escape() {
    assert_eq!(percent_decode("%+41"), "%+41");
    assert_eq!(percent_decode("%+5"), "%+5");
    assert_eq!(percent_decode("%-5"), "%-5");
    assert_eq!(percent_decode("%zz1"), "%zz1");
    assert_eq!(percent_decode("100%"), "100%");
    assert_eq!(percent_decode("my%20file.png"), "my file.png");
    assert_eq!(percent_decode("caf%C3%A9"), "café");
}

#[test]
fn invalid_utf8_after_decoding_is_replaced() {
    assert_eq!(percent_decode("%FF"), "\u{FFFD}");
    assert_eq!(percent_decode("hi%ff"), "hi\u{FFFD}");
    assert_eq!(percent_decode("%C3"), "\u{FFFD}");
}

#[test]
fn escape_bytes_decode() {
    assert_eq!(percent_decode_bytes(b"%41%4"), b"A%4".to_vec());
    assert_eq!(percent_decode_bytes(b"%7e%7E"), b"~~".to_vec());
    assert_eq!(percent_decode_bytes(b""), Vec::<u8>::new());
}

#[test]
fn an_escape_that_splits_a_character_is_detected() {
    assert!(escape_splits_char("%a\u{e9}"));
    assert!(!escape_splits_char("%20\u{e9}"));
    assert!(!escape_splits_char("\u{e9}%20"));
    assert!(file_uri_splits_char("file:///x%a\u{e9}"));
    assert!(!file_uri_splits_char("/x%a\u{e9}"));
}

#[test]
fn file_names_follow_path_components() {
    assert_eq!(file_name("/home/u/pic.png").as_deref(), Some("pic.png"));
    assert_eq!(file_name("/home/u/").as_deref(), Some("u"));
    assert_eq!(file_name("pic.png/.").as_deref(), Some("pic.png"));
    assert_eq!(file_name("/"), None);
    assert_eq!(file_name(""), None);
    assert_eq!(file_name("a/.."), None);
}

#[test]
fn image_files_are_told_by_extension_in_any_case() {
    assert!(is_image_file("/x/Photo.JPG"));
    assert!(is_image_file("/x/archive.tar.gif"));
    assert!(is_image_file("scan.TiFf"));
    assert!(!is_image_file("/x/notes.txt"));
    assert!(!is_image_file("/x/.png"));
    assert!(!is_image_file("/x/noext"));
    assert!(!is_image_file("/x/png"));
}

#[test]
fn splitting_keeps_empty_pieces() {
    let parts = split_on(&chars("a/b//c"), '/');
    assert_eq!(parts, vec![chars("a"), chars("b"), chars(""), chars("c")]);
    assert_eq!(split_on(&chars(""), '/'), vec![chars("")]);
    assert!(same_chars(&chars("ab"), &chars("ab")));
    assert!(!same_chars(&chars("ab"), &chars("abc")));
}

#[test]
fn lines_are_split_and_trimmed() {
    assert_eq!(text_lines("  a \n\n b\r\n"), vec!["a", "", "b"]);
    assert_eq!(text_lines(""), Vec::<String>::new());
}

#[test]
fn path_like_text_is_recognized() {
    assert!(looks_like_path("/etc/hosts"));
    assert!(looks_like_path("see file:///x.png"));
    assert!(!looks_like_path("hello"));
    assert!(!looks_like_path(""));
}

#[test]
fn a_line_names_an_image_file() {
    assert_eq!(
        image_path_in_line("file:///tmp/my%20pic.png", false).as_deref(),
        Some("/tmp/my pic.png")
    );
    assert_eq!(image_path_in_line("/tmp/a.png", false), None);
    assert_eq!(image_path_in_line("/tmp/a.png", true).as_deref(), Some("/tmp/a.png"));
    assert_eq!(image_path_in_line("file:///tmp/a.txt", true), None);
    assert_eq!(image_path_in_line("tmp/a.png", true), None);
}

#[test]
fn a_uri_list_prefers_an_image_entry() {
    let listing = "file:///home/u/doc.txt\nfile:///home/u/shot.png\n";
    assert_eq!(image_name_from_uri_list(listing).as_deref(), Some("shot.png"));
    assert_eq!(image_name_from_uri_list("file:///home/u/doc.txt").as_deref(), Some("doc.txt"));
    assert_eq!(
        image_name_from_uri_list("# comment\n  file:///a/b%20c.jpg  ").as_deref(),
        Some("b c.jpg")
    );
    assert_eq!(image_name_from_uri_list("http://x/y.png"), None);
    assert_eq!(image_name_from_uri_list(""), None);
}

#[test]
fn an_unreadable_uri_list_is_reported() {
    assert_eq!(checked_image_name_from_uri_list("file:///x%a\u{e9}"), None);
    assert_eq!(
        checked_image_name_from_uri_list("file:///a/b.png\nfile:///x%a\u{e9}"),
        Some(Some("b.png".to_string()))
    );
    assert_eq!(checked_image_name_from_uri_list("nothing"), Some(None));
}

#[test]
fn the_first_supported_image_type_is_picked() {
    assert_eq!(
        first_supported_image_type("text/plain\nimage/jpeg\nimage/png\n").as_deref(),
        Some("image/jpeg")
    );
    assert_eq!(first_supported_image_type("  image/gif  ").as_deref(), Some("image/gif"));
    assert_eq!(first_supported_image_type("text/plain\nimage/tiff"), None);
}

#[test]
fn targets_are_matched_whole_and_trimmed() {
    assert!(offers_target("TARGETS\nimage/png\n", "image/png"));
    assert!(offers_target("TARGETS\n image/png \n", "image/png"));
    assert!(!offers_target("TARGETS\nimage/pngx\n", "image/png"));
}

#[test]
fn raster_types_come_in_the_order_they_are_tried() {
    assert_eq!(
        advertised_raster_types("TARGETS\nimage/gif\nimage/jpeg\n"),
        vec!["image/jpeg", "image/gif"]
    );
    assert_eq!(advertised_raster_types("TARGETS\nimage/png\n"), Vec::<&str>::new());
    assert_eq!(
        advertised_raster_types("image/tiff\nimage/bmp\nimage/webp"),
        vec!["image/webp", "image/bmp", "image/tiff"]
    );
}

#[test]
fn a_file_list_offers_its_first_image_name() {
    let files = vec!["/a/readme.md".to_string(), "/b/pic.webp".to_string()];
    assert_eq!(image_name_from_files(&files).as_deref(), Some("pic.webp"));
    let plain = vec!["/a/readme.md".to_string(), "/a/other.md".to_string()];
    assert_eq!(image_name_from_files(&plain).as_deref(), Some("readme.md"));
    assert_eq!(image_name_from_files(&vec![]), None);
    assert_eq!(image_name_from_files(&vec!["/".to_string()]), None);
}

#[test]
fn wayland_sessions_use_the_wayland_backend() {
    assert_eq!(backend_for_session(true, Some("wayland")), SessionBackend::Wayland);
    assert_eq!(backend_for_session(true, Some("x11")), SessionBackend::X11);
    assert_eq!(backend_for_session(true, Some("tty")), SessionBackend::X11);
    assert_eq!(backend_for_session(true, Some("Wayland")), SessionBackend::X11);
    assert_eq!(backend_for_session(true, None), SessionBackend::X11);
}

#[test]
fn other_systems_always_use_the_default_backend() {
    assert_eq!(backend_for_session(false, Some("wayland")), SessionBackend::X11);
    assert_eq!(backend_for_session(false, None), SessionBackend::X11);
}

#[test]
fn decoding_undoes_escaping_every_byte() {
    let bytes: Vec<u8> = vec![0x68, 0x69, 0x20, 0xC3, 0xA9, 0x25];
    let escaped: String = bytes.iter().map(|b| format!("%{:02X}", b)).collect();
    assert_eq!(escaped, "%68%69%20%C3%A9%25");
    assert_eq!(percent_decode(&escaped), "hi é%");
    assert_eq!(percent_decode_bytes(escaped.as_bytes()), bytes);
    assert_eq!(percent_decode("%FF"), "\u{FFFD}");
}

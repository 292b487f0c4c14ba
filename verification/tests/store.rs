use superclip::hash::hash_bytes;
use superclip::store::{image_path_for, ClipItem, History, Store, UpdateChannel, MAX_ITEMS};

fn empty_store() -> Store {
    Store::new("/tmp/superclip-test/history.json".to_string(), None)
}

fn ids(store: &Store) -> Vec<String> {
    store.history.items.iter().map(|i| i.id.clone()).collect()
}

fn texts(store: &Store) -> Vec<String> {
    store.history.items.iter().map(|i| i.text.clone()).collect()
}

#[test]
fn new_store_without_a_file_holds_the_default_history() {
    let store = empty_store();
    assert_eq!(store.path, "/tmp/superclip-test/history.json");
    assert_eq!(store.history.version, 1);
    assert_eq!(store.history.hotkey, "CommandOrControl+Shift+V");
    assert!(store.history.items.is_empty());
    assert_eq!(store.channel(), UpdateChannel::Stable);
}

#[test]
fn new_store_keeps_a_loaded_history() {
    let loaded = History {
        version: 3,
        hotkey: "Alt+V".to_string(),
        items: vec![],
        channel: UpdateChannel::Beta,
    };
    let store = Store::new("h.json".to_string(), Some(loaded));
    assert_eq!(store.history.version, 3);
    assert_eq!(store.history.hotkey, "Alt+V");
    assert_eq!(store.channel(), UpdateChannel::Beta);
}

#[test]
fn text_ids_are_the_sha256_prefix_in_hex() {
    assert_eq!(hash_bytes(b"hello"), "2cf24dba5fb0a30e");
    assert_eq!(hash_bytes(b""), "e3b0c44298fc1c14");
    let mut store = empty_store();
    let id = store.add_text("hello", "text");
    assert_eq!(id, "2cf24dba5fb0a30e");
}

#[test]
fn newest_text_comes_first() {
    let mut store = empty_store();
    store.add_text("one", "text");
    store.add_text("two", "text");
    store.add_text("three", "code");
    assert_eq!(texts(&store), vec!["three", "two", "one"]);
    assert_eq!(store.history.items[0].kind, "code");
    assert!(store.history.items.iter().all(|i| !i.pinned && i.image.is_none()));
}

#[test]
fn copying_the_same_text_again_does_not_duplicate_it() {
    let mut store = empty_store();
    let first = store.add_text("same", "text");
    store.add_text("other", "text");
    let again = store.add_text("same", "text");
    assert_eq!(first, again);
    assert_eq!(texts(&store), vec!["same", "other"]);
}

#[test]
fn a_record_keeps_the_pin_of_the_item_it_replaces() {
    let mut store = empty_store();
    let id = store.add_text("keep me", "text");
    store.add_text("later", "text");
    store.toggle_pin(&id);
    store.add_text("keep me", "text");
    let item = store.get(&id).unwrap();
    assert!(item.pinned);
    assert_eq!(ids(&store)[0], id);
    assert_eq!(store.history.items.len(), 2);
}

#[test]
fn upsert_at_stamps_new_and_replaced_items() {
    let mut store = empty_store();
    store.add_text_at("a", "text", 10, 11);
    assert_eq!(store.history.items[0].time, 10);
    store.add_text_at("b", "text", 20, 21);
    store.add_text_at("a", "text", 30, 31);
    assert_eq!(texts(&store), vec!["a", "b"]);
    assert_eq!(store.history.items[0].time, 31);
    assert_eq!(store.history.items[1].time, 20);
}

#[test]
fn history_is_capped_and_the_oldest_drop_off() {
    let mut store = empty_store();
    for i in 0..105 {
        store.add_text(&format!("entry {i}"), "text");
    }
    assert_eq!(store.history.items.len(), MAX_ITEMS);
    assert_eq!(store.history.items[0].text, "entry 104");
    assert_eq!(store.history.items[99].text, "entry 5");
    assert!(store.get(&hash_bytes(b"entry 4")).is_none());
}

#[test]
fn pinned_items_never_drop_off() {
    let mut store = empty_store();
    let pinned = store.add_text("favourite", "text");
    store.toggle_pin(&pinned);
    for i in 0..150 {
        store.add_text(&format!("entry {i}"), "text");
    }
    assert_eq!(store.history.items.len(), MAX_ITEMS);
    assert!(store.get(&pinned).unwrap().pinned);
    let unpinned = store.history.items.iter().filter(|i| !i.pinned).count();
    assert_eq!(unpinned, MAX_ITEMS - 1);
    assert_eq!(store.history.items[0].text, "entry 149");
}

#[test]
fn a_full_set_of_pins_leaves_no_room_for_new_text() {
    let mut store = empty_store();
    for i in 0..MAX_ITEMS {
        let id = store.add_text(&format!("pin {i}"), "text");
        store.toggle_pin(&id);
    }
    let id = store.add_text("no room", "text");
    assert!(store.get(&id).is_none());
    assert_eq!(store.history.items.len(), MAX_ITEMS);
    assert!(store.history.items.iter().all(|i| i.pinned));
}

#[test]
fn bump_moves_an_item_to_the_front() {
    let mut store = empty_store();
    let a = store.add_text_at("a", "text", 1, 1);
    let b = store.add_text_at("b", "text", 2, 2);
    store.add_text_at("c", "text", 3, 3);
    assert!(store.bump_at(&a, 50));
    assert_eq!(texts(&store), vec!["a", "c", "b"]);
    assert_eq!(store.history.items[0].time, 50);
    assert!(!store.bump_at(&a, 60));
    assert_eq!(store.history.items[0].time, 50);
    assert!(!store.bump_at("missing", 70));
    assert!(store.bump(&b));
    assert_eq!(texts(&store), vec!["b", "a", "c"]);
}

#[test]
fn toggling_a_pin_twice_restores_it() {
    let mut store = empty_store();
    let id = store.add_text("x", "text");
    store.toggle_pin(&id);
    assert!(store.get(&id).unwrap().pinned);
    store.toggle_pin(&id);
    assert!(!store.get(&id).unwrap().pinned);
    store.toggle_pin("no such id");
    assert_eq!(store.history.items.len(), 1);
}

#[test]
fn clearing_keeps_exactly_the_pinned_items() {
    let mut store = empty_store();
    let a = store.add_text("a", "text");
    store.add_text("b", "text");
    let c = store.add_text("c", "text");
    store.toggle_pin(&a);
    store.toggle_pin(&c);
    store.clear_unpinned();
    assert_eq!(texts(&store), vec!["c", "a"]);
    assert!(store.history.items.iter().all(|i| i.pinned));
}

#[test]
fn images_are_recorded_with_their_file() {
    let mut store = empty_store();
    store.add_image("abc", 3, 4, "shot.png".to_string());
    let item: ClipItem = store.get("abc").unwrap();
    assert_eq!(item.kind, "image");
    assert_eq!(item.text, "");
    let entry = item.image.unwrap();
    assert_eq!(entry.path, "images/abc.png");
    assert_eq!((entry.width, entry.height), (3, 4));
    assert_eq!(entry.name, "shot.png");
    assert_eq!(image_path_for("abc"), "images/abc.png");
    assert_eq!(store.image_file("abc"), Some("images/abc.png".to_string()));
    store.add_text("plain", "text");
    assert_eq!(store.image_file(&hash_bytes(b"plain")), None);
    assert_eq!(store.image_file("missing"), None);
}

#[test]
fn clearing_history_releases_image_payloads() {
    let mut store = empty_store();
    let id = "test-image";
    store.add_image(id, 1, 1, "Image".into());
    let files = vec![format!("{id}.png"), "stray.png".to_string()];
    assert_eq!(store.unreferenced_images(&files), vec!["stray.png".to_string()]);
    store.clear_unpinned();
    assert_eq!(store.unreferenced_images(&files), files);
}

#[test]
fn the_channel_reads_back_what_was_set() {
    let mut store = empty_store();
    store.set_channel(UpdateChannel::Beta);
    assert_eq!(store.channel(), UpdateChannel::Beta);
    store.set_channel(UpdateChannel::Stable);
    assert_eq!(store.channel(), UpdateChannel::Stable);
    assert_eq!(UpdateChannel::default(), UpdateChannel::Stable);
}

#[test]
fn get_returns_a_copy_of_the_first_match() {
    let mut store = empty_store();
    let id = store.add_text_at("copy", "text", 5, 5);
    let item = store.get(&id).unwrap();
    assert_eq!(item.text, "copy");
    assert_eq!(item.time, 5);
    let dup = item.duplicate();
    assert_eq!(dup.id, item.id);
    assert!(store.get("nope").is_none());
}

#[test]
fn every_operation_keeps_the_history_sound() {
    let mut store = empty_store();
    let mut pinned = Vec::new();
    for i in 0..30 {
        let id = store.add_text(&format!("pin {i}"), "text");
        store.toggle_pin(&id);
        pinned.push(id);
    }
    for i in 0..150 {
        store.add_text(&format!("text {}", i % 120), "text");
        store.bump(&pinned[i % 30]);
        assert!(store.history.items.len() <= MAX_ITEMS);
    }
    store.add_image_at("img", 2, 2, "a.png".to_string(), 1, 2);
    let mut seen = std::collections::HashSet::new();
    assert!(store.history.items.iter().all(|i| seen.insert(i.id.clone())));
    assert_eq!(store.history.items.len(), MAX_ITEMS);
    for id in &pinned {
        assert!(store.get(id).unwrap().pinned);
    }
    store.clear_unpinned();
    assert_eq!(store.history.items.len(), 30);
    for id in &pinned {
        assert!(store.get(id).is_some());
    }
}

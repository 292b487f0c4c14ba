# superclip

The core of Superclip, a clipboard history picker for the desktop, written
in Verus. Every function in `src/` carries a contract. Verus proves them all
except eight small `#[verifier::external_body]` functions, which make one call
each into `sha2`, `base64`, `image` or std (`String::push`,
`String::from_utf8_lossy`, the system clock): their contracts are trusted,
not proved, and their doc comments say what each one claims.

- `src/store.rs`, `src/store_laws.rs` — the history: recording with
  deduplication, the 100-item cap that never drops pinned items, pinning,
  bumping, clearing, and which image files are no longer referred to; the
  laws that every operation keeps.
- `src/detect.rs` — the text-versus-code heuristic.
- `src/hash.rs` — content identifiers (a SHA-256 prefix in hex).
- `src/clipboard.rs` — percent-decoding of `file://` URIs, file names and
  extensions, `text/uri-list` and MIME target listings, backend choice.
- `src/images.rs` — PNG normalization through the `image` crate.
- `src/watcher.rs` — which clipboard contents are new and get recorded.
- `src/paste.rs`, `src/xclip.rs`, `src/window.rs`, `src/updater.rs` — the
  decisions of the paste path, the `xclip` helpers, the picker window and
  tray, and the updater.
- `src/commands.rs` — what the user interface commands compute.

`app/` is the Tauri shell around the library: windows, tray, hotkey, the
clipboard backends that run `xclip`, `wl-paste` and `xdotool`, the history
file on disk, and the serializable copies of the library's types.

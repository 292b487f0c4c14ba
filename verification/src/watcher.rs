//! The decisions of the clipboard watcher: which clipboard contents are new
//! and get recorded, so that an unchanged clipboard is recorded once.
use vstd::prelude::*;

use crate::hash::{content_id, hash_bytes};
use crate::images::{image_dimensions, png_dimensions};
use crate::text::{string_of, trim, trimmed_chars};

verus! {

/// What the watcher remembers between polls: the last text it saw, and the
/// identifier of the last image it recorded or saw again.
#[derive(Debug)]
pub struct CaptureState {
    pub last_text: Option<String>,
    pub last_image_hash: Option<String>,
}

/// The characters of an optional string.
pub open spec fn opt_chars(o: Option<String>) -> Option<Seq<char>> {
    match o {
        Some(s) => Some(s@),
        None => None,
    }
}

/// The watcher's memory, as character sequences.
pub struct CaptureView {
    pub last_text: Option<Seq<char>>,
    pub last_image: Option<Seq<char>>,
}

impl View for CaptureState {
    type V = CaptureView;

    open spec fn view(&self) -> CaptureView {
        CaptureView {
            last_text: opt_chars(self.last_text),
            last_image: opt_chars(self.last_image_hash),
        }
    }
}

/// How text read off the clipboard compares with what was seen before.
#[derive(Debug)]
pub enum TextStep {
    /// The same text as at the last poll: nothing to record, and no image
    /// to look for.
    Unchanged,
    /// Text not seen at the last poll: it names an image file or is recorded
    /// as text.
    Fresh(String),
    /// No text: the clipboard may hold an image.
    Absent,
}

/// The kind of step that text `text` makes from memory `s`.
pub enum TextKind {
    Unchanged,
    Fresh,
    Absent,
}

pub open spec fn text_kind(s: CaptureView, text: Option<Seq<char>>) -> TextKind {
    match text {
        Some(t) => if s.last_text == Some(t) {
            TextKind::Unchanged
        } else {
            TextKind::Fresh
        },
        None => TextKind::Absent,
    }
}

/// The memory after text `text` is read: unchanged text forgets the last
/// image, no text forgets the last text, fresh text changes nothing yet.
pub open spec fn after_text(s: CaptureView, text: Option<Seq<char>>) -> CaptureView {
    match text_kind(s, text) {
        TextKind::Unchanged => CaptureView { last_image: None, ..s },
        TextKind::Fresh => s,
        TextKind::Absent => CaptureView { last_text: None, ..s },
    }
}

/// The memory once fresh text `text` is dealt with: it becomes the last text,
/// and the last image is forgotten unless the text named an image file that
/// was recorded or seen again.
pub open spec fn after_fresh_text(s: CaptureView, text: Seq<char>, named_image: bool) -> CaptureView {
    CaptureView {
        last_text: Some(text),
        last_image: if named_image {
            s.last_image
        } else {
            None
        },
    }
}

/// How an image read off the clipboard, or from a file it names, compares
/// with what was seen before.
#[derive(Debug)]
pub enum ImageStep {
    /// The same image as last time: nothing to record.
    Repeat,
    /// An image whose size cannot be read: nothing to record.
    Unreadable,
    /// A new image, to be recorded under `hash`.
    Fresh { hash: String, width: u32, height: u32, name: String },
}

/// The kind of step that an image with identifier `hash` and readable size
/// `dims` makes from memory `s`.
pub enum ImageKind {
    Repeat,
    Unreadable,
    Fresh,
}

pub open spec fn image_kind(s: CaptureView, hash: Seq<char>, dims: Option<(u32, u32)>) -> ImageKind {
    if s.last_image == Some(hash) {
        ImageKind::Repeat
    } else if dims is None {
        ImageKind::Unreadable
    } else {
        ImageKind::Fresh
    }
}

/// The memory after such an image: a fresh one becomes the last image.
pub open spec fn after_image(s: CaptureView, hash: Seq<char>, dims: Option<(u32, u32)>) -> CaptureView {
    match image_kind(s, hash, dims) {
        ImageKind::Fresh => CaptureView { last_image: Some(hash), ..s },
        _ => s,
    }
}

/// Text read off the clipboard as the watcher takes it: trimmed, and none
/// when nothing but white space is left.
pub open spec fn cleaned_text(raw: Option<Seq<char>>) -> Option<Seq<char>> {
    match raw {
        Some(t) => if trim(t).len() > 0 {
            Some(trim(t))
        } else {
            None
        },
        None => None,
    }
}

fn same_option_string(a: &Option<String>, b: &String) -> (r: bool)
    ensures
        r == (opt_chars(*a) == Some(b@)),
{
    match a {
        Some(x) => *x == *b,
        None => false,
    }
}

impl CaptureState {
    /// A watcher that has seen nothing yet.
    pub fn new() -> (r: Self)
        ensures
            r@.last_text is None,
            r@.last_image is None,
    {
        CaptureState { last_text: None, last_image_hash: None }
    }

    /// Takes text read off the clipboard (`None` when reading failed): trimmed,
    /// and `None` when nothing but white space is left.
    pub fn clean_text(raw: Option<String>) -> (r: Option<String>)
        ensures
            opt_chars(r) == cleaned_text(opt_chars(raw)),
    {
        match raw {
            Some(t) => {
                let v = trimmed_chars(t.as_str());
                if v.len() > 0 {
                    Some(string_of(&v))
                } else {
                    None
                }
            },
            None => None,
        }
    }

    /// Compares the text now on the clipboard with the last text seen. It
    /// also does the bookkeeping that the image step of the same poll would
    /// otherwise do: unchanged text forgets the last image (no image is
    /// looked for while text is on the clipboard), and a clipboard without
    /// text forgets the last text. Taken over a whole poll, the memory ends
    /// as the watcher's steps leave it; taken alone, this step already makes
    /// those two changes.
    pub fn on_text(&mut self, text: Option<String>) -> (step: TextStep)
        ensures
            final(self)@ == after_text(old(self)@, opt_chars(text)),
            match step {
                TextStep::Unchanged => text_kind(old(self)@, opt_chars(text)) is Unchanged,
                TextStep::Fresh(t) => text_kind(old(self)@, opt_chars(text)) is Fresh && text
                    == Some(t),
                TextStep::Absent => text_kind(old(self)@, opt_chars(text)) is Absent,
            },
    {
        match text {
            Some(t) => {
                if same_option_string(&self.last_text, &t) {
                    self.last_image_hash = None;
                    TextStep::Unchanged
                } else {
                    TextStep::Fresh(t)
                }
            },
            None => {
                self.last_text = None;
                TextStep::Absent
            },
        }
    }

    /// Records that fresh text `text` was dealt with; `named_image` tells
    /// whether it named an image file that was recorded or seen again.
    /// Returns whether the text itself is to be recorded: it is unless it
    /// named such an image.
    pub fn finish_text(&mut self, text: String, named_image: bool) -> (record_text: bool)
        ensures
            final(self)@ == after_fresh_text(old(self)@, text@, named_image),
            record_text == !named_image,
    {
        self.last_text = Some(text);
        if !named_image {
            self.last_image_hash = None;
        }
        !named_image
    }

    /// Records that the clipboard holds no image.
    pub fn image_absent(&mut self)
        ensures
            final(self)@ == (CaptureView { last_image: None, ..old(self)@ }),
    {
        self.last_image_hash = None;
    }

    /// Compares an image, as PNG bytes, with the last image seen, and reads
    /// its size. A fresh image is named `name`, or `Image` when it has none.
    pub fn check_image(&mut self, png: &[u8], name: Option<String>) -> (step: ImageStep)
        ensures
            final(self)@ == after_image(old(self)@, content_id(png@), image_dimensions(png@)),
            match step {
                ImageStep::Repeat => image_kind(
                    old(self)@,
                    content_id(png@),
                    image_dimensions(png@),
                ) is Repeat,
                ImageStep::Unreadable => image_kind(
                    old(self)@,
                    content_id(png@),
                    image_dimensions(png@),
                ) is Unreadable,
                ImageStep::Fresh { hash, width, height, name: n } => {
                    &&& image_kind(old(self)@, content_id(png@), image_dimensions(png@)) is Fresh
                    &&& hash@ == content_id(png@)
                    &&& image_dimensions(png@) == Some((width, height))
                    &&& n@ == match name {
                        Some(given) => given@,
                        None => "Image"@,
                    }
                },
            },
    {
        let hash = hash_bytes(png);
        if same_option_string(&self.last_image_hash, &hash) {
            return ImageStep::Repeat;
        }
        match png_dimensions(png) {
            None => ImageStep::Unreadable,
            Some((width, height)) => {
                let name = match name {
                    Some(n) => n,
                    None => "Image".to_owned(),
                };
                self.last_image_hash = Some(hash.clone());
                ImageStep::Fresh { hash, width, height, name }
            },
        }
    }
}

/// Text seen again is not recorded again: once fresh text has been dealt
/// with, the same text at the next poll is unchanged.
pub proof fn law_same_text_recorded_once(s: CaptureView, text: Seq<char>, named_image: bool)
    ensures
        text_kind(after_fresh_text(s, text, named_image), Some(text)) is Unchanged,
{
}

/// An image seen again is not recorded again: once a fresh image has been
/// recorded, the same image at the next look is a repeat.
pub proof fn law_same_image_recorded_once(
    s: CaptureView,
    hash: Seq<char>,
    dims: Option<(u32, u32)>,
    later: Option<(u32, u32)>,
)
    requires
        image_kind(s, hash, dims) is Fresh,
    ensures
        image_kind(after_image(s, hash, dims), hash, later) is Repeat,
{
}

/// Text takes precedence over images: while the clipboard holds text, the
/// last image is forgotten unless that text named an image file, so an
/// image copied after it is recorded even if it was seen before.
pub proof fn law_text_forgets_image(s: CaptureView, text: Seq<char>)
    ensures
        after_text(s, Some(text)).last_image is None || text_kind(s, Some(text)) is Fresh,
        after_fresh_text(s, text, false).last_image is None,
{
}

} // verus!

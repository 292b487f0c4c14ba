//! What the commands the user interface invokes compute: the payload a
//! paste writes to the clipboard, and the encoded image a preview shows.
use vstd::prelude::*;

use crate::store::{lookup, ClipItem, Store};

verus! {

/// The character of the standard Base64 alphabet for six-bit value `v`:
/// `A`-`Z`, `a`-`z`, `0`-`9`, `+`, `/`.
pub open spec fn base64_digit(v: int) -> char {
    if v < 26 {
        (0x41 + v) as char
    } else if v < 52 {
        (0x61 + v - 26) as char
    } else if v < 62 {
        (0x30 + v - 52) as char
    } else if v == 62 {
        '+'
    } else {
        '/'
    }
}

/// The standard Base64 encoding of `bytes` (RFC 4648, with `=` padding): each
/// group of three bytes becomes four characters of six bits each, and a last
/// group of one or two bytes is padded to four characters with `=`.
pub open spec fn base64_standard(bytes: Seq<u8>) -> Seq<char>
    decreases bytes.len(),
{
    if bytes.len() == 0 {
        seq![]
    } else if bytes.len() == 1 {
        let a = bytes[0] as int;
        seq![base64_digit(a / 4), base64_digit((a % 4) * 16), '=', '=']
    } else if bytes.len() == 2 {
        let a = bytes[0] as int;
        let b = bytes[1] as int;
        seq![
            base64_digit(a / 4),
            base64_digit((a % 4) * 16 + b / 16),
            base64_digit((b % 16) * 4),
            '=',
        ]
    } else {
        let a = bytes[0] as int;
        let b = bytes[1] as int;
        let c = bytes[2] as int;
        seq![
            base64_digit(a / 4),
            base64_digit((a % 4) * 16 + b / 16),
            base64_digit((b % 16) * 4 + c / 64),
            base64_digit(c % 64),
        ] + base64_standard(bytes.skip(3))
    }
}

/// The length of the padded Base64 encoding of `n` bytes: four characters
/// for each started group of three bytes.
pub open spec fn base64_len(n: nat) -> int {
    (n / 3) * 4 + if n % 3 > 0 {
        4int
    } else {
        0int
    }
}

/// Encodes `bytes` with the `base64` crate's `Engine::encode` on the
/// `general_purpose::STANDARD` engine (standard alphabet, with padding).
/// Claims that the result is the standard Base64 encoding of `bytes`. The
/// crate panics when the encoded length does not fit in a `usize`, which
/// `requires` rules out.
#[verifier::external_body]
fn encode_base64(bytes: &[u8]) -> (r: String)
    requires
        base64_len(bytes@.len()) <= usize::MAX,
    ensures
        r@ == base64_standard(bytes@),
{
    base64::Engine::encode(&base64::engine::general_purpose::STANDARD, bytes)
}

/// The stored image, Base64-encoded for the preview pane; an `image not
/// found` error when there is no such image (`png` is `None`).
pub fn image_payload(png: Option<Vec<u8>>) -> (r: Result<String, String>)
    requires
        png matches Some(b) ==> base64_len(b@.len()) <= usize::MAX,
    ensures
        match png {
            Some(b) => r matches Ok(s) && s@ == base64_standard(b@),
            None => r matches Err(e) && e@ == "image not found"@,
        },
{
    match png {
        Some(bytes) => Ok(encode_base64(bytes.as_slice())),
        None => Err("image not found".to_owned()),
    }
}

/// What pasting an item writes to the clipboard.
#[derive(Debug)]
pub enum ClipboardWrite {
    /// The PNG stored at `path`, relative to the history file's directory.
    Image { path: String },
    /// The item's text.
    Text { text: String },
}

/// What pasting the item with identifier `id` writes to the clipboard: its
/// image when it has one, else its text; an `item not found` error when no
/// item has that identifier.
pub fn clipboard_write_for(store: &Store, id: &str) -> (r: Result<ClipboardWrite, String>)
    ensures
        match lookup(store.history.items@, id@) {
            None => r matches Err(e) && e@ == "item not found"@,
            Some(item) => match item.image {
                Some(entry) => r matches Ok(ClipboardWrite::Image { path }) && path == entry.path,
                None => r matches Ok(ClipboardWrite::Text { text }) && text == item.text,
            },
        },
{
    match store.get(id) {
        None => Err("item not found".to_owned()),
        Some(item) => {
            let ClipItem { image, text, .. } = item;
            match image {
                Some(entry) => Ok(ClipboardWrite::Image { path: entry.path }),
                None => Ok(ClipboardWrite::Text { text }),
            }
        },
    }
}

} // verus!

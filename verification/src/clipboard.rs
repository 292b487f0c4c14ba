//! What the clipboard hands over, read as data: percent-encoded `file://`
//! URIs, file names and extensions, MIME type listings, and which session
//! backend serves the clipboard.
use vstd::prelude::*;

use crate::text::{
    chars_of, contains_seq, has_prefix, has_seq, lines, slice_chars, split_lines, starts_with,
    string_of, trim, trim_chars,
};

verus! {

// ---------------------------------------------------------------------------
// Percent decoding.
// ---------------------------------------------------------------------------

/// The value of an ASCII hexadecimal digit.
pub open spec fn hex_value(b: u8) -> Option<u8> {
    if 0x30 <= b <= 0x39 {
        Some((b - 0x30) as u8)
    } else if 0x61 <= b <= 0x66 {
        Some((b - 0x61 + 10) as u8)
    } else if 0x41 <= b <= 0x46 {
        Some((b - 0x41 + 10) as u8)
    } else {
        None
    }
}

/// The byte a `%XX` escape stands for: the two bytes after the `%` are both
/// hexadecimal digits, in either case.
pub open spec fn escape_value(b1: u8, b2: u8) -> Option<u8> {
    match (hex_value(b1), hex_value(b2)) {
        (Some(h), Some(l)) => Some((h * 16 + l) as u8),
        _ => None,
    }
}

/// `b` with each `%XX` escape that parses replaced by the byte it stands
/// for, left to right; other bytes are kept.
pub open spec fn percent_decoded(b: Seq<u8>) -> Seq<u8>
    decreases b.len(),
{
    if b.len() == 0 {
        seq![]
    } else if b[0] == 0x25 && 2 < b.len() && escape_value(b[1], b[2]) is Some {
        seq![escape_value(b[1], b[2])->0] + percent_decoded(b.skip(3))
    } else {
        seq![b[0]] + percent_decoded(b.skip(1))
    }
}

/// Every `%` is followed, three bytes on, by the end of the text or the start
/// of a character: the two bytes read after a `%` never end inside a
/// multi-byte character, which slicing a `str` there would reject.
pub open spec fn escapes_whole_chars(b: Seq<u8>) -> bool {
    forall|i: int|
        0 <= i && i + 3 < b.len() && #[trigger] b[i] == 0x25 ==> !vstd::utf8::is_continuation_byte(
            b[i + 3],
        )
}

/// The text that `String::from_utf8_lossy` makes of `bytes`.
pub uninterp spec fn utf8_lossy(bytes: Seq<u8>) -> Seq<char>;

/// Converts `bytes` to text with `String::from_utf8_lossy`. Claims that the
/// result is the named conversion of `bytes`, and that bytes that are valid
/// UTF-8 come out as the characters they encode. How invalid sequences are
/// replaced is left unsaid.
#[verifier::external_body]
pub(crate) fn text_from_utf8_lossy(bytes: &[u8]) -> (r: String)
    ensures
        r@ == utf8_lossy(bytes@),
        vstd::utf8::valid_utf8(bytes@) ==> r@ == vstd::utf8::decode_utf8(bytes@),
{
    String::from_utf8_lossy(bytes).into_owned()
}

/// The text that percent-decoding `s` gives: the escapes of its UTF-8 bytes
/// decoded, the bytes then read as UTF-8 with invalid sequences replaced.
pub open spec fn percent_decoded_text(s: Seq<char>) -> Seq<char> {
    utf8_lossy(percent_decoded(vstd::utf8::encode_utf8(s)))
}

fn hex_digit_value(b: u8) -> (r: Option<u8>)
    ensures
        r == hex_value(b),
{
    if 0x30 <= b && b <= 0x39 {
        Some(b - 0x30)
    } else if 0x61 <= b && b <= 0x66 {
        Some(b - 0x61 + 10)
    } else if 0x41 <= b && b <= 0x46 {
        Some(b - 0x41 + 10)
    } else {
        None
    }
}

fn parse_escape(b1: u8, b2: u8) -> (r: Option<u8>)
    ensures
        r == escape_value(b1, b2),
{
    match (hex_digit_value(b1), hex_digit_value(b2)) {
        (Some(h), Some(l)) => Some(h * 16 + l),
        _ => None,
    }
}

/// The bytes of `b` with its `%XX` escapes decoded.
pub fn percent_decode_bytes(b: &[u8]) -> (r: Vec<u8>)
    ensures
        r@ == percent_decoded(b@),
{
    let n = b.len();
    let mut out: Vec<u8> = Vec::new();
    let mut i: usize = 0;
    assert(b@.skip(0) =~= b@);
    while i < n
        invariant
            i <= n == b@.len(),
            out@ + percent_decoded(b@.skip(i as int)) == percent_decoded(b@),
        decreases n - i,
    {
        let ghost rest = b@.skip(i as int);
        if b[i] == 0x25 && n > 2 && i < n - 2 {
            if let Some(v) = parse_escape(b[i + 1], b[i + 2]) {
                assert(rest.skip(3) =~= b@.skip(i + 3));
                out.push(v);
                i = i + 3;
                assert(out@ + percent_decoded(b@.skip(i as int)) =~= percent_decoded(b@));
                continue;
            }
        }
        assert(rest.skip(1) =~= b@.skip(i + 1));
        out.push(b[i]);
        i = i + 1;
        assert(out@ + percent_decoded(b@.skip(i as int)) =~= percent_decoded(b@));
    }
    assert(b@.skip(n as int).len() == 0);
    assert(out@ =~= percent_decoded(b@));
    out
}

/// Whether some `%` escape in `s` would end inside a multi-byte character,
/// the input on which decoding `s` cannot proceed.
pub fn escape_splits_char(s: &str) -> (r: bool)
    ensures
        r == !escapes_whole_chars(vstd::utf8::encode_utf8(s@)),
{
    let b = s.as_bytes();
    let n = b.len();
    let mut i: usize = 0;
    while i < n
        invariant
            i <= n == b@.len(),
            b@ == vstd::utf8::encode_utf8(s@),
            forall|j: int|
                0 <= j < i && j + 3 < b@.len() && #[trigger] b@[j] == 0x25
                    ==> !vstd::utf8::is_continuation_byte(b@[j + 3]),
        decreases n - i,
    {
        if b[i] == 0x25 && n > 3 && i < n - 3 && 0x80 <= b[i + 3] && b[i + 3] <= 0xBF {
            return true;
        }
        i = i + 1;
    }
    false
}

/// Decodes the `%XX` escapes of a `file://` URI path, so that names read
/// from the clipboard match what the user sees.
pub fn percent_decode(s: &str) -> (r: String)
    requires
        escapes_whole_chars(vstd::utf8::encode_utf8(s@)),
    ensures
        r@ == percent_decoded_text(s@),
        vstd::utf8::valid_utf8(percent_decoded(vstd::utf8::encode_utf8(s@))) ==> r@
            == vstd::utf8::decode_utf8(percent_decoded(vstd::utf8::encode_utf8(s@))),
        !vstd::utf8::encode_utf8(s@).contains(0x25) ==> r@ == s@,
{
    let bytes = s.as_bytes();
    let out = percent_decode_bytes(bytes);
    proof {
        if !bytes@.contains(0x25) {
            lemma_decode_without_escapes(bytes@);
            vstd::utf8::encode_utf8_valid_utf8(s@);
            vstd::utf8::encode_utf8_decode_utf8(s@);
        }
    }
    text_from_utf8_lossy(out.as_slice())
}

/// Text without a `%` decodes to itself.
pub proof fn lemma_decode_without_escapes(b: Seq<u8>)
    requires
        !b.contains(0x25),
    ensures
        percent_decoded(b) == b,
    decreases b.len(),
{
    if b.len() > 0 {
        assert(b[0] != 0x25);
        assert(!b.skip(1).contains(0x25)) by {
            if b.skip(1).contains(0x25) {
                let k = choose|k: int| 0 <= k < b.skip(1).len() && b.skip(1)[k] == 0x25;
                assert(b[k + 1] == 0x25);
            }
        }
        lemma_decode_without_escapes(b.skip(1));
        assert(seq![b[0]] + b.skip(1) =~= b);
    }
}

/// The ASCII code of the uppercase hexadecimal digit for `v`, below 16.
pub open spec fn hex_upper_code(v: int) -> u8 {
    if v < 10 {
        (0x30 + v) as u8
    } else {
        (0x41 + v - 10) as u8
    }
}

/// `b` written with every byte as a `%XX` escape in uppercase hexadecimal,
/// as the bytes of that ASCII text.
pub open spec fn percent_escaped(b: Seq<u8>) -> Seq<u8>
    decreases b.len(),
{
    if b.len() == 0 {
        seq![]
    } else {
        seq![0x25u8, hex_upper_code(b[0] as int / 16), hex_upper_code(b[0] as int % 16)] + percent_escaped(
            b.skip(1),
        )
    }
}

proof fn lemma_escaped_bytes(b: Seq<u8>)
    ensures
        percent_escaped(b).len() == 3 * b.len(),
        forall|i: int| 0 <= i < percent_escaped(b).len() ==> #[trigger] percent_escaped(b)[i] < 0x80,
        percent_decoded(percent_escaped(b)) == b,
    decreases b.len(),
{
    if b.len() > 0 {
        let e = percent_escaped(b);
        let rest = percent_escaped(b.skip(1));
        lemma_escaped_bytes(b.skip(1));
        assert(e.skip(3) =~= rest);
        assert(hex_value(hex_upper_code(b[0] as int / 16)) == Some((b[0] / 16) as u8));
        assert(hex_value(hex_upper_code(b[0] as int % 16)) == Some((b[0] % 16) as u8));
        assert(escape_value(e[1], e[2]) == Some(b[0]));
        assert(seq![b[0]] + b.skip(1) =~= b);
        assert forall|i: int| 0 <= i < e.len() implies #[trigger] e[i] < 0x80 by {
            if i >= 3 {
                assert(e[i] == rest[i - 3]);
            }
        }
    }
}

/// Decoding undoes escaping: text whose UTF-8 bytes are every byte of `b`
/// written as a `%XX` escape decodes back to `b`, and so to the text that
/// `b` reads as; decoding it cannot meet an escape that splits a character.
pub proof fn law_decode_undoes_escaping(b: Seq<u8>, s: Seq<char>)
    requires
        vstd::utf8::encode_utf8(s) == percent_escaped(b),
    ensures
        escapes_whole_chars(vstd::utf8::encode_utf8(s)),
        percent_decoded(vstd::utf8::encode_utf8(s)) == b,
        percent_decoded_text(s) == utf8_lossy(b),
{
    lemma_escaped_bytes(b);
    let e = percent_escaped(b);
    assert forall|i: int|
        0 <= i && i + 3 < e.len() && #[trigger] e[i] == 0x25 implies !vstd::utf8::is_continuation_byte(
        e[i + 3],
    ) by {
        assert(e[i + 3] < 0x80);
    }
}

// ---------------------------------------------------------------------------
// Paths, read with `/` as the only separator.
// ---------------------------------------------------------------------------

/// The index of the first `c` in `s` at or after `from`, or `s.len()`.
pub open spec fn next_index_of(s: Seq<char>, c: char, from: int) -> int
    decreases s.len() - from,
{
    if from >= s.len() || from < 0 {
        s.len() as int
    } else if s[from] == c {
        from
    } else {
        next_index_of(s, c, from + 1)
    }
}

pub proof fn lemma_next_index_of(s: Seq<char>, c: char, from: int)
    requires
        0 <= from <= s.len(),
    ensures
        from <= next_index_of(s, c, from) <= s.len(),
        next_index_of(s, c, from) < s.len() ==> s[next_index_of(s, c, from)] == c,
        forall|j: int| from <= j < next_index_of(s, c, from) ==> s[j] != c,
    decreases s.len() - from,
{
    if from < s.len() && s[from] != c {
        lemma_next_index_of(s, c, from + 1);
    }
}

/// The pieces of `s` between occurrences of `sep`; `n` separators give
/// `n + 1` pieces.
pub open spec fn pieces(s: Seq<char>, sep: char) -> Seq<Seq<char>>
    decreases s.len(),
{
    let k = next_index_of(s, sep, 0);
    proof {
        lemma_next_index_of(s, sep, 0);
    }
    if k >= s.len() {
        seq![s]
    } else {
        seq![s.take(k)] + pieces(s.skip(k + 1), sep)
    }
}

/// `s` is `"."`.
pub open spec fn is_dot(s: Seq<char>) -> bool {
    s.len() == 1 && s[0] == '.'
}

/// `s` is `".."`.
pub open spec fn is_dot_dot(s: Seq<char>) -> bool {
    s.len() == 2 && s[0] == '.' && s[1] == '.'
}

/// The pieces that name something: the empty pieces that repeated or
/// trailing separators leave, and `.`, are dropped, as `Path::components`
/// drops them.
pub open spec fn named_pieces(ps: Seq<Seq<char>>) -> Seq<Seq<char>>
    decreases ps.len(),
{
    if ps.len() == 0 {
        seq![]
    } else if ps.last().len() == 0 || is_dot(ps.last()) {
        named_pieces(ps.drop_last())
    } else {
        named_pieces(ps.drop_last()).push(ps.last())
    }
}

/// The last component of `path` as `Path::file_name` gives it: none when the
/// path names nothing or ends in `..`.
pub open spec fn file_name_of(path: Seq<char>) -> Option<Seq<char>> {
    let named = named_pieces(pieces(path, '/'));
    if named.len() == 0 || is_dot_dot(named.last()) {
        None
    } else {
        Some(named.last())
    }
}

/// The index of the last `.` in `s`, or -1.
pub open spec fn last_dot(s: Seq<char>) -> int
    decreases s.len(),
{
    if s.len() == 0 {
        -1
    } else if s.last() == '.' {
        s.len() - 1
    } else {
        last_dot(s.drop_last())
    }
}

/// The extension of `path` as `Path::extension` gives it: what follows the
/// last `.` of the file name, when that `.` is not its first character.
pub open spec fn extension_of(path: Seq<char>) -> Option<Seq<char>> {
    match file_name_of(path) {
        Some(name) => if last_dot(name) > 0 {
            Some(name.skip(last_dot(name) + 1))
        } else {
            None
        },
        None => None,
    }
}

/// The code of `c`, lowered to the small letter when it is an ASCII capital.
pub open spec fn ascii_lower_code(c: char) -> u32 {
    if 0x41 <= c as u32 <= 0x5A {
        (c as u32 + 0x20) as u32
    } else {
        c as u32
    }
}

/// `s` equals `lower` once ASCII capitals in `s` are lowered.
pub open spec fn eq_ascii_lowered(s: Seq<char>, lower: Seq<char>) -> bool {
    s.len() == lower.len() && forall|i: int|
        0 <= i < s.len() ==> ascii_lower_code(#[trigger] s[i]) == lower[i] as u32
}

/// The extensions of the raster formats the library captures.
pub open spec fn image_extensions() -> Seq<&'static str> {
    seq!["png", "jpg", "jpeg", "webp", "bmp", "gif", "tif", "tiff"]
}

/// `path` has the extension of a raster image file, in any letter case.
pub open spec fn is_image_path(path: Seq<char>) -> bool {
    match extension_of(path) {
        Some(ext) => exists|k: int|
            0 <= k < image_extensions().len() && eq_ascii_lowered(
                ext,
                #[trigger] image_extensions()[k]@,
            ),
        None => false,
    }
}

proof fn lemma_pieces_without_sep(s: Seq<char>, sep: char)
    requires
        !s.contains(sep),
    ensures
        pieces(s, sep) == seq![s],
{
    lemma_next_index_of(s, sep, 0);
    let k = next_index_of(s, sep, 0);
    if k < s.len() {
        assert(s[k] == sep);
    }
}

proof fn lemma_pieces_append(a: Seq<char>, sep: char, n: Seq<char>)
    requires
        !n.contains(sep),
    ensures
        pieces(a + seq![sep] + n, sep) == pieces(a, sep).push(n),
    decreases a.len(),
{
    let s = a + seq![sep] + n;
    lemma_next_index_of(s, sep, 0);
    lemma_next_index_of(a, sep, 0);
    let ka = next_index_of(a, sep, 0);
    let ks = next_index_of(s, sep, 0);
    if ka < a.len() {
        assert(s[ka] == a[ka]);
        if ks < ka {
            assert(s[ks] == a[ks]);
        }
        assert(ks == ka);
        let rest = a.skip(ka + 1);
        assert(s.take(ks) =~= a.take(ka));
        assert(s.skip(ks + 1) =~= rest + seq![sep] + n);
        lemma_pieces_append(rest, sep, n);
        assert(pieces(s, sep) =~= pieces(a, sep).push(n));
    } else {
        assert(s[a.len() as int] == sep);
        if ks < a.len() {
            assert(s[ks] == a[ks]);
        }
        assert(ks == a.len());
        assert(s.take(ks) =~= a);
        assert(s.skip(ks + 1) =~= n);
        lemma_pieces_without_sep(n, sep);
        assert(a.take(ka) =~= a);
        if a.len() > 0 {
            assert(pieces(a, sep) == seq![a]);
        }
        assert(pieces(s, sep) =~= pieces(a, sep).push(n));
    }
}

proof fn lemma_last_dot_before(stem: Seq<char>, ext: Seq<char>)
    requires
        !ext.contains('.'),
    ensures
        last_dot(stem + seq!['.'] + ext) == stem.len(),
    decreases ext.len(),
{
    let s = stem + seq!['.'] + ext;
    if ext.len() > 0 {
        assert(s.last() == ext.last());
        assert(ext[ext.len() - 1] == ext.last());
        assert(!ext.drop_last().contains('.')) by {
            if ext.drop_last().contains('.') {
                let j = choose|j: int| 0 <= j < ext.drop_last().len() && ext.drop_last()[j] == '.';
                assert(ext[j] == '.');
            }
        }
        lemma_last_dot_before(stem, ext.drop_last());
        assert(s.drop_last() =~= stem + seq!['.'] + ext.drop_last());
    } else {
        assert(s.last() == '.');
    }
}

/// The file name of a path is what follows its last `/`, and the extension
/// is what follows the last `.` of that name: for any directory part `dir`,
/// the path `dir/stem.ext`, with `stem` not empty and `ext` not empty and
/// holding no `.`, and neither holding a `/`, has file name `stem.ext` and
/// extension `ext`.
pub proof fn law_file_name_and_extension(dir: Seq<char>, stem: Seq<char>, ext: Seq<char>)
    requires
        stem.len() > 0,
        ext.len() > 0,
        !stem.contains('/'),
        !ext.contains('/'),
        !ext.contains('.'),
    ensures
        file_name_of(dir + seq!['/'] + stem + seq!['.'] + ext) == Some(stem + seq!['.'] + ext),
        extension_of(dir + seq!['/'] + stem + seq!['.'] + ext) == Some(ext),
{
    let name = stem + seq!['.'] + ext;
    let path = dir + seq!['/'] + stem + seq!['.'] + ext;
    assert(path =~= dir + seq!['/'] + name);
    assert(!name.contains('/')) by {
        if name.contains('/') {
            let j = choose|j: int| 0 <= j < name.len() && name[j] == '/';
            if j < stem.len() {
                assert(stem[j] == '/');
            } else if j > stem.len() {
                assert(ext[j - stem.len() - 1] == '/');
            }
        }
    }
    lemma_pieces_append(dir, '/', name);
    let ps = pieces(dir, '/');
    assert(ps.push(name).drop_last() =~= ps);
    assert(named_pieces(ps.push(name)) == named_pieces(ps).push(name));
    lemma_last_dot_before(stem, ext);
    assert(name.skip(stem.len() as int + 1) =~= ext);
}

/// A file whose extension is that of a raster format, in any letter case,
/// is an image file, wherever it lies: `dir/stem.ext` with `ext` spelling
/// `png`, `jpg`, `jpeg`, `webp`, `bmp`, `gif`, `tif` or `tiff`, each letter
/// small or capital.
pub proof fn law_image_file_in_any_case(dir: Seq<char>, stem: Seq<char>, ext: Seq<char>, k: int)
    requires
        stem.len() > 0,
        !stem.contains('/'),
        0 <= k < 8,
        ({
            let lower = seq!["png", "jpg", "jpeg", "webp", "bmp", "gif", "tif", "tiff"][k]@;
            &&& ext.len() == lower.len()
            &&& forall|i: int|
                0 <= i < ext.len() ==> #[trigger] ext[i] == lower[i] || (0x61 <= (lower[i] as u32)
                    <= 0x7A && ext[i] as u32 + 0x20 == lower[i] as u32)
        }),
    ensures
        is_image_path(dir + seq!['/'] + stem + seq!['.'] + ext),
{
    let lower = seq!["png", "jpg", "jpeg", "webp", "bmp", "gif", "tif", "tiff"][k]@;
    reveal_strlit("png");
    reveal_strlit("jpg");
    reveal_strlit("jpeg");
    reveal_strlit("webp");
    reveal_strlit("bmp");
    reveal_strlit("gif");
    reveal_strlit("tif");
    reveal_strlit("tiff");
    assert(ext.len() > 0);
    assert(!ext.contains('/') && !ext.contains('.')) by {
        if ext.contains('/') || ext.contains('.') {
            let j = choose|j: int| 0 <= j < ext.len() && (ext[j] == '/' || ext[j] == '.');
            assert(0x61 <= (lower[j] as u32) <= 0x7A);
        }
    }
    law_file_name_and_extension(dir, stem, ext);
    law_image_extension_in_any_case(dir + seq!['/'] + stem + seq!['.'] + ext, ext, k);
}

/// A path whose extension spells `png`, `jpg`, `jpeg`, `webp`, `bmp`, `gif`,
/// `tif` or `tiff`, each letter small or capital, is an image path.
pub proof fn law_image_extension_in_any_case(path: Seq<char>, e: Seq<char>, k: int)
    requires
        0 <= k < 8,
        extension_of(path) == Some(e),
        ({
            let ext = seq!["png", "jpg", "jpeg", "webp", "bmp", "gif", "tif", "tiff"][k]@;
            &&& e.len() == ext.len()
            &&& forall|i: int|
                0 <= i < e.len() ==> #[trigger] e[i] == ext[i] || (0x61 <= (ext[i] as u32) <= 0x7A
                    && e[i] as u32 + 0x20 == ext[i] as u32)
        }),
    ensures
        is_image_path(path),
{
    let exts = seq!["png", "jpg", "jpeg", "webp", "bmp", "gif", "tif", "tiff"];
    assert(exts =~= image_extensions());
    let ext = exts[k]@;
    reveal_strlit("png");
    reveal_strlit("jpg");
    reveal_strlit("jpeg");
    reveal_strlit("webp");
    reveal_strlit("bmp");
    reveal_strlit("gif");
    reveal_strlit("tif");
    reveal_strlit("tiff");
    assert forall|i: int| 0 <= i < e.len() implies ascii_lower_code(#[trigger] e[i]) == ext[i] as u32 by {
        assert(0x61 <= (ext[i] as u32) <= 0x7A);
    }
    assert(eq_ascii_lowered(e, image_extensions()[k]@));
}

/// An image path has one of those extensions: its extension, with capitals
/// lowered, is `png`, `jpg`, `jpeg`, `webp`, `bmp`, `gif`, `tif` or `tiff`.
pub proof fn law_image_path_has_a_raster_extension(path: Seq<char>)
    requires
        is_image_path(path),
    ensures
        extension_of(path) is Some,
        ({
            let e = extension_of(path)->0;
            ||| eq_ascii_lowered(e, "png"@)
            ||| eq_ascii_lowered(e, "jpg"@)
            ||| eq_ascii_lowered(e, "jpeg"@)
            ||| eq_ascii_lowered(e, "webp"@)
            ||| eq_ascii_lowered(e, "bmp"@)
            ||| eq_ascii_lowered(e, "gif"@)
            ||| eq_ascii_lowered(e, "tif"@)
            ||| eq_ascii_lowered(e, "tiff"@)
        }),
{
    let exts = seq!["png", "jpg", "jpeg", "webp", "bmp", "gif", "tif", "tiff"];
    assert(exts =~= image_extensions());
    let e = extension_of(path)->0;
    let m = choose|m: int|
        0 <= m < image_extensions().len() && eq_ascii_lowered(e, #[trigger] image_extensions()[m]@);
    assert(exts[m] == image_extensions()[m]);
}

/// The pieces of `s` between occurrences of `sep`.
pub fn split_on(s: &Vec<char>, sep: char) -> (r: Vec<Vec<char>>)
    ensures
        r@.len() == pieces(s@, sep).len(),
        forall|i: int| 0 <= i < r@.len() ==> #[trigger] r@[i]@ == pieces(s@, sep)[i],
{
    let n = s.len();
    let mut out: Vec<Vec<char>> = Vec::new();
    let mut pos: usize = 0;
    let ghost mut done: Seq<Seq<char>> = seq![];
    assert(s@.skip(0) =~= s@);
    assert(done + pieces(s@.skip(0), sep) =~= pieces(s@, sep));
    loop
        invariant
            pos <= n == s@.len(),
            out@.len() == done.len(),
            forall|i: int| 0 <= i < out@.len() ==> #[trigger] out@[i]@ == done[i],
            done + pieces(s@.skip(pos as int), sep) == pieces(s@, sep),
        decreases n - pos,
    {
        let ghost rest = s@.skip(pos as int);
        let mut k = pos;
        while k < n && s[k] != sep
            invariant
                pos <= k <= n == s@.len(),
                rest == s@.skip(pos as int),
                forall|j: int| pos <= j < k ==> s@[j] != sep,
            decreases n - k,
        {
            k = k + 1;
        }
        proof {
            lemma_next_index_of(rest, sep, 0);
            assert forall|j: int| 0 <= j < k - pos implies rest[j] != sep by {
                assert(rest[j] == s@[pos + j]);
            }
            if k < n {
                assert(rest[k - pos] == sep);
            }
            assert(next_index_of(rest, sep, 0) == k - pos) by {
                let m = next_index_of(rest, sep, 0);
                if m < k - pos && m < rest.len() {
                    assert(rest[m] == sep);
                }
                if m > k - pos {
                    assert(rest[k - pos] == sep);
                }
            }
            assert(s@.subrange(pos as int, k as int) =~= rest.take(k - pos));
        }
        let piece = slice_chars(s, pos, k);
        proof {
            done = done.push(piece@);
        }
        out.push(piece);
        if k < n {
            proof {
                assert(rest.skip(k - pos + 1) =~= s@.skip(k + 1));
                assert(pieces(rest, sep) == seq![rest.take(k - pos)] + pieces(
                    s@.skip(k + 1),
                    sep,
                ));
                assert(done + pieces(s@.skip(k + 1), sep) =~= pieces(s@, sep));
            }
            pos = k + 1;
        } else {
            proof {
                assert(rest.take(k - pos) =~= rest);
                assert(pieces(rest, sep) == seq![rest]);
                assert(done =~= pieces(s@, sep));
            }
            return out;
        }
    }
}

fn is_dot_vec(s: &Vec<char>) -> (r: bool)
    ensures
        r == is_dot(s@),
{
    s.len() == 1 && s[0] == '.'
}

fn is_dot_dot_vec(s: &Vec<char>) -> (r: bool)
    ensures
        r == is_dot_dot(s@),
{
    s.len() == 2 && s[0] == '.' && s[1] == '.'
}

/// The last component of `path`, as characters.
fn file_name_chars(path: &Vec<char>) -> (r: Option<Vec<char>>)
    ensures
        match r {
            Some(v) => file_name_of(path@) == Some(v@),
            None => file_name_of(path@) is None,
        },
{
    let ps = split_on(path, '/');
    let ghost all = pieces(path@, '/');
    let mut named: Vec<Vec<char>> = Vec::new();
    let mut i: usize = 0;
    while i < ps.len()
        invariant
            i <= ps@.len() == all.len(),
            all == pieces(path@, '/'),
            forall|k: int| 0 <= k < ps@.len() ==> #[trigger] ps@[k]@ == all[k],
            named@.len() == named_pieces(all.take(i as int)).len(),
            forall|k: int|
                0 <= k < named@.len() ==> #[trigger] named@[k]@ == named_pieces(
                    all.take(i as int),
                )[k],
        decreases ps@.len() - i,
    {
        assert(all.take(i + 1).drop_last() =~= all.take(i as int));
        assert(all.take(i + 1).last() == all[i as int]);
        let p = &ps[i];
        assert(p@ == all[i as int]);
        if !(p.len() == 0 || is_dot_vec(p)) {
            named.push(slice_chars(p, 0, p.len()));
            assert(p@.subrange(0, p@.len() as int) =~= p@);
        }
        i = i + 1;
    }
    assert(all.take(all.len() as int) =~= all);
    if named.len() == 0 {
        return None;
    }
    let last = &named[named.len() - 1];
    if is_dot_dot_vec(last) {
        None
    } else {
        Some(slice_chars(last, 0, last.len()))
    }
}

/// The last component of `path` as `Path::file_name` gives it.
pub fn file_name(path: &str) -> (r: Option<String>)
    ensures
        match r {
            Some(s) => file_name_of(path@) == Some(s@),
            None => file_name_of(path@) is None,
        },
{
    let p = chars_of(path);
    match file_name_chars(&p) {
        Some(v) => Some(string_of(&v)),
        None => None,
    }
}

fn last_dot_index(s: &Vec<char>) -> (r: Option<usize>)
    ensures
        match r {
            Some(i) => last_dot(s@) == i as int && i < s@.len(),
            None => last_dot(s@) == -1,
        },
{
    let mut i = s.len();
    assert(s@.take(i as int) =~= s@);
    while i > 0
        invariant
            i <= s@.len(),
            last_dot(s@) == last_dot(s@.take(i as int)),
        decreases i,
    {
        assert(s@.take(i as int).drop_last() =~= s@.take(i - 1));
        assert(s@.take(i as int).last() == s@[i - 1]);
        if s[i - 1] == '.' {
            return Some(i - 1);
        }
        i = i - 1;
    }
    None
}

fn eq_ascii_lowered_vec(s: &Vec<char>, lower: &Vec<char>) -> (r: bool)
    ensures
        r == eq_ascii_lowered(s@, lower@),
{
    if s.len() != lower.len() {
        return false;
    }
    let mut i: usize = 0;
    while i < s.len()
        invariant
            i <= s@.len() == lower@.len(),
            forall|j: int| 0 <= j < i ==> ascii_lower_code(#[trigger] s@[j]) == lower@[j] as u32,
        decreases s@.len() - i,
    {
        let u = s[i] as u32;
        let l = if 0x41 <= u && u <= 0x5A {
            u + 0x20
        } else {
            u
        };
        if l != lower[i] as u32 {
            return false;
        }
        i = i + 1;
    }
    true
}

/// Whether `ext` names a raster image format, in any letter case.
fn is_image_extension(ext: &Vec<char>) -> (r: bool)
    ensures
        r == exists|k: int|
            0 <= k < image_extensions().len() && eq_ascii_lowered(
                ext@,
                #[trigger] image_extensions()[k]@,
            ),
{
    let exts: [&'static str; 8] = ["png", "jpg", "jpeg", "webp", "bmp", "gif", "tif", "tiff"];
    assert(exts@ =~= image_extensions());
    let mut k: usize = 0;
    while k < 8
        invariant
            k <= 8,
            exts@ == image_extensions(),
            forall|j: int| 0 <= j < k ==> !eq_ascii_lowered(ext@, #[trigger] image_extensions()[j]@),
        decreases 8 - k,
    {
        let lower = chars_of(exts[k]);
        if eq_ascii_lowered_vec(ext, &lower) {
            return true;
        }
        k = k + 1;
    }
    false
}

/// Whether `path` has the extension of a raster image file (png, jpg, jpeg,
/// webp, bmp, gif, tif, tiff), in any letter case.
pub fn is_image_file(path: &str) -> (r: bool)
    ensures
        r == is_image_path(path@),
{
    let p = chars_of(path);
    match file_name_chars(&p) {
        Some(name) => match last_dot_index(&name) {
            Some(d) => {
                if d == 0 {
                    false
                } else {
                    let n = name.len();
                    let ext = slice_chars(&name, d + 1, n);
                    assert(ext@ =~= name@.skip(d + 1));
                    is_image_extension(&ext)
                }
            },
            None => false,
        },
        None => false,
    }
}


// ---------------------------------------------------------------------------
// Text that may name image files.
// ---------------------------------------------------------------------------

/// The lines of `text`, each trimmed.
pub open spec fn trimmed_lines(text: Seq<char>) -> Seq<Seq<char>> {
    lines(text).map_values(|l: Seq<char>| trim(l))
}

/// Characters `a` and `b` are the same sequence.
pub fn same_chars(a: &Vec<char>, b: &Vec<char>) -> (r: bool)
    ensures
        r == (a@ == b@),
{
    if a.len() != b.len() {
        return false;
    }
    let mut i: usize = 0;
    while i < a.len()
        invariant
            i <= a@.len() == b@.len(),
            forall|j: int| 0 <= j < i ==> a@[j] == b@[j],
        decreases a@.len() - i,
    {
        if a[i] != b[i] {
            return false;
        }
        i = i + 1;
    }
    assert(a@ =~= b@);
    true
}

/// The lines of `text`, each trimmed, as `str::lines` and `str::trim` give
/// them.
pub fn text_lines(text: &str) -> (r: Vec<String>)
    ensures
        r@.len() == trimmed_lines(text@).len(),
        forall|i: int| 0 <= i < r@.len() ==> #[trigger] r@[i]@ == trimmed_lines(text@)[i],
{
    let t = chars_of(text);
    let ls = split_lines(&t);
    let mut out: Vec<String> = Vec::new();
    let mut i: usize = 0;
    while i < ls.len()
        invariant
            i <= ls@.len() == lines(text@).len(),
            t@ == text@,
            forall|k: int| 0 <= k < ls@.len() ==> #[trigger] ls@[k]@ == lines(text@)[k],
            out@.len() == i,
            forall|k: int| 0 <= k < i ==> #[trigger] out@[k]@ == trim(lines(text@)[k]),
        decreases ls@.len() - i,
    {
        let line = trim_chars(&ls[i]);
        out.push(string_of(&line));
        i = i + 1;
    }
    out
}

/// Whether clipboard text looks like it names a file: it starts with `/` or
/// holds a `file://` URI.
pub open spec fn names_a_path(text: Seq<char>) -> bool {
    (text.len() > 0 && text[0] == '/') || contains_seq(text, "file://"@)
}

/// Whether clipboard text looks like it names a file.
pub fn looks_like_path(text: &str) -> (r: bool)
    ensures
        r == names_a_path(text@),
{
    let t = chars_of(text);
    let prefix = chars_of("file://");
    (t.len() > 0 && t[0] == '/') || has_seq(&t, &prefix)
}

/// The path a trimmed clipboard line names: the decoded path of a `file://`
/// URI, or, when the clipboard also carries a file payload, a line that
/// starts with `/`.
pub open spec fn named_path(line: Seq<char>, has_file_payload: bool) -> Option<Seq<char>> {
    if starts_with(line, "file://"@) {
        Some(percent_decoded_text(line.skip("file://"@.len() as int)))
    } else if has_file_payload && line.len() > 0 && line[0] == '/' {
        Some(line)
    } else {
        None
    }
}

/// The image file a trimmed clipboard line names, if the path it names has an
/// image extension.
pub open spec fn line_image_path(line: Seq<char>, has_file_payload: bool) -> Option<Seq<char>> {
    match named_path(line, has_file_payload) {
        Some(p) => if is_image_path(p) {
            Some(p)
        } else {
            None
        },
        None => None,
    }
}

/// A `file://` line can be decoded: its escapes do not split a character.
pub open spec fn uri_line_decodable(line: Seq<char>) -> bool {
    starts_with(line, "file://"@) ==> escapes_whole_chars(
        vstd::utf8::encode_utf8(line.skip("file://"@.len() as int)),
    )
}

fn uri_rest(line: &Vec<char>) -> (r: Option<String>)
    ensures
        match r {
            Some(rest) => starts_with(line@, "file://"@) && rest@ == line@.skip(
                "file://"@.len() as int,
            ),
            None => !starts_with(line@, "file://"@),
        },
{
    let prefix = chars_of("file://");
    if has_prefix(line, &prefix) {
        let n = line.len();
        let rest = slice_chars(line, prefix.len(), n);
        assert(rest@ =~= line@.skip(prefix@.len() as int));
        Some(string_of(&rest))
    } else {
        None
    }
}

/// Whether the `file://` URI on a trimmed line has an escape that would
/// split a character, the line on which decoding cannot proceed.
pub fn file_uri_splits_char(line: &str) -> (r: bool)
    ensures
        r == !uri_line_decodable(line@),
{
    let l = chars_of(line);
    match uri_rest(&l) {
        Some(rest) => escape_splits_char(rest.as_str()),
        None => false,
    }
}

/// The image file a trimmed clipboard line names, if any.
pub fn image_path_in_line(line: &str, has_file_payload: bool) -> (r: Option<String>)
    requires
        uri_line_decodable(line@),
    ensures
        match r {
            Some(p) => line_image_path(line@, has_file_payload) == Some(p@),
            None => line_image_path(line@, has_file_payload) is None,
        },
{
    let l = chars_of(line);
    let path = match uri_rest(&l) {
        Some(rest) => percent_decode(rest.as_str()),
        None => {
            if has_file_payload && l.len() > 0 && l[0] == '/' {
                string_of(&l)
            } else {
                return None;
            }
        },
    };
    if is_image_file(path.as_str()) {
        Some(path)
    } else {
        None
    }
}

// ---------------------------------------------------------------------------
// `text/uri-list` payloads.
// ---------------------------------------------------------------------------

/// What a trimmed `text/uri-list` line tells: for a `file://` URI, the file
/// name (or the whole decoded path when it has none) and whether the path or
/// that name has an image extension.
pub open spec fn uri_entry(line: Seq<char>) -> Option<(Seq<char>, bool)> {
    if starts_with(line, "file://"@) {
        let path = percent_decoded_text(line.skip("file://"@.len() as int));
        let name = match file_name_of(path) {
            Some(n) => n,
            None => path,
        };
        Some((name, is_image_path(path) || is_image_path(name)))
    } else {
        None
    }
}

/// The name picked from lines `ls`: that of the first image entry, else that
/// of the first entry (`best` once one is seen).
pub open spec fn uri_list_pick(ls: Seq<Seq<char>>, best: Option<Seq<char>>) -> Option<Seq<char>>
    decreases ls.len(),
{
    if ls.len() == 0 {
        best
    } else {
        match uri_entry(trim(ls[0])) {
            None => uri_list_pick(ls.drop_first(), best),
            Some((name, image)) => if image {
                Some(name)
            } else {
                uri_list_pick(
                    ls.drop_first(),
                    if best is None {
                        Some(name)
                    } else {
                        best
                    },
                )
            },
        }
    }
}

/// Every line that the pick reads can be decoded.
pub open spec fn uri_list_decodable(ls: Seq<Seq<char>>) -> bool
    decreases ls.len(),
{
    if ls.len() == 0 {
        true
    } else {
        let t = trim(ls[0]);
        if !uri_line_decodable(t) {
            false
        } else {
            match uri_entry(t) {
                Some((_, true)) => true,
                _ => uri_list_decodable(ls.drop_first()),
            }
        }
    }
}

/// Reads one trimmed uri-list line; `None` when the line is not a `file://`
/// URI.
fn read_uri_entry(line: &Vec<char>) -> (r: Option<(String, bool)>)
    requires
        uri_line_decodable(line@),
    ensures
        match r {
            Some((name, image)) => uri_entry(line@) == Some((name@, image)),
            None => uri_entry(line@) is None,
        },
{
    match uri_rest(line) {
        Some(rest) => {
            let path = percent_decode(rest.as_str());
            let name = match file_name(path.as_str()) {
                Some(n) => n,
                None => path.clone(),
            };
            let image = is_image_file(path.as_str()) || is_image_file(name.as_str());
            Some((name, image))
        },
        None => None,
    }
}

/// Walks the lines of a uri-list; `None` when a line it must read cannot be
/// decoded, else the picked name.
fn scan_uri_list(listing: &str) -> (r: Option<Option<String>>)
    ensures
        r is Some <==> uri_list_decodable(lines(listing@)),
        r matches Some(pick) ==> match pick {
            Some(name) => uri_list_pick(lines(listing@), None) == Some(name@),
            None => uri_list_pick(lines(listing@), None) is None,
        },
{
    let t = chars_of(listing);
    let ls = split_lines(&t);
    let ghost all = lines(listing@);
    let mut best: Option<String> = None;
    let mut i: usize = 0;
    assert(all.skip(0) =~= all);
    while i < ls.len()
        invariant
            i <= ls@.len() == all.len(),
            all == lines(listing@),
            forall|k: int| 0 <= k < ls@.len() ==> #[trigger] ls@[k]@ == all[k],
            uri_list_pick(all, None) == uri_list_pick(
                all.skip(i as int),
                match best {
                    Some(b) => Some(b@),
                    None => None,
                },
            ),
            uri_list_decodable(all) == uri_list_decodable(all.skip(i as int)),
        decreases ls@.len() - i,
    {
        let ghost rest = all.skip(i as int);
        assert(rest[0] == all[i as int]);
        assert(rest.drop_first() =~= all.skip(i + 1));
        let line = trim_chars(&ls[i]);
        if !uri_line_decodable_vec(&line) {
            return None;
        }
        match read_uri_entry(&line) {
            None => {},
            Some((name, image)) => {
                if image {
                    return Some(Some(name));
                }
                if best.is_none() {
                    best = Some(name);
                }
            },
        }
        i = i + 1;
    }
    assert(all.skip(all.len() as int).len() == 0);
    Some(best)
}

fn uri_line_decodable_vec(line: &Vec<char>) -> (r: bool)
    ensures
        r == uri_line_decodable(line@),
{
    match uri_rest(line) {
        Some(rest) => !escape_splits_char(rest.as_str()),
        None => true,
    }
}

/// The file name offered by a `text/uri-list` payload: that of the first
/// `file://` entry whose path or name has an image extension, else that of
/// the first `file://` entry.
pub fn image_name_from_uri_list(listing: &str) -> (r: Option<String>)
    requires
        uri_list_decodable(lines(listing@)),
    ensures
        match r {
            Some(name) => uri_list_pick(lines(listing@), None) == Some(name@),
            None => uri_list_pick(lines(listing@), None) is None,
        },
{
    match scan_uri_list(listing) {
        Some(pick) => pick,
        None => None,
    }
}

/// The file name offered by a `text/uri-list` payload, or `None` when a line
/// the pick must read holds an escape that splits a character (the listing
/// cannot be read).
pub fn checked_image_name_from_uri_list(listing: &str) -> (r: Option<Option<String>>)
    ensures
        r is Some <==> uri_list_decodable(lines(listing@)),
        r matches Some(pick) ==> match pick {
            Some(name) => uri_list_pick(lines(listing@), None) == Some(name@),
            None => uri_list_pick(lines(listing@), None) is None,
        },
{
    if scan_uri_list(listing).is_some() {
        Some(image_name_from_uri_list(listing))
    } else {
        None
    }
}

// ---------------------------------------------------------------------------
// MIME type listings.
// ---------------------------------------------------------------------------

/// The image types a Wayland clipboard payload is read in, in order of
/// preference.
pub open spec fn wayland_image_types() -> Seq<&'static str> {
    seq!["image/png", "image/jpeg", "image/webp", "image/bmp", "image/gif"]
}

/// `t` is one of `types`.
pub open spec fn among(types: Seq<&'static str>, t: Seq<char>) -> bool {
    exists|k: int| 0 <= k < types.len() && #[trigger] types[k]@ == t
}

/// The first line of a type listing, trimmed, that is a supported image type.
pub open spec fn first_supported(ls: Seq<Seq<char>>) -> Option<Seq<char>>
    decreases ls.len(),
{
    if ls.len() == 0 {
        None
    } else if among(wayland_image_types(), trim(ls[0])) {
        Some(trim(ls[0]))
    } else {
        first_supported(ls.drop_first())
    }
}

fn is_among(types: &[&'static str; 5], t: &Vec<char>) -> (r: bool)
    ensures
        r == among(types@, t@),
{
    let mut k: usize = 0;
    while k < 5
        invariant
            k <= 5,
            forall|j: int| 0 <= j < k ==> #[trigger] types@[j]@ != t@,
        decreases 5 - k,
    {
        let c = chars_of(types[k]);
        if same_chars(&c, t) {
            return true;
        }
        k = k + 1;
    }
    false
}

/// The first type in a `wl-paste --list-types` listing that the library reads
/// images in (png, jpeg, webp, bmp, gif).
pub fn first_supported_image_type(listing: &str) -> (r: Option<String>)
    ensures
        match r {
            Some(t) => first_supported(lines(listing@)) == Some(t@),
            None => first_supported(lines(listing@)) is None,
        },
{
    let types: [&'static str; 5] = [
        "image/png",
        "image/jpeg",
        "image/webp",
        "image/bmp",
        "image/gif",
    ];
    assert(types@ =~= wayland_image_types());
    let t = chars_of(listing);
    let ls = split_lines(&t);
    let ghost all = lines(listing@);
    let mut i: usize = 0;
    assert(all.skip(0) =~= all);
    while i < ls.len()
        invariant
            i <= ls@.len() == all.len(),
            all == lines(listing@),
            types@ == wayland_image_types(),
            forall|k: int| 0 <= k < ls@.len() ==> #[trigger] ls@[k]@ == all[k],
            first_supported(all) == first_supported(all.skip(i as int)),
        decreases ls@.len() - i,
    {
        let ghost rest = all.skip(i as int);
        assert(rest[0] == all[i as int]);
        assert(rest.drop_first() =~= all.skip(i + 1));
        let line = trim_chars(&ls[i]);
        if is_among(&types, &line) {
            return Some(string_of(&line));
        }
        i = i + 1;
    }
    assert(all.skip(all.len() as int).len() == 0);
    None
}

/// Some line of `targets`, trimmed, is `mime`.
pub open spec fn offers(targets: Seq<char>, mime: Seq<char>) -> bool {
    exists|i: int| 0 <= i < lines(targets).len() && trim(#[trigger] lines(targets)[i]) == mime
}

fn offers_vec(ls: &Vec<Vec<char>>, mime: &Vec<char>, targets: Ghost<Seq<char>>) -> (r: bool)
    requires
        ls@.len() == lines(targets@).len(),
        forall|k: int| 0 <= k < ls@.len() ==> #[trigger] ls@[k]@ == lines(targets@)[k],
    ensures
        r == offers(targets@, mime@),
{
    let mut i: usize = 0;
    while i < ls.len()
        invariant
            i <= ls@.len() == lines(targets@).len(),
            forall|k: int| 0 <= k < ls@.len() ==> #[trigger] ls@[k]@ == lines(targets@)[k],
            forall|k: int| 0 <= k < i ==> trim(#[trigger] lines(targets@)[k]) != mime@,
        decreases ls@.len() - i,
    {
        let line = trim_chars(&ls[i]);
        if same_chars(&line, mime) {
            return true;
        }
        i = i + 1;
    }
    false
}

/// Whether the clipboard owner's `TARGETS` listing offers `mime`.
pub fn offers_target(targets: &str, mime: &str) -> (r: bool)
    ensures
        r == offers(targets@, mime@),
{
    let t = chars_of(targets);
    let ls = split_lines(&t);
    let m = chars_of(mime);
    offers_vec(&ls, &m, Ghost(targets@))
}

/// The raster types other than PNG that an X11 clipboard image may be read
/// in, in the order they are tried.
pub open spec fn x11_raster_types() -> Seq<&'static str> {
    seq!["image/jpeg", "image/webp", "image/bmp", "image/gif", "image/tiff"]
}

/// The types of `types` that `targets` offers, in order.
pub open spec fn offered_types(targets: Seq<char>, types: Seq<&'static str>) -> Seq<&'static str>
    decreases types.len(),
{
    if types.len() == 0 {
        seq![]
    } else if offers(targets, types.last()@) {
        offered_types(targets, types.drop_last()).push(types.last())
    } else {
        offered_types(targets, types.drop_last())
    }
}

/// The raster types (jpeg, webp, bmp, gif, tiff) that a `TARGETS` listing
/// offers, in the order they are tried.
pub fn advertised_raster_types(targets: &str) -> (r: Vec<&'static str>)
    ensures
        r@ == offered_types(targets@, x11_raster_types()),
{
    let types: [&'static str; 5] = [
        "image/jpeg",
        "image/webp",
        "image/bmp",
        "image/gif",
        "image/tiff",
    ];
    assert(types@ =~= x11_raster_types());
    let t = chars_of(targets);
    let ls = split_lines(&t);
    let mut out: Vec<&'static str> = Vec::new();
    let mut k: usize = 0;
    while k < 5
        invariant
            k <= 5,
            types@ == x11_raster_types(),
            ls@.len() == lines(targets@).len(),
            forall|j: int| 0 <= j < ls@.len() ==> #[trigger] ls@[j]@ == lines(targets@)[j],
            out@ == offered_types(targets@, x11_raster_types().take(k as int)),
        decreases 5 - k,
    {
        assert(x11_raster_types().take(k + 1).drop_last() =~= x11_raster_types().take(k as int));
        let m = chars_of(types[k]);
        if offers_vec(&ls, &m, Ghost(targets@)) {
            out.push(types[k]);
        }
        k = k + 1;
    }
    assert(x11_raster_types().take(5) =~= x11_raster_types());
    out
}

// ---------------------------------------------------------------------------
// File lists.
// ---------------------------------------------------------------------------

/// The index of the first path in `files` with an image extension, or of the
/// first path when none has one.
pub open spec fn chosen_file(files: Seq<String>) -> int {
    if exists|i: int| 0 <= i < files.len() && is_image_path(#[trigger] files[i]@) {
        choose|i: int|
            0 <= i < files.len() && is_image_path(files[i]@) && forall|j: int|
                0 <= j < i ==> !is_image_path(#[trigger] files[j]@)
    } else {
        0
    }
}

/// The name offered by a clipboard file list: the file name of its first
/// image file, else of its first file.
pub open spec fn file_list_name(files: Seq<String>) -> Option<Seq<char>> {
    if files.len() == 0 {
        None
    } else {
        file_name_of(files[chosen_file(files)]@)
    }
}

/// The name offered by a clipboard file list: the file name of its first
/// image file, else that of its first file.
pub fn image_name_from_files(files: &Vec<String>) -> (r: Option<String>)
    ensures
        match r {
            Some(n) => file_list_name(files@) == Some(n@),
            None => file_list_name(files@) is None,
        },
{
    if files.len() == 0 {
        return None;
    }
    let mut i: usize = 0;
    while i < files.len()
        invariant
            i <= files@.len(),
            forall|j: int| 0 <= j < i ==> !is_image_path(#[trigger] files@[j]@),
        decreases files@.len() - i,
    {
        if is_image_file(files[i].as_str()) {
            proof {
                let c = chosen_file(files@);
                assert(is_image_path(files@[i as int]@));
                assert(0 <= c < files@.len() && is_image_path(files@[c]@) && forall|j: int|
                    0 <= j < c ==> !is_image_path(#[trigger] files@[j]@));
                if c < i {
                    assert(!is_image_path(files@[c]@));
                }
                if c > i {
                    assert(!is_image_path(files@[i as int]@));
                }
            }
            return file_name(files[i].as_str());
        }
        i = i + 1;
    }
    file_name(files[0].as_str())
}

// ---------------------------------------------------------------------------
// Session backends.
// ---------------------------------------------------------------------------

/// Which clipboard backend serves a desktop session.
#[derive(Clone, Copy, PartialEq, Eq, Structural, Debug)]
pub enum SessionBackend {
    Wayland,
    X11,
}

/// The backend for a session whose `XDG_SESSION_TYPE` is `session`: on Linux,
/// Wayland for `"wayland"` and X11 for anything else or nothing, the safer
/// fallback; on other systems, which have no such sessions, always the
/// default backend.
pub fn backend_for_session(on_linux: bool, session: Option<&str>) -> (r: SessionBackend)
    ensures
        r == if on_linux && (session matches Some(s) && s@ == "wayland"@) {
            SessionBackend::Wayland
        } else {
            SessionBackend::X11
        },
{
    if !on_linux {
        return SessionBackend::X11;
    }
    match session {
        Some(s) => {
            let a = chars_of(s);
            let b = chars_of("wayland");
            if same_chars(&a, &b) {
                SessionBackend::Wayland
            } else {
                SessionBackend::X11
            }
        },
        None => SessionBackend::X11,
    }
}

} // verus!

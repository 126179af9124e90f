//! Text-level helpers of the SVG exporter: XML escaping, base64 for
//! embedded rasters, MIME types by extension, raster path resolution, and
//! the ACI range accepted by plot-style tables.

use crate::text::{ascii_lower_seq, chars_of, char_from_ascii_code, push_char, push_str};
use vstd::prelude::*;

verus! {

/// XML entity for characters that need one in element content and
/// attribute values.
pub open spec fn xml_escape_char(c: char) -> Seq<char> {
    if c == '&' {
        "&amp;"@
    } else if c == '<' {
        "&lt;"@
    } else if c == '>' {
        "&gt;"@
    } else if c == '"' {
        "&quot;"@
    } else if c == '\'' {
        "&apos;"@
    } else {
        seq![c]
    }
}

/// `s` with `& < > " '` replaced by their XML entities.
pub open spec fn xml_escape_seq(s: Seq<char>) -> Seq<char>
    decreases s.len(),
{
    if s.len() == 0 {
        Seq::empty()
    } else {
        xml_escape_seq(s.drop_last()) + xml_escape_char(s.last())
    }
}

/// Escape `& < > " '` for XML text and attribute values.
pub fn xml_escape(s: &str) -> (r: String)
    ensures
        r@ == xml_escape_seq(s@),
{
    let v = chars_of(s);
    let mut out = String::new();
    let mut i: usize = 0;
    assert(v@.take(0) =~= Seq::<char>::empty());
    while i < v.len()
        invariant
            v@ == s@,
            i <= v@.len(),
            out@ == xml_escape_seq(v@.take(i as int)),
        decreases v.len() - i,
    {
        let c = v[i];
        if c == '&' {
            push_str(&mut out, "&amp;");
        } else if c == '<' {
            push_str(&mut out, "&lt;");
        } else if c == '>' {
            push_str(&mut out, "&gt;");
        } else if c == '"' {
            push_str(&mut out, "&quot;");
        } else if c == '\'' {
            push_str(&mut out, "&apos;");
        } else {
            push_char(&mut out, c);
        }
        assert(v@.take(i + 1).drop_last() =~= v@.take(i as int));
        i += 1;
    }
    assert(v@.take(v@.len() as int) =~= v@);
    out
}

/// Escape a string for use in an XML attribute value.
pub fn xml_attr_escape(s: &str) -> (r: String)
    ensures
        r@ == xml_escape_seq(s@),
{
    xml_escape(s)
}

/// The base64 alphabet of RFC 4648.
pub open spec fn b64_char(i: int) -> char {
    if i < 26 {
        (65 + i) as char
    } else if i < 52 {
        (97 + i - 26) as char
    } else if i < 62 {
        (48 + i - 52) as char
    } else if i == 62 {
        '+'
    } else {
        '/'
    }
}

/// Standard, `=`-padded base64 of `b` (RFC 4648).
pub open spec fn base64_seq(b: Seq<u8>) -> Seq<char>
    decreases b.len(),
{
    if b.len() == 0 {
        Seq::empty()
    } else if b.len() == 1 {
        seq![b64_char((b[0] / 4) as int), b64_char((b[0] % 4) * 16), '=', '=']
    } else if b.len() == 2 {
        seq![
            b64_char((b[0] / 4) as int),
            b64_char((b[0] % 4) * 16 + b[1] / 16),
            b64_char((b[1] % 16) * 4),
            '=',
        ]
    } else {
        seq![
            b64_char((b[0] / 4) as int),
            b64_char((b[0] % 4) * 16 + b[1] / 16),
            b64_char((b[1] % 16) * 4 + b[2] / 64),
            b64_char((b[2] % 64) as int),
        ] + base64_seq(b.skip(3))
    }
}

fn b64_char_exec(i: u32) -> (c: char)
    requires
        i < 64,
    ensures
        c == b64_char(i as int),
{
    if i < 26 {
        char_from_ascii_code(65 + i)
    } else if i < 52 {
        char_from_ascii_code(97 + i - 26)
    } else if i < 62 {
        char_from_ascii_code(48 + i - 52)
    } else if i == 62 {
        '+'
    } else {
        '/'
    }
}

/// RFC 4648 base64 (standard alphabet, `=`-padded).
pub fn base64_encode(bytes: &[u8]) -> (r: String)
    ensures
        r@ == base64_seq(bytes@),
{
    let mut out = String::new();
    let full_chunks = bytes.len() / 3;
    let mut chunk: usize = 0;
    assert(bytes@.skip(0) =~= bytes@);
    assert(3 * full_chunks <= bytes@.len()) by (nonlinear_arith)
        requires
            full_chunks == bytes@.len() / 3,
    ;
    while chunk < full_chunks
        invariant
            full_chunks == bytes@.len() / 3,
            3 * full_chunks <= bytes@.len(),
            chunk <= full_chunks,
            base64_seq(bytes@) == out@ + base64_seq(bytes@.skip(3 * chunk)),
        decreases full_chunks - chunk,
    {
        assert(chunk * 3 + 3 <= bytes.len());
        let i = chunk * 3;
        let b0: u32 = bytes[i] as u32;
        let b1: u32 = bytes[i + 1] as u32;
        let b2: u32 = bytes[i + 2] as u32;
        let n: u32 = (b0 << 16) | (b1 << 8) | b2;
        assert((n >> 18) & 0x3F == b0 / 4 && (n >> 12) & 0x3F == (b0 % 4) * 16 + b1 / 16 && (n >> 6)
            & 0x3F == (b1 % 16) * 4 + b2 / 64 && n & 0x3F == b2 % 64) by (bit_vector)
            requires
                b0 < 256,
                b1 < 256,
                b2 < 256,
                n == (b0 << 16) | (b1 << 8) | b2,
        ;
        let ghost t = bytes@.skip(i as int);
        assert(t[0] == b0 && t[1] == b1 && t[2] == b2);
        push_char(&mut out, b64_char_exec((n >> 18) & 0x3F));
        push_char(&mut out, b64_char_exec((n >> 12) & 0x3F));
        push_char(&mut out, b64_char_exec((n >> 6) & 0x3F));
        push_char(&mut out, b64_char_exec(n & 0x3F));
        assert(t.skip(3) =~= bytes@.skip(3 * (chunk + 1)));
        chunk += 1;
    }
    let rem = bytes.len() - full_chunks * 3;
    let tail_i = full_chunks * 3;
    let ghost t = bytes@.skip(tail_i as int);
    if rem == 1 {
        let b0: u32 = bytes[tail_i] as u32;
        let n: u32 = b0 << 16;
        assert((n >> 18) & 0x3F == b0 / 4 && (n >> 12) & 0x3F == (b0 % 4) * 16) by (bit_vector)
            requires
                b0 < 256,
                n == b0 << 16,
        ;
        push_char(&mut out, b64_char_exec((n >> 18) & 0x3F));
        push_char(&mut out, b64_char_exec((n >> 12) & 0x3F));
        push_str(&mut out, "==");
        proof {
            reveal_strlit("==");
            assert(t.len() == 1 && t[0] == b0);
        }
    } else if rem == 2 {
        let b0: u32 = bytes[tail_i] as u32;
        let b1: u32 = bytes[tail_i + 1] as u32;
        let n: u32 = (b0 << 16) | (b1 << 8);
        assert((n >> 18) & 0x3F == b0 / 4 && (n >> 12) & 0x3F == (b0 % 4) * 16 + b1 / 16 && (n >> 6)
            & 0x3F == (b1 % 16) * 4) by (bit_vector)
            requires
                b0 < 256,
                b1 < 256,
                n == (b0 << 16) | (b1 << 8),
        ;
        push_char(&mut out, b64_char_exec((n >> 18) & 0x3F));
        push_char(&mut out, b64_char_exec((n >> 12) & 0x3F));
        push_char(&mut out, b64_char_exec((n >> 6) & 0x3F));
        push_char(&mut out, '=');
        proof {
            assert(t.len() == 2 && t[0] == b0 && t[1] == b1);
        }
    } else {
        assert(t.len() == 0);
        assert(out@ + Seq::<char>::empty() =~= out@);
    }
    out
}

/// MIME type for a raster file extension (compared ASCII-case-insensitively).
pub open spec fn mime_for_extension_of(ext: Seq<char>) -> Option<Seq<char>> {
    let e = ascii_lower_seq(ext);
    if e == "png"@ {
        Some("image/png"@)
    } else if e == "jpg"@ || e == "jpeg"@ || e == "jpe"@ {
        Some("image/jpeg"@)
    } else if e == "gif"@ {
        Some("image/gif"@)
    } else if e == "bmp"@ {
        Some("image/bmp"@)
    } else if e == "webp"@ {
        Some("image/webp"@)
    } else if e == "tif"@ || e == "tiff"@ {
        Some("image/tiff"@)
    } else if e == "svg"@ {
        Some("image/svg+xml"@)
    } else {
        None
    }
}

/// MIME type for a raster file extension, `None` for unknown ones.
pub fn mime_for_extension(ext: &str) -> (r: Option<&'static str>)
    ensures
        match mime_for_extension_of(ext@) {
            Some(m) => r matches Some(s) && s@ == m,
            None => r is None,
        },
{
    let v = chars_of(ext);
    let n = v.len();
    assert(v@.subrange(0, n as int) =~= ext@);
    if crate::text::eq_ascii_lower(&v, 0, n, "png") {
        Some("image/png")
    } else if crate::text::eq_ascii_lower(&v, 0, n, "jpg") || crate::text::eq_ascii_lower(
        &v,
        0,
        n,
        "jpeg",
    ) || crate::text::eq_ascii_lower(&v, 0, n, "jpe") {
        Some("image/jpeg")
    } else if crate::text::eq_ascii_lower(&v, 0, n, "gif") {
        Some("image/gif")
    } else if crate::text::eq_ascii_lower(&v, 0, n, "bmp") {
        Some("image/bmp")
    } else if crate::text::eq_ascii_lower(&v, 0, n, "webp") {
        Some("image/webp")
    } else if crate::text::eq_ascii_lower(&v, 0, n, "tif") || crate::text::eq_ascii_lower(
        &v,
        0,
        n,
        "tiff",
    ) {
        Some("image/tiff")
    } else if crate::text::eq_ascii_lower(&v, 0, n, "svg") {
        Some("image/svg+xml")
    } else {
        None
    }
}

/// The text after the last `/` of `s` (all of `s` when it has none).
pub open spec fn final_segment(s: Seq<char>) -> Seq<char>
    decreases s.len(),
{
    if s.len() == 0 {
        s
    } else if s.last() == '/' {
        Seq::empty()
    } else {
        final_segment(s.drop_last()).push(s.last())
    }
}

/// The text before the last `/` of `s` (empty when it has none).
pub open spec fn dir_part(s: Seq<char>) -> Seq<char>
    decreases s.len(),
{
    if s.len() == 0 {
        s
    } else if s.last() == '/' {
        s.drop_last()
    } else {
        dir_part(s.drop_last())
    }
}

/// A path that every platform's path rules read alike: no `\`, no `:`,
/// no leading `//`, and a last `/`-separated part that is neither empty
/// nor `.`; that part is then its file name (none for `..`).
pub open spec fn portable_path(s: Seq<char>) -> bool {
    &&& !s.contains('\\')
    &&& !s.contains(':')
    &&& !(s.len() >= 2 && s[0] == '/' && s[1] == '/')
    &&& final_segment(s).len() > 0
    &&& final_segment(s) != seq!['.']
}

/// Index of the last `.` of `n`, or -1.
pub open spec fn last_dot(n: Seq<char>) -> int
    decreases n.len(),
{
    if n.len() == 0 {
        -1
    } else if n.last() == '.' {
        n.len() - 1
    } else {
        last_dot(n.drop_last())
    }
}

/// The extension of file name `n` as std's `Path::extension` documents it:
/// the text after the final `.`, none without an embedded `.` (a leading
/// one does not count) and none for `..`.
pub open spec fn name_extension(n: Seq<char>) -> Option<Seq<char>> {
    if n == seq!['.', '.'] || last_dot(n) <= 0 {
        None
    } else {
        Some(n.skip(last_dot(n) + 1))
    }
}

/// The stem of file name `n` as std's `Path::file_stem` documents it: the
/// text before the final `.`, all of `n` without an embedded `.`, and none
/// for `..`.
pub open spec fn name_stem(n: Seq<char>) -> Option<Seq<char>> {
    if n == seq!['.', '.'] {
        None
    } else if last_dot(n) <= 0 {
        Some(n)
    } else {
        Some(n.take(last_dot(n)))
    }
}

pub open spec fn opt_text(o: Option<String>) -> Option<Seq<char>> {
    match o {
        Some(s) => Some(s@),
        None => None,
    }
}

/// std's `Path::extension` of `path` (valid UTF-8, as `path` is).  Path
/// syntax differs between platforms, so the contract claims the
/// documented extension only for paths that all platforms read alike.
#[verifier::external_body]
pub(crate) fn path_extension(path: &str) -> (r: Option<String>)
    ensures
        portable_path(path@) ==> opt_text(r) == name_extension(final_segment(path@)),
{
    std::path::Path::new(path).extension().and_then(|e| e.to_str()).map(|e| e.to_string())
}

/// The MIME type of the file at `path`, for a path read alike on every
/// platform.
pub open spec fn mime_for_path(path: Seq<char>) -> Option<Seq<char>> {
    match name_extension(final_segment(path)) {
        Some(e) => mime_for_extension_of(e),
        None => None,
    }
}

/// Guess a MIME type for a `data:` URI from the file's extension; `None`
/// for files without an extension or with an unknown one.
pub fn guess_image_mime(path: &str) -> (r: Option<&'static str>)
    ensures
        r matches Some(m) ==> exists|e: Seq<char>| mime_for_extension_of(e) == Some(m@),
        portable_path(path@) ==> match mime_for_path(path@) {
            Some(m) => r matches Some(s) && s@ == m,
            None => r is None,
        },
{
    match path_extension(path) {
        Some(ext) => mime_for_extension(ext.as_str()),
        None => None,
    }
}

/// Whether `s` starts with `/`.
pub open spec fn starts_with_slash(s: Seq<char>) -> bool {
    s.len() > 0 && s[0] == '/'
}

/// std's `Path::is_absolute`.  Absolute paths differ between platforms;
/// the contract claims only that a portable path not starting with `/`
/// is relative (it has neither a root nor a drive prefix).
#[verifier::external_body]
fn path_is_absolute(path: &str) -> (r: bool)
    ensures
        portable_path(path@) && !starts_with_slash(path@) ==> !r,
{
    std::path::Path::new(path).is_absolute()
}

/// std's `Path::join` of `base` and `rel`.  Joining a relative portable
/// path to a portable base (which does not end in a separator) puts the
/// platform's separator between them: `/` on Unix, `\` on Windows.
#[verifier::external_body]
fn path_join(base: &str, rel: &str) -> (r: std::path::PathBuf)
    ensures
        portable_path(base@) && portable_path(rel@) && !starts_with_slash(rel@) ==> (r == path_from_text(
            base@ + seq!['/'] + rel@,
        ) || r == path_from_text(base@ + seq!['\\'] + rel@)),
{
    std::path::Path::new(base).join(rel)
}

/// The path spelled by the text `s` (std's `PathBuf::from`).
pub uninterp spec fn path_from_text(s: Seq<char>) -> std::path::PathBuf;

/// std's `PathBuf::from`: the path spelled by `path`, named
/// `path_from_text`.
#[verifier::external_body]
pub(crate) fn path_buf(path: &str) -> (r: std::path::PathBuf)
    ensures
        r == path_from_text(path@),
{
    std::path::PathBuf::from(path)
}

#[verifier::external_type_specification]
#[verifier::external_body]
pub struct ExPathBuf(std::path::PathBuf);

/// Resolve a possibly relative raster path against `base`: absolute paths
/// and paths without a base are used as given, relative ones are joined to
/// the base.
pub fn resolve_image_path(file_path: &str, base: Option<&str>) -> (r: std::path::PathBuf)
    ensures
        base is None ==> r == path_from_text(file_path@),
        base matches Some(b) ==> portable_path(file_path@) && portable_path(b@) && !starts_with_slash(file_path@)
            ==> (r == path_from_text(b@ + seq!['/'] + file_path@) || r == path_from_text(
            b@ + seq!['\\'] + file_path@,
        )),
{
    if path_is_absolute(file_path) {
        return path_buf(file_path);
    }
    match base {
        Some(b) => path_join(b, file_path),
        None => path_buf(file_path),
    }
}

/// Narrow a native color index to the ACI range 1..=255 that plot-style
/// tables accept (256 by layer, 0 by block, negatives special).
pub fn aci_for_ctb(color_index: i16) -> (r: Option<u8>)
    ensures
        1 <= color_index <= 255 ==> r == Some(color_index as u8),
        !(1 <= color_index <= 255) ==> r is None,
{
    if 1 <= color_index && color_index <= 255 {
        Some(color_index as u8)
    } else {
        None
    }
}

} // verus!

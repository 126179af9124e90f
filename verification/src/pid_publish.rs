//! SPPID publish: the identity constants, the BRAN attribute table, the
//! stable identifiers derived from drawing attributes, and the XML
//! documents (Drawing / General streams, Data.xml, Meta.xml) written for
//! a drawing that carries one `SPPID_BRAN` block reference.

use crate::publish_xml::count_rows_view;
use crate::string_map::{lemma_map_of, map_of, StringMap};
use crate::svg_export::{
    dir_part, final_segment, name_stem, opt_text, path_from_text, portable_path, xml_escape,
    xml_escape_char, xml_escape_seq,
};
use crate::text::{
    ascii_lower_seq, ascii_upper_seq, chars_of, eq_ascii_lower, hex_text, push_char,
    push_hex_padded, push_str, str_eq, to_ascii_uppercase, trim, trimmed, zero_pad,
};
use vstd::prelude::*;

verus! {

/// Name of the block whose single reference carries the publish attributes.
pub const SPPID_BRAN_BLOCK_NAME: &'static str = "SPPID_BRAN";

/// `ToolID` written into Data.xml and Meta.xml.
pub const SPPID_TOOL_ID: &'static str = "H7CAD";

/// `SoftwareVersion` written into Data.xml and Meta.xml; kept equal to the
/// package version by a test rather than bound to it at compile time.
pub const SPPID_SOFTWARE_VERSION: &'static str = "0.1.3";

/// Path of the Drawing tagged-text stream inside a PID package.
pub const DRAWING_STREAM_PATH: &'static str = "/TaggedTxtData/Drawing";

/// Path of the General tagged-text stream inside a PID package.
pub const GENERAL_STREAM_PATH: &'static str = "/TaggedTxtData/General";

/// The BRAN attribute table: tag, prompt and default value, in block order.
pub open spec fn bran_rows() -> Seq<(Seq<char>, Seq<char>, Seq<char>)> {
    seq![
        ("DRAWING_NO"@, "Drawing Number"@, "DWG-0202GP06-01"@),
        ("DOC_TITLE"@, "Document Title"@, "H7CAD BRAN Tutorial"@),
        ("PIPELINE"@, "Pipeline"@, "A3jqz0101-OD"@),
        ("CONNECTOR"@, "Connector"@, "A3jqz0101-OD-50 mm-1.6AR12-WE-50mm"@),
        ("PIPING_CLASS"@, "Piping Class"@, "1.6AR12"@),
        ("NOMINAL_DIAMETER"@, "Nominal Diameter"@, "50 mm"@),
        ("BRANCH_NAME"@, "Branch Name"@, "BRAN-1"@),
    ]
}

pub open spec fn row_view(t: (&str, &str, &str)) -> (Seq<char>, Seq<char>, Seq<char>) {
    (t.0@, t.1@, t.2@)
}

/// The BRAN attribute table (tag, prompt, default) used for the block
/// definition and for missing attribute values.
pub fn sppid_bran_attributes() -> (r: Vec<(&'static str, &'static str, &'static str)>)
    ensures
        r@.map_values(|t: (&str, &str, &str)| row_view(t)) == bran_rows(),
{
    let r = vec![
        ("DRAWING_NO", "Drawing Number", "DWG-0202GP06-01"),
        ("DOC_TITLE", "Document Title", "H7CAD BRAN Tutorial"),
        ("PIPELINE", "Pipeline", "A3jqz0101-OD"),
        ("CONNECTOR", "Connector", "A3jqz0101-OD-50 mm-1.6AR12-WE-50mm"),
        ("PIPING_CLASS", "Piping Class", "1.6AR12"),
        ("NOMINAL_DIAMETER", "Nominal Diameter", "50 mm"),
        ("BRANCH_NAME", "Branch Name", "BRAN-1"),
    ];
    assert(r@.map_values(|t: (&str, &str, &str)| row_view(t)) =~= bran_rows());
    r
}

/// Default of the first table row whose tag is `tag`.
pub open spec fn default_in(rows: Seq<(Seq<char>, Seq<char>, Seq<char>)>, tag: Seq<char>) -> Option<
    Seq<char>,
>
    decreases rows.len(),
{
    if rows.len() == 0 {
        None
    } else if rows[0].0 == tag {
        Some(rows[0].2)
    } else {
        default_in(rows.drop_first(), tag)
    }
}

/// Default value of BRAN attribute `tag`, if the table has it.
pub open spec fn bran_default(tag: Seq<char>) -> Option<Seq<char>> {
    default_in(bran_rows(), tag)
}

/// Value publish uses for `tag`: the stored value, trimmed, when it is not
/// blank; otherwise the table default.
pub open spec fn attr_value(attrs: Map<Seq<char>, Seq<char>>, tag: Seq<char>) -> Option<Seq<char>> {
    if attrs.contains_key(tag) && trim(attrs[tag]).len() > 0 {
        Some(trim(attrs[tag]))
    } else {
        bran_default(tag)
    }
}

pub open spec fn missing_attribute_message(tag: Seq<char>) -> Seq<char> {
    "missing required SPPID attribute "@ + tag
}

/// The value of attribute `tag`: the stored value, trimmed, unless it is
/// blank, else the table default; an error for a tag the table lacks.
pub fn attr_or_default(attributes: &StringMap, tag: &str) -> (r: Result<String, String>)
    ensures
        match attr_value(attributes@, tag@) {
            Some(v) => r matches Ok(s) && s@ == v,
            None => r matches Err(e) && e@ == missing_attribute_message(tag@),
        },
{
    if let Some(value) = attributes.get(tag) {
        let t = trimmed(value.as_str());
        if chars_of(t.as_str()).len() > 0 {
            return Ok(t);
        }
    }
    let rows = sppid_bran_attributes();
    let ghost rv = rows@.map_values(|t: (&str, &str, &str)| row_view(t));
    let mut i: usize = 0;
    assert(rv.skip(0) =~= rv);
    while i < rows.len()
        invariant
            i <= rows@.len(),
            attr_value(attributes@, tag@) == bran_default(tag@),
            rv == rows@.map_values(|t: (&str, &str, &str)| row_view(t)),
            rv == bran_rows(),
            default_in(bran_rows(), tag@) == default_in(rv.skip(i as int), tag@),
        decreases rows.len() - i,
    {
        let (name, _, default) = rows[i];
        assert(rv.skip(i as int)[0] == row_view(rows@[i as int]));
        if str_eq(name, tag) {
            let mut s = String::new();
            push_str(&mut s, default);
            return Ok(s);
        }
        assert(rv.skip(i as int).drop_first() =~= rv.skip(i + 1));
        i += 1;
    }
    let mut e = String::new();
    push_str(&mut e, "missing required SPPID attribute ");
    push_str(&mut e, tag);
    Err(e)
}

/// XML entity of `c` in element content: `& < > '` are replaced, `"` is
/// kept.
pub open spec fn xml_text_escape_char(c: char) -> Seq<char> {
    if c == '"' {
        seq![c]
    } else {
        xml_escape_char(c)
    }
}

pub open spec fn xml_text_escape_seq(s: Seq<char>) -> Seq<char>
    decreases s.len(),
{
    if s.len() == 0 {
        Seq::empty()
    } else {
        xml_text_escape_seq(s.drop_last()) + xml_text_escape_char(s.last())
    }
}

/// Escape `& < > '` for XML element content.
pub fn xml_escape_text(value: &str) -> (r: String)
    ensures
        r@ == xml_text_escape_seq(value@),
{
    let v = chars_of(value);
    let mut out = String::new();
    let mut i: usize = 0;
    while i < v.len()
        invariant
            v@ == value@,
            i <= v@.len(),
            out@ == xml_text_escape_seq(v@.take(i as int)),
        decreases v.len() - i,
    {
        let c = v[i];
        if c == '&' {
            push_str(&mut out, "&amp;");
        } else if c == '<' {
            push_str(&mut out, "&lt;");
        } else if c == '>' {
            push_str(&mut out, "&gt;");
        } else if c == '\'' {
            push_str(&mut out, "&apos;");
        } else {
            push_char(&mut out, c);
        }
        assert(v@.take(i + 1).drop_last() =~= v@.take(i as int));
        i += 1;
    }
    assert(v@.take(v@.len() as int) =~= v@);
    out
}

/// Escape `& < > ' "` for XML attribute values.
pub fn xml_escape_attr(value: &str) -> (r: String)
    ensures
        r@ == xml_escape_seq(value@),
{
    xml_escape(value)
}

/// One `<Rel>` element of the publish documents.
pub open spec fn publish_rel_spec(uid: Seq<char>, uid1: Seq<char>, uid2: Seq<char>, def_uid: Seq<char>) -> Seq<
    char,
> {
    "<Rel><IObject UID=\""@ + xml_escape_seq(uid) + "\"/><IRel UID1=\""@ + xml_escape_seq(uid1)
        + "\" UID2=\""@ + xml_escape_seq(uid2) + "\" DefUID=\""@ + xml_escape_seq(def_uid)
        + "\"/></Rel>"@
}

/// The `<Rel>` element relating `uid1` to `uid2` through definition
/// `def_uid`, every value escaped.
pub fn publish_rel_xml(uid: &str, uid1: &str, uid2: &str, def_uid: &str) -> (r: String)
    ensures
        r@ == publish_rel_spec(uid@, uid1@, uid2@, def_uid@),
{
    let mut out = String::new();
    push_str(&mut out, "<Rel><IObject UID=\"");
    assert(out@ == "<Rel><IObject UID=\""@);
    push_str(&mut out, xml_escape_attr(uid).as_str());
    push_str(&mut out, "\"/><IRel UID1=\"");
    push_str(&mut out, xml_escape_attr(uid1).as_str());
    push_str(&mut out, "\" UID2=\"");
    push_str(&mut out, xml_escape_attr(uid2).as_str());
    push_str(&mut out, "\" DefUID=\"");
    push_str(&mut out, xml_escape_attr(def_uid).as_str());
    push_str(&mut out, "\"/></Rel>");
    out
}

pub const FNV_OFFSET_A: u64 = 0xcbf29ce484222325;

pub const FNV_OFFSET_B: u64 = 0x84222325cbf29ce4;

pub const FNV_PRIME: u64 = 0x100000001B3;

/// One FNV-1a step: xor in the byte, multiply by the prime modulo 2^64.
pub open spec fn fnv_step(h: u64, b: u8) -> u64 {
    vstd::wrapping::u64_specs::wrapping_mul(h ^ (b as u64), FNV_PRIME)
}

/// 64-bit FNV-1a of `bytes`, starting from `offset`.
pub open spec fn fnv1a64(bytes: Seq<u8>, offset: u64) -> u64
    decreases bytes.len(),
{
    if bytes.len() == 0 {
        offset
    } else {
        fnv_step(fnv1a64(bytes.drop_last(), offset), bytes.last())
    }
}

/// The identifier derived from `seed`: two FNV-1a hashes of its UTF-8
/// bytes with different offsets, each as 16 uppercase hex digits.
pub open spec fn stable_uid_spec(seed: Seq<char>) -> Seq<char> {
    let bytes = vstd::utf8::encode_utf8(seed);
    zero_pad(hex_text(fnv1a64(bytes, FNV_OFFSET_A) as nat), 16) + zero_pad(
        hex_text(fnv1a64(bytes, FNV_OFFSET_B) as nat),
        16,
    )
}

fn fnv1a64_bytes(bytes: &[u8], offset: u64) -> (h: u64)
    ensures
        h == fnv1a64(bytes@, offset),
{
    let mut hash = offset;
    let mut i: usize = 0;
    while i < bytes.len()
        invariant
            i <= bytes@.len(),
            hash == fnv1a64(bytes@.take(i as int), offset),
        decreases bytes.len() - i,
    {
        hash = (hash ^ (bytes[i] as u64)).wrapping_mul(FNV_PRIME);
        assert(bytes@.take(i + 1).drop_last() =~= bytes@.take(i as int));
        i += 1;
    }
    assert(bytes@.take(bytes@.len() as int) =~= bytes@);
    hash
}

/// The stable identifier of `seed` (same seed, same identifier).
pub fn stable_uid(seed: &str) -> (r: String)
    ensures
        r@ == stable_uid_spec(seed@),
{
    let bytes = seed.as_bytes();
    let a = fnv1a64_bytes(bytes, FNV_OFFSET_A);
    let b = fnv1a64_bytes(bytes, FNV_OFFSET_B);
    let mut out = String::new();
    push_hex_padded(&mut out, a, 16);
    push_hex_padded(&mut out, b, 16);
    assert(out@ =~= stable_uid_spec(seed@));
    out
}

} // verus!

verus! {

/// Every identifier `stable_uid` produces is 32 hexadecimal digits long.
pub proof fn lemma_stable_uid_len(seed: Seq<char>)
    ensures
        stable_uid_spec(seed).len() == 32,
{
    let bytes = vstd::utf8::encode_utf8(seed);
    lemma_u64_hex16_len(fnv1a64(bytes, FNV_OFFSET_A));
    lemma_u64_hex16_len(fnv1a64(bytes, FNV_OFFSET_B));
}

proof fn lemma_u64_hex16_len(n: u64)
    ensures
        zero_pad(hex_text(n as nat), 16).len() == 16,
{
    reveal_with_fuel(crate::text::pow16, 17);
    assert(crate::text::pow16(16) == 0x10000000000000000nat);
    crate::text::lemma_hex_text_len(n as nat, 16);
}

/// The attribute values and derived identifiers of the drawing's BRAN
/// reference, as publish writes them.
#[derive(Debug, Clone)]
pub struct BranPublishModel {
    pub drawing_no: String,
    pub doc_title: String,
    pub pipeline_name: String,
    pub connector_name: String,
    pub branch_name: String,
    pub piping_class: String,
    pub nominal_diameter: String,
    pub drawing_uid: String,
    pub pipeline_uid: String,
    pub connector_uid: String,
    pub piping_branch_uid: String,
    pub branch_uid: String,
    pub process_point_uid: String,
    pub representation_uid: String,
    pub doc_version_uid: String,
    pub doc_revision_uid: String,
    pub file_uid: String,
}

/// The Drawing tagged-text stream: drawing number and title as attributes.
pub open spec fn drawing_stream_spec(model: BranPublishModel) -> Seq<char> {
    "<?xml version=\"1.0\"?><Drawing><Tag SP_DRAWINGNUMBER=\""@ + xml_escape_seq(model.drawing_no@)
        + "\" SP_DOCTITLE=\""@ + xml_escape_seq(model.doc_title@) + "\"/></Drawing>"@
}

pub fn build_publish_drawing_stream_xml(model: &BranPublishModel) -> (r: String)
    ensures
        r@ == drawing_stream_spec(*model),
{
    let mut out = String::from_str("<?xml version=\"1.0\"?><Drawing><Tag SP_DRAWINGNUMBER=\"");
    push_str(&mut out, xml_escape_attr(model.drawing_no.as_str()).as_str());
    push_str(&mut out, "\" SP_DOCTITLE=\"");
    push_str(&mut out, xml_escape_attr(model.doc_title.as_str()).as_str());
    push_str(&mut out, "\"/></Drawing>");
    out
}

/// The General tagged-text stream recording the directory of the file.
pub open spec fn general_stream_spec(file_dir: Seq<char>) -> Seq<char> {
    "<?xml version=\"1.0\"?><General><FilePath>"@ + xml_text_escape_seq(file_dir)
        + "</FilePath></General>"@
}

/// The General stream for a file in directory `file_dir`.
pub fn general_stream_xml_for_dir(file_dir: &str) -> (r: String)
    ensures
        r@ == general_stream_spec(file_dir@),
{
    let mut out = String::from_str("<?xml version=\"1.0\"?><General><FilePath>");
    push_str(&mut out, xml_escape_text(file_dir).as_str());
    push_str(&mut out, "</FilePath></General>");
    out
}

/// A path read alike on every platform that has no `/`, or whose
/// directory part (the text before its last `/`) is `.` or read alike
/// too: std's parent of such a path is that directory part.
pub open spec fn parent_readable(s: Seq<char>) -> bool {
    portable_path(s) && (s.contains('/') ==> portable_path(dir_part(s)) || dir_part(s) == seq!['.'])
}

/// `r` is the path `dir`, the platform's separator (`/` on Unix, `\` on
/// Windows) and `name`.
pub open spec fn is_joined_path(r: std::path::PathBuf, dir: Seq<char>, name: Seq<char>) -> bool {
    r == path_from_text(dir + seq!['/'] + name) || r == path_from_text(dir + seq!['\\'] + name)
}

/// std's `Path::parent` of `path`, rendered with `Path::display`.  For a
/// path whose parent every platform reads alike (`parent_readable`) it is
/// the text before the last `/`, empty for a bare name: std drops the last
/// component and the separators before it, and the directory part of such
/// a path ends in neither a separator nor a `.` component (a lone leading
/// `.` is kept).  Other paths (Windows prefixes, directories ending in a
/// separator or a `.` component) are left unsaid.
#[verifier::external_body]
fn path_parent_text(path: &str) -> (r: Option<String>)
    ensures
        parent_readable(path@) ==> opt_text(r) == Some(dir_part(path@)),
{
    std::path::Path::new(path).parent().map(|p| p.display().to_string())
}

/// std's `Path::file_name` of `path` (valid UTF-8, as `path` is).  For a
/// portable path it is the last `/`-separated part, and none when that
/// part is `..`; other paths are left unsaid.
#[verifier::external_body]
fn path_file_name_text(path: &str) -> (r: Option<String>)
    ensures
        portable_path(path@) && final_segment(path@) != seq!['.', '.'] ==> opt_text(r) == Some(
            final_segment(path@),
        ),
        portable_path(path@) && final_segment(path@) == seq!['.', '.'] ==> r is None,
{
    std::path::Path::new(path).file_name().and_then(|n| n.to_str()).map(|n| n.to_string())
}

/// std's `Path::file_stem` of `path` (valid UTF-8, as `path` is).  Path
/// syntax differs between platforms, so the contract claims the
/// documented stem only for paths that all platforms read alike.
#[verifier::external_body]
fn path_file_stem_text(path: &str) -> (r: Option<String>)
    ensures
        portable_path(path@) ==> opt_text(r) == name_stem(final_segment(path@)),
{
    std::path::Path::new(path).file_stem().and_then(|n| n.to_str()).map(|n| n.to_string())
}

/// A bare file name: a path of a single part, read alike on every
/// platform, other than `..`.
pub open spec fn bare_file_name(s: Seq<char>) -> bool {
    portable_path(s) && !s.contains('/') && s != seq!['.', '.']
}

/// std's `Path::with_file_name`: `path` with its file name replaced by
/// `name` (a bare file name).  std pops the file name, which leaves the
/// parent, and pushes `name`, putting the platform's separator after a
/// non-empty directory; a path ending in `..` has no file name, so `name`
/// is pushed onto all of it.  Other paths are left unsaid.
#[verifier::external_body]
fn path_with_file_name(path: &str, name: &str) -> (r: std::path::PathBuf)
    ensures
        bare_file_name(path@) && bare_file_name(name@) ==> r == path_from_text(name@),
        parent_readable(path@) && path@.contains('/') && final_segment(path@) != seq!['.', '.']
            && bare_file_name(name@) ==> is_joined_path(r, dir_part(path@), name@),
        portable_path(path@) && final_segment(path@) == seq!['.', '.'] && bare_file_name(name@)
            ==> is_joined_path(r, path@, name@),
{
    std::path::Path::new(path).with_file_name(name)
}

/// The last part of a path has no `/` and only characters of the path.
proof fn lemma_final_segment_chars(s: Seq<char>)
    ensures
        !final_segment(s).contains('/'),
        forall|c: char| #[trigger] final_segment(s).contains(c) ==> s.contains(c),
    decreases s.len(),
{
    if s.len() > 0 && s.last() != '/' {
        lemma_final_segment_chars(s.drop_last());
        let f = final_segment(s.drop_last());
        assert forall|c: char| #[trigger] final_segment(s).contains(c) implies s.contains(c) by {
            let i = choose|i: int| 0 <= i < f.len() + 1 && f.push(s.last())[i] == c;
            if i < f.len() {
                assert(f.contains(c));
                let j = choose|j: int| 0 <= j < s.drop_last().len() && s.drop_last()[j] == c;
                assert(s[j] == c);
            } else {
                assert(s[s.len() - 1] == c);
            }
        }
        assert(!final_segment(s).contains('/')) by {
            if final_segment(s).contains('/') {
                let i = choose|i: int| 0 <= i < f.len() + 1 && f.push(s.last())[i] == '/';
                if i < f.len() {
                    assert(f.contains('/'));
                }
            }
        }
    }
}

/// The last part of a portable path other than `..` is a bare file name.
proof fn lemma_final_segment_bare(s: Seq<char>)
    requires
        portable_path(s),
        final_segment(s) != seq!['.', '.'],
    ensures
        bare_file_name(final_segment(s)),
{
    let f = final_segment(s);
    lemma_final_segment_chars(s);
    lemma_final_segment_whole(f);
    assert(!f.contains('\\'));
    assert(!f.contains(':'));
    assert(!(f.len() >= 2 && f[0] == '/' && f[1] == '/')) by {
        if f.len() >= 2 && f[0] == '/' {
            assert(f.contains('/'));
        }
    }
}

proof fn lemma_final_segment_whole(s: Seq<char>)
    requires
        !s.contains('/'),
    ensures
        final_segment(s) == s,
    decreases s.len(),
{
    if s.len() > 0 {
        assert(s.drop_last().contains('/') ==> s.contains('/')) by {
            if s.drop_last().contains('/') {
                let i = choose|i: int| 0 <= i < s.drop_last().len() && s.drop_last()[i] == '/';
                assert(s[i] == '/');
            }
        }
        lemma_final_segment_whole(s.drop_last());
        assert(s.drop_last().push(s.last()) =~= s);
    }
}

proof fn lemma_last_dot_range(n: Seq<char>)
    ensures
        -1 <= crate::svg_export::last_dot(n) < n.len(),
    decreases n.len(),
{
    if n.len() > 0 {
        lemma_last_dot_range(n.drop_last());
    }
}

/// The sidecar name of a bare PID file name is itself a bare file name.
proof fn lemma_sidecar_name_bare(pid: Seq<char>, suffix: Seq<char>)
    requires
        bare_file_name(pid),
        !suffix.contains('/'),
        !suffix.contains('\\'),
        !suffix.contains(':'),
        suffix.len() >= 3,
        suffix.last() != '.',
    ensures
        final_segment(pid) == pid,
        name_stem(pid) is Some,
        bare_file_name(sidecar_name_spec(name_stem(pid), suffix)),
{
    broadcast use vstd::seq_lib::lemma_seq_concat_contains_all_elements;

    lemma_final_segment_whole(pid);
    lemma_last_dot_range(pid);
    let stem = name_stem(pid)->0;
    assert forall|c: char| #[trigger] stem.contains(c) implies pid.contains(c) by {
        let i = choose|i: int| 0 <= i < stem.len() && stem[i] == c;
        assert(pid[i] == c);
    }
    let name = stem + suffix;
    assert(sidecar_name_spec(name_stem(pid), suffix) == name);
    assert(name.last() == suffix.last());
    assert(!name.contains('/'));
    lemma_final_segment_whole(name);
    assert(name != seq!['.']);
    assert(name != seq!['.', '.']);
}

proof fn lemma_suffix_plain(suffix: &str)
    requires
        suffix@ == "_Data.xml"@ || suffix@ == "_Meta.xml"@,
    ensures
        !suffix@.contains('/'),
        !suffix@.contains('\\'),
        !suffix@.contains(':'),
        suffix@.len() >= 3,
        suffix@.last() != '.',
{
    reveal_strlit("_Data.xml");
    reveal_strlit("_Meta.xml");
}

/// The General stream for the PID file at `pid_path`: its parent
/// directory, or nothing when it has none.  For a path whose parent every
/// platform reads alike that is the text before its last `/` (nothing for
/// a bare file name).
pub fn build_publish_general_stream_xml(pid_path: &str) -> (r: String)
    ensures
        exists|dir: Seq<char>| r@ == general_stream_spec(dir),
        parent_readable(pid_path@) ==> r@ == general_stream_spec(dir_part(pid_path@)),
{
    let dir = match path_parent_text(pid_path) {
        Some(d) => d,
        None => String::new(),
    };
    general_stream_xml_for_dir(dir.as_str())
}

/// `stem` (or `publish` when the path has none) followed by `suffix`.
pub open spec fn sidecar_name_spec(stem: Option<Seq<char>>, suffix: Seq<char>) -> Seq<char> {
    match stem {
        Some(s) => s + suffix,
        None => "publish"@ + suffix,
    }
}

/// File name of a publish sidecar: the PID file's stem, or `publish`,
/// followed by `suffix`.
pub fn publish_sidecar_name(stem: Option<&str>, suffix: &str) -> (r: String)
    ensures
        r@ == sidecar_name_spec(
            match stem {
                Some(s) => Some(s@),
                None => None,
            },
            suffix@,
        ),
{
    let mut out = match stem {
        Some(s) => String::from_str(s),
        None => String::from_str("publish"),
    };
    push_str(&mut out, suffix);
    out
}

/// The name of the sidecar with `suffix` of the PID file named `file_name`.
pub open spec fn sidecar_file_name(file_name: Seq<char>, suffix: Seq<char>) -> Seq<char> {
    sidecar_name_spec(name_stem(file_name), suffix)
}

/// Where the sidecar with `suffix` of the PID file at `pid_path` goes, for
/// a path read alike on every platform: beside a bare file name it is the
/// bare sidecar name; in the directory of a path with one (whose parent is
/// read alike) it is that directory, the platform's separator and the
/// sidecar name; after a path ending in `..` it is the whole path, the
/// separator and `publish<suffix>`.
pub open spec fn sidecar_placed(r: std::path::PathBuf, pid_path: Seq<char>, suffix: Seq<char>) -> bool {
    &&& bare_file_name(pid_path) ==> r == path_from_text(sidecar_file_name(pid_path, suffix))
    &&& parent_readable(pid_path) && pid_path.contains('/') && final_segment(pid_path) != seq!['.', '.']
        ==> is_joined_path(r, dir_part(pid_path), sidecar_file_name(final_segment(pid_path), suffix))
    &&& portable_path(pid_path) && final_segment(pid_path) == seq!['.', '.'] ==> is_joined_path(
        r,
        pid_path,
        sidecar_name_spec(None, suffix),
    )
}

/// The path of the sidecar `<stem><suffix>` beside `pid_path`.
fn sidecar_path(pid_path: &str, suffix: &str) -> (r: std::path::PathBuf)
    requires
        suffix@ == "_Data.xml"@ || suffix@ == "_Meta.xml"@,
    ensures
        sidecar_placed(r, pid_path@, suffix@),
{
    let stem = path_file_stem_text(pid_path);
    let name = match &stem {
        Some(s) => publish_sidecar_name(Some(s.as_str()), suffix),
        None => publish_sidecar_name(None, suffix),
    };
    proof {
        lemma_suffix_plain(suffix);
        if bare_file_name(pid_path@) {
            lemma_sidecar_name_bare(pid_path@, suffix@);
        }
        if portable_path(pid_path@) && final_segment(pid_path@) != seq!['.', '.'] {
            lemma_final_segment_bare(pid_path@);
            lemma_sidecar_name_bare(final_segment(pid_path@), suffix@);
        }
        if portable_path(pid_path@) && final_segment(pid_path@) == seq!['.', '.'] {
            lemma_publish_name_bare(suffix@);
        }
    }
    path_with_file_name(pid_path, name.as_str())
}

/// `publish<suffix>` is a bare file name.
proof fn lemma_publish_name_bare(suffix: Seq<char>)
    requires
        !suffix.contains('/'),
        !suffix.contains('\\'),
        !suffix.contains(':'),
    ensures
        bare_file_name(sidecar_name_spec(None, suffix)),
{
    broadcast use vstd::seq_lib::lemma_seq_concat_contains_all_elements;

    reveal_strlit("publish");
    let name = "publish"@ + suffix;
    assert(!"publish"@.contains('/'));
    assert(!"publish"@.contains('\\'));
    assert(!"publish"@.contains(':'));
    assert(!name.contains('/'));
    lemma_final_segment_whole(name);
    assert(name[0] == 'p');
}

/// Path of the Data.xml sidecar next to `pid_path`: `<stem>_Data.xml`.
pub fn publish_data_path(pid_path: &str) -> (r: std::path::PathBuf)
    ensures
        sidecar_placed(r, pid_path@, "_Data.xml"@),
{
    sidecar_path(pid_path, "_Data.xml")
}

/// Path of the Meta.xml sidecar next to `pid_path`: `<stem>_Meta.xml`.
pub fn publish_meta_path(pid_path: &str) -> (r: std::path::PathBuf)
    ensures
        sidecar_placed(r, pid_path@, "_Meta.xml"@),
{
    sidecar_path(pid_path, "_Meta.xml")
}

/// The Data.xml document of a publish bundle.
pub open spec fn publish_data_spec(model: BranPublishModel) -> Seq<char> {
    "<?xml version =\"1.0\" encoding=\"UTF-8\"?>\n<Container CompSchema=\"PIDComponent\" Scope=\"Data\" SoftwareVersion=\"0.1.3\" IsValidated=\"False\" SchemaVersion=\"04.02.17.01\" Plant=\"P01\" Project=\"\" DocUID=\""@
        + model.drawing_uid@
        + "\" DocName=\""@
        + xml_escape_seq(model.drawing_no@)
        + "\" Version=\"\" ToolID=\"H7CAD\" ToolSignature=\"AAAD\" SDECIMAL=\".\">\n   <PIDDrawing>\n      <IObject UID=\""@
        + model.drawing_uid@
        + "\" Name=\""@
        + xml_escape_seq(model.drawing_no@)
        + "\" Description=\"\"/>\n      <IDocument DocCategory=\"P&amp;ID Documents\" DocTitle=\""@
        + xml_escape_seq(model.doc_title@)
        + "\" DocType=\"P&amp;ID\" DocSubtype=\"\"/>\n      <IDocVersionComposition/>\n      <IDwgRepresentationComposition/>\n      <IPIDDrawing/>\n      <ISchematicDwg/>\n      <IPBSItem/>\n   </PIDDrawing>\n   <PIDPipeline>\n      <IObject UID=\""@
        + model.pipeline_uid@
        + "\" Name=\""@
        + xml_escape_seq(model.pipeline_name@)
        + "\"/>\n      <IDrawingItem/>\n      <IPipeline PipelineName=\""@
        + xml_escape_seq(model.pipeline_name@)
        + "\"/>\n      <IPipeCrossSectionItem NominalDiameter=\""@
        + xml_escape_seq(model.nominal_diameter@)
        + "\"/>\n      <IPipingSpecifiedItem PipingMaterialsClass=\""@
        + xml_escape_seq(model.piping_class@)
        + "\"/>\n      <IProcessPointCollection/>\n      <IDocumentItem/>\n   </PIDPipeline>\n   <PIDPipingConnector>\n      <IObject UID=\""@
        + model.connector_uid@
        + "\" Name=\""@
        + xml_escape_seq(model.connector_name@)
        + "\"/>\n      <IDrawingItem/>\n      <IPipingConnector/>\n      <IProcessPointCollection/>\n      <IDocumentItem/>\n   </PIDPipingConnector>\n   <PIDPipingBranchPoint>\n      <IObject UID=\""@
        + model.piping_branch_uid@
        + "\" Name=\""@
        + xml_escape_seq(model.branch_name@)
        + "\"/>\n      <IDrawingItem/>\n      <IPipingBranchPoint/>\n      <IProcessPointCollection/>\n      <IDocumentItem/>\n   </PIDPipingBranchPoint>\n   <PIDBranchPoint>\n      <IObject UID=\""@
        + model.branch_uid@
        + "\" Name=\""@
        + xml_escape_seq(model.branch_name@)
        + "\"/>\n      <IDrawingItem/>\n      <IBranchPoint/>\n      <IDocumentItem/>\n   </PIDBranchPoint>\n   <PIDProcessPoint>\n      <IObject UID=\""@
        + model.process_point_uid@
        + "\" Name=\""@
        + xml_escape_seq(model.branch_name@)
        + "-PP\"/>\n      <IDrawingItem/>\n      <IProcessPoint/>\n      <IDocumentItem/>\n   </PIDProcessPoint>\n   <PIDRepresentation>\n      <IObject UID=\""@
        + model.representation_uid@
        + "\" Name=\""@
        + xml_escape_seq(model.branch_name@)
        + "-REP\"/>\n      <IDrawingItem/>\n      <IRepresentation RepresentationType=\"Polyline\"/>\n   </PIDRepresentation>\n   "@
        + publish_rel_spec("REL-DRAW-PIPELINE"@, model.pipeline_uid@, model.drawing_uid@, "DrawingItems"@)
        + "\n   "@
        + publish_rel_spec("REL-DRAW-CONNECTOR"@, model.connector_uid@, model.drawing_uid@, "DrawingItems"@)
        + "\n   "@
        + publish_rel_spec("REL-DRAW-PIPING-BRANCH"@, model.piping_branch_uid@, model.drawing_uid@, "DrawingItems"@)
        + "\n   "@
        + publish_rel_spec("REL-DRAW-BRANCH"@, model.branch_uid@, model.drawing_uid@, "DrawingItems"@)
        + "\n   "@
        + publish_rel_spec("REL-DRAW-PROCESS"@, model.process_point_uid@, model.drawing_uid@, "DrawingItems"@)
        + "\n   "@
        + publish_rel_spec("REL-DRAW-REP"@, model.representation_uid@, model.drawing_uid@, "DrawingItems"@)
        + "\n   "@
        + publish_rel_spec("REL-REP-COMP"@, model.representation_uid@, model.piping_branch_uid@, "DwgRepresentationComposition"@)
        + "\n   "@
        + publish_rel_spec("REL-END1"@, model.connector_uid@, model.piping_branch_uid@, "PipingEnd1Conn"@)
        + "\n   "@
        + publish_rel_spec("REL-END2"@, model.connector_uid@, model.process_point_uid@, "PipingEnd2Conn"@)
        + "\n   "@
        + publish_rel_spec("REL-TAP"@, model.piping_branch_uid@, model.branch_uid@, "PipingTapOrFitting"@)
        + "\n   "@
        + publish_rel_spec("REL-PROCESS"@, model.process_point_uid@, model.pipeline_uid@, "ProcessPointCollection"@)
        + "\n</Container>\n"@
}

/// Data.xml: the drawing, its pipeline, connector, branch points, process
/// point and representation, and the relationships between them.
#[verifier::rlimit(40)]
pub fn build_publish_data_xml(model: &BranPublishModel) -> (r: String)
    ensures
        r@ == publish_data_spec(*model),
{
    let drawing_no = xml_escape_attr(model.drawing_no.as_str());
    let doc_title = xml_escape_attr(model.doc_title.as_str());
    let pipeline_name = xml_escape_attr(model.pipeline_name.as_str());
    let connector_name = xml_escape_attr(model.connector_name.as_str());
    let branch_name = xml_escape_attr(model.branch_name.as_str());
    let piping_class = xml_escape_attr(model.piping_class.as_str());
    let nominal_diameter = xml_escape_attr(model.nominal_diameter.as_str());
    let mut out = String::from_str("<?xml version =\"1.0\" encoding=\"UTF-8\"?>\n<Container CompSchema=\"PIDComponent\" Scope=\"Data\" SoftwareVersion=\"0.1.3\" IsValidated=\"False\" SchemaVersion=\"04.02.17.01\" Plant=\"P01\" Project=\"\" DocUID=\"");
    push_str(&mut out, model.drawing_uid.as_str());
    push_str(&mut out, "\" DocName=\"");
    push_str(&mut out, drawing_no.as_str());
    push_str(&mut out, "\" Version=\"\" ToolID=\"H7CAD\" ToolSignature=\"AAAD\" SDECIMAL=\".\">\n   <PIDDrawing>\n      <IObject UID=\"");
    push_str(&mut out, model.drawing_uid.as_str());
    push_str(&mut out, "\" Name=\"");
    push_str(&mut out, drawing_no.as_str());
    push_str(&mut out, "\" Description=\"\"/>\n      <IDocument DocCategory=\"P&amp;ID Documents\" DocTitle=\"");
    push_str(&mut out, doc_title.as_str());
    push_str(&mut out, "\" DocType=\"P&amp;ID\" DocSubtype=\"\"/>\n      <IDocVersionComposition/>\n      <IDwgRepresentationComposition/>\n      <IPIDDrawing/>\n      <ISchematicDwg/>\n      <IPBSItem/>\n   </PIDDrawing>\n   <PIDPipeline>\n      <IObject UID=\"");
    push_str(&mut out, model.pipeline_uid.as_str());
    push_str(&mut out, "\" Name=\"");
    push_str(&mut out, pipeline_name.as_str());
    push_str(&mut out, "\"/>\n      <IDrawingItem/>\n      <IPipeline PipelineName=\"");
    push_str(&mut out, pipeline_name.as_str());
    push_str(&mut out, "\"/>\n      <IPipeCrossSectionItem NominalDiameter=\"");
    push_str(&mut out, nominal_diameter.as_str());
    push_str(&mut out, "\"/>\n      <IPipingSpecifiedItem PipingMaterialsClass=\"");
    push_str(&mut out, piping_class.as_str());
    push_str(&mut out, "\"/>\n      <IProcessPointCollection/>\n      <IDocumentItem/>\n   </PIDPipeline>\n   <PIDPipingConnector>\n      <IObject UID=\"");
    push_str(&mut out, model.connector_uid.as_str());
    push_str(&mut out, "\" Name=\"");
    push_str(&mut out, connector_name.as_str());
    push_str(&mut out, "\"/>\n      <IDrawingItem/>\n      <IPipingConnector/>\n      <IProcessPointCollection/>\n      <IDocumentItem/>\n   </PIDPipingConnector>\n   <PIDPipingBranchPoint>\n      <IObject UID=\"");
    push_str(&mut out, model.piping_branch_uid.as_str());
    push_str(&mut out, "\" Name=\"");
    push_str(&mut out, branch_name.as_str());
    push_str(&mut out, "\"/>\n      <IDrawingItem/>\n      <IPipingBranchPoint/>\n      <IProcessPointCollection/>\n      <IDocumentItem/>\n   </PIDPipingBranchPoint>\n   <PIDBranchPoint>\n      <IObject UID=\"");
    push_str(&mut out, model.branch_uid.as_str());
    push_str(&mut out, "\" Name=\"");
    push_str(&mut out, branch_name.as_str());
    push_str(&mut out, "\"/>\n      <IDrawingItem/>\n      <IBranchPoint/>\n      <IDocumentItem/>\n   </PIDBranchPoint>\n   <PIDProcessPoint>\n      <IObject UID=\"");
    push_str(&mut out, model.process_point_uid.as_str());
    push_str(&mut out, "\" Name=\"");
    push_str(&mut out, branch_name.as_str());
    push_str(&mut out, "-PP\"/>\n      <IDrawingItem/>\n      <IProcessPoint/>\n      <IDocumentItem/>\n   </PIDProcessPoint>\n   <PIDRepresentation>\n      <IObject UID=\"");
    push_str(&mut out, model.representation_uid.as_str());
    push_str(&mut out, "\" Name=\"");
    push_str(&mut out, branch_name.as_str());
    push_str(&mut out, "-REP\"/>\n      <IDrawingItem/>\n      <IRepresentation RepresentationType=\"Polyline\"/>\n   </PIDRepresentation>\n   ");
    push_str(&mut out, publish_rel_xml("REL-DRAW-PIPELINE", model.pipeline_uid.as_str(), model.drawing_uid.as_str(), "DrawingItems").as_str());
    push_str(&mut out, "\n   ");
    push_str(&mut out, publish_rel_xml("REL-DRAW-CONNECTOR", model.connector_uid.as_str(), model.drawing_uid.as_str(), "DrawingItems").as_str());
    push_str(&mut out, "\n   ");
    push_str(&mut out, publish_rel_xml("REL-DRAW-PIPING-BRANCH", model.piping_branch_uid.as_str(), model.drawing_uid.as_str(), "DrawingItems").as_str());
    push_str(&mut out, "\n   ");
    push_str(&mut out, publish_rel_xml("REL-DRAW-BRANCH", model.branch_uid.as_str(), model.drawing_uid.as_str(), "DrawingItems").as_str());
    push_str(&mut out, "\n   ");
    push_str(&mut out, publish_rel_xml("REL-DRAW-PROCESS", model.process_point_uid.as_str(), model.drawing_uid.as_str(), "DrawingItems").as_str());
    push_str(&mut out, "\n   ");
    push_str(&mut out, publish_rel_xml("REL-DRAW-REP", model.representation_uid.as_str(), model.drawing_uid.as_str(), "DrawingItems").as_str());
    push_str(&mut out, "\n   ");
    push_str(&mut out, publish_rel_xml("REL-REP-COMP", model.representation_uid.as_str(), model.piping_branch_uid.as_str(), "DwgRepresentationComposition").as_str());
    push_str(&mut out, "\n   ");
    push_str(&mut out, publish_rel_xml("REL-END1", model.connector_uid.as_str(), model.piping_branch_uid.as_str(), "PipingEnd1Conn").as_str());
    push_str(&mut out, "\n   ");
    push_str(&mut out, publish_rel_xml("REL-END2", model.connector_uid.as_str(), model.process_point_uid.as_str(), "PipingEnd2Conn").as_str());
    push_str(&mut out, "\n   ");
    push_str(&mut out, publish_rel_xml("REL-TAP", model.piping_branch_uid.as_str(), model.branch_uid.as_str(), "PipingTapOrFitting").as_str());
    push_str(&mut out, "\n   ");
    push_str(&mut out, publish_rel_xml("REL-PROCESS", model.process_point_uid.as_str(), model.pipeline_uid.as_str(), "ProcessPointCollection").as_str());
    push_str(&mut out, "\n</Container>\n");
    out
}

/// The Meta.xml document of a publish bundle for a file named `pid_name`
/// in directory `file_dir`.
pub open spec fn publish_meta_spec(model: BranPublishModel, pid_name: Seq<char>, file_dir: Seq<char>) -> Seq<char> {
    "<?xml version =\"1.0\" encoding=\"UTF-8\"?>\n<Container CompSchema=\"DocVersioningComponent\" Scope=\"Data\" SoftwareVersion=\"0.1.3\" IsValidated=\"False\" SchemaVersion=\"04.02.17.01\" Plant=\"P01\" Project=\"\" DocUID=\""@
        + model.drawing_uid@
        + "\" DocName=\""@
        + xml_escape_seq(model.drawing_no@)
        + "\" Version=\"\" ToolID=\"H7CAD\" ToolSignature=\"AAAD\" SDECIMAL=\".\">\n   <DocumentVersion>\n      <IObject UID=\""@
        + model.doc_version_uid@
        + "\" Name=\""@
        + xml_escape_seq(model.drawing_no@)
        + " Version\"/>\n      <IDocumentVersion DocRevision=\"0\" DocVersionDate=\"2026/04/20\" DocVersion=\"1\"/>\n      <IFileComposition/>\n   </DocumentVersion>\n   "@
        + publish_rel_spec("REL-VERSIONED-DOC"@, model.drawing_uid@, model.doc_version_uid@, "VersionedDoc"@)
        + "\n   <DocumentRevision>\n      <IObject UID=\""@
        + model.doc_revision_uid@
        + "\" Name=\""@
        + xml_escape_seq(model.drawing_no@)
        + " Revision\"/>\n      <IDocumentRevision MajorRev_ForRevise=\"0\" MinorRev_ForRevise=\"\"/>\n   </DocumentRevision>\n   "@
        + publish_rel_spec("REL-REVISED-DOC"@, model.doc_revision_uid@, model.drawing_uid@, "RevisedDocument"@)
        + "\n   <File>\n      <IObject UID=\""@
        + model.file_uid@
        + "\" Name=\""@
        + xml_escape_seq(pid_name)
        + "\" Description=\"\"/>\n      <IFile FilePath=\""@
        + xml_escape_seq(file_dir)
        + "\"/>\n   </File>\n   "@
        + publish_rel_spec("REL-FILE-COMP"@, model.file_uid@, model.doc_version_uid@, "FileComposition"@)
        + "\n</Container>\n"@
}

/// Meta.xml for a file named `pid_name` in directory `file_dir`: the
/// document version, revision and file records and their relationships.
#[verifier::rlimit(40)]
pub fn publish_meta_xml_with(model: &BranPublishModel, pid_name: &str, file_dir: &str) -> (r: String)
    ensures
        r@ == publish_meta_spec(*model, pid_name@, file_dir@),
{
    let drawing_no = xml_escape_attr(model.drawing_no.as_str());
    let pid_name_esc = xml_escape_attr(pid_name);
    let file_path_esc = xml_escape_attr(file_dir);
    let mut out = String::from_str("<?xml version =\"1.0\" encoding=\"UTF-8\"?>\n<Container CompSchema=\"DocVersioningComponent\" Scope=\"Data\" SoftwareVersion=\"0.1.3\" IsValidated=\"False\" SchemaVersion=\"04.02.17.01\" Plant=\"P01\" Project=\"\" DocUID=\"");
    push_str(&mut out, model.drawing_uid.as_str());
    push_str(&mut out, "\" DocName=\"");
    push_str(&mut out, drawing_no.as_str());
    push_str(&mut out, "\" Version=\"\" ToolID=\"H7CAD\" ToolSignature=\"AAAD\" SDECIMAL=\".\">\n   <DocumentVersion>\n      <IObject UID=\"");
    push_str(&mut out, model.doc_version_uid.as_str());
    push_str(&mut out, "\" Name=\"");
    push_str(&mut out, drawing_no.as_str());
    push_str(&mut out, " Version\"/>\n      <IDocumentVersion DocRevision=\"0\" DocVersionDate=\"2026/04/20\" DocVersion=\"1\"/>\n      <IFileComposition/>\n   </DocumentVersion>\n   ");
    push_str(&mut out, publish_rel_xml("REL-VERSIONED-DOC", model.drawing_uid.as_str(), model.doc_version_uid.as_str(), "VersionedDoc").as_str());
    push_str(&mut out, "\n   <DocumentRevision>\n      <IObject UID=\"");
    push_str(&mut out, model.doc_revision_uid.as_str());
    push_str(&mut out, "\" Name=\"");
    push_str(&mut out, drawing_no.as_str());
    push_str(&mut out, " Revision\"/>\n      <IDocumentRevision MajorRev_ForRevise=\"0\" MinorRev_ForRevise=\"\"/>\n   </DocumentRevision>\n   ");
    push_str(&mut out, publish_rel_xml("REL-REVISED-DOC", model.doc_revision_uid.as_str(), model.drawing_uid.as_str(), "RevisedDocument").as_str());
    push_str(&mut out, "\n   <File>\n      <IObject UID=\"");
    push_str(&mut out, model.file_uid.as_str());
    push_str(&mut out, "\" Name=\"");
    push_str(&mut out, pid_name_esc.as_str());
    push_str(&mut out, "\" Description=\"\"/>\n      <IFile FilePath=\"");
    push_str(&mut out, file_path_esc.as_str());
    push_str(&mut out, "\"/>\n   </File>\n   ");
    push_str(&mut out, publish_rel_xml("REL-FILE-COMP", model.file_uid.as_str(), model.doc_version_uid.as_str(), "FileComposition").as_str());
    push_str(&mut out, "\n</Container>\n");
    out
}

/// The file name std gives the portable path `pid_path` in Meta.xml: its
/// last part, or `publish.pid` when that part is `..`.
pub open spec fn meta_file_name(pid_path: Seq<char>) -> Seq<char> {
    if final_segment(pid_path) == seq!['.', '.'] {
        "publish.pid"@
    } else {
        final_segment(pid_path)
    }
}

/// Meta.xml for the PID file at `pid_path`: its file name (or
/// `publish.pid`) and its parent directory (or nothing).  For a path whose
/// parent every platform reads alike, those are its last part and the text
/// before its last `/`.
pub fn build_publish_meta_xml(model: &BranPublishModel, pid_path: &str) -> (r: String)
    ensures
        exists|name: Seq<char>, dir: Seq<char>| r@ == publish_meta_spec(*model, name, dir),
        parent_readable(pid_path@) ==> r@ == publish_meta_spec(
            *model,
            meta_file_name(pid_path@),
            dir_part(pid_path@),
        ),
{
    let name = match path_file_name_text(pid_path) {
        Some(n) => n,
        None => String::from_str("publish.pid"),
    };
    let dir = match path_parent_text(pid_path) {
        Some(d) => d,
        None => String::new(),
    };
    publish_meta_xml_with(model, name.as_str(), dir.as_str())
}

} // verus!

verus! {

/// Every tag the publish model reads has a table default.
pub proof fn lemma_bran_defaults()
    ensures
        bran_default("DRAWING_NO"@) == Some("DWG-0202GP06-01"@),
        bran_default("DOC_TITLE"@) == Some("H7CAD BRAN Tutorial"@),
        bran_default("PIPELINE"@) == Some("A3jqz0101-OD"@),
        bran_default("CONNECTOR"@) == Some("A3jqz0101-OD-50 mm-1.6AR12-WE-50mm"@),
        bran_default("PIPING_CLASS"@) == Some("1.6AR12"@),
        bran_default("NOMINAL_DIAMETER"@) == Some("50 mm"@),
        bran_default("BRANCH_NAME"@) == Some("BRAN-1"@),
{
    reveal_strlit("DRAWING_NO");
    reveal_strlit("DOC_TITLE");
    reveal_strlit("PIPELINE");
    reveal_strlit("CONNECTOR");
    reveal_strlit("PIPING_CLASS");
    reveal_strlit("NOMINAL_DIAMETER");
    reveal_strlit("BRANCH_NAME");
    reveal_with_fuel(default_in, 8);
    assert("DRAWING_NO"@.len() == 10 && "DOC_TITLE"@.len() == 9 && "PIPELINE"@.len() == 8);
    assert("CONNECTOR"@.len() == 9 && "PIPING_CLASS"@.len() == 12);
    assert("NOMINAL_DIAMETER"@.len() == 16 && "BRANCH_NAME"@.len() == 11);
    assert("DOC_TITLE"@[0] != "CONNECTOR"@[0]);
    let r = bran_rows();
    assert(r.drop_first() =~= r.subrange(1, 7));
    assert(r.drop_first().drop_first() =~= r.subrange(2, 7));
    assert(r.subrange(2, 7).drop_first() =~= r.subrange(3, 7));
    assert(r.subrange(3, 7).drop_first() =~= r.subrange(4, 7));
    assert(r.subrange(4, 7).drop_first() =~= r.subrange(5, 7));
    assert(r.subrange(5, 7).drop_first() =~= r.subrange(6, 7));
}

/// `m` holds the publish values of `attrs` and the identifiers derived
/// from them.
pub open spec fn model_matches(m: BranPublishModel, attrs: Map<Seq<char>, Seq<char>>) -> bool {
    let dn = attr_value(attrs, "DRAWING_NO"@).unwrap();
    let pl = attr_value(attrs, "PIPELINE"@).unwrap();
    let cn = attr_value(attrs, "CONNECTOR"@).unwrap();
    let bn = attr_value(attrs, "BRANCH_NAME"@).unwrap();
    &&& m.drawing_no@ == dn
    &&& m.doc_title@ == attr_value(attrs, "DOC_TITLE"@).unwrap()
    &&& m.pipeline_name@ == pl
    &&& m.connector_name@ == cn
    &&& m.branch_name@ == bn
    &&& m.piping_class@ == attr_value(attrs, "PIPING_CLASS"@).unwrap()
    &&& m.nominal_diameter@ == attr_value(attrs, "NOMINAL_DIAMETER"@).unwrap()
    &&& m.drawing_uid@ == stable_uid_spec("drawing:"@ + dn)
    &&& m.pipeline_uid@ == stable_uid_spec("pipeline:"@ + pl)
    &&& m.connector_uid@ == stable_uid_spec("connector:"@ + cn)
    &&& m.piping_branch_uid@ == stable_uid_spec("piping-branch:"@ + dn + ":"@ + bn)
    &&& m.branch_uid@ == stable_uid_spec("branch:"@ + dn + ":"@ + bn)
    &&& m.process_point_uid@ == stable_uid_spec("process-point:"@ + pl + ":"@ + bn)
    &&& m.representation_uid@ == stable_uid_spec("representation:"@ + dn + ":"@ + bn)
    &&& m.doc_version_uid@ == stable_uid_spec("doc-version:"@ + dn)
    &&& m.doc_revision_uid@ == stable_uid_spec("doc-revision:"@ + dn)
    &&& m.file_uid@ == stable_uid_spec("file:"@ + dn)
}

fn uid_of(prefix: &str, a: &String) -> (r: String)
    ensures
        r@ == stable_uid_spec(prefix@ + a@),
{
    let mut seed = String::from_str(prefix);
    push_str(&mut seed, a.as_str());
    stable_uid(seed.as_str())
}

fn uid_of2(prefix: &str, a: &String, b: &String) -> (r: String)
    ensures
        r@ == stable_uid_spec(prefix@ + a@ + ":"@ + b@),
{
    let mut seed = String::from_str(prefix);
    push_str(&mut seed, a.as_str());
    push_str(&mut seed, ":");
    push_str(&mut seed, b.as_str());
    stable_uid(seed.as_str())
}

/// The publish model of a BRAN reference whose attributes (tags already
/// uppercased) are `attributes`; blank or missing values take the table
/// defaults.
pub fn bran_publish_model_from_attributes(attributes: &StringMap) -> (r: Result<
    BranPublishModel,
    String,
>)
    ensures
        r matches Ok(m) && model_matches(m, attributes@),
{
    proof {
        lemma_bran_defaults();
    }
    let drawing_no = match attr_or_default(attributes, "DRAWING_NO") {
        Ok(v) => v,
        Err(e) => return Err(e),
    };
    let doc_title = match attr_or_default(attributes, "DOC_TITLE") {
        Ok(v) => v,
        Err(e) => return Err(e),
    };
    let pipeline_name = match attr_or_default(attributes, "PIPELINE") {
        Ok(v) => v,
        Err(e) => return Err(e),
    };
    let connector_name = match attr_or_default(attributes, "CONNECTOR") {
        Ok(v) => v,
        Err(e) => return Err(e),
    };
    let branch_name = match attr_or_default(attributes, "BRANCH_NAME") {
        Ok(v) => v,
        Err(e) => return Err(e),
    };
    let piping_class = match attr_or_default(attributes, "PIPING_CLASS") {
        Ok(v) => v,
        Err(e) => return Err(e),
    };
    let nominal_diameter = match attr_or_default(attributes, "NOMINAL_DIAMETER") {
        Ok(v) => v,
        Err(e) => return Err(e),
    };
    Ok(BranPublishModel {
        drawing_uid: uid_of("drawing:", &drawing_no),
        pipeline_uid: uid_of("pipeline:", &pipeline_name),
        connector_uid: uid_of("connector:", &connector_name),
        piping_branch_uid: uid_of2("piping-branch:", &drawing_no, &branch_name),
        branch_uid: uid_of2("branch:", &drawing_no, &branch_name),
        process_point_uid: uid_of2("process-point:", &pipeline_name, &branch_name),
        representation_uid: uid_of2("representation:", &drawing_no, &branch_name),
        doc_version_uid: uid_of("doc-version:", &drawing_no),
        doc_revision_uid: uid_of("doc-revision:", &drawing_no),
        file_uid: uid_of("file:", &drawing_no),
        drawing_no,
        doc_title,
        pipeline_name,
        connector_name,
        branch_name,
        piping_class,
        nominal_diameter,
    })
}

} // verus!

verus! {

/// An entity of a drawing as publish reads it: a block reference's block
/// name and its (tag, value) attributes, or `None` for any other entity.
pub type EntityRow = Option<(Seq<char>, Seq<(Seq<char>, Seq<char>)>)>;

pub open spec fn attr_pairs_view(v: Seq<(String, String)>) -> Seq<(Seq<char>, Seq<char>)> {
    v.map_values(|p: (String, String)| (p.0@, p.1@))
}

pub open spec fn entity_row_view(x: Option<(String, Vec<(String, String)>)>) -> EntityRow {
    match x {
        Some(p) => Some((p.0@, attr_pairs_view(p.1@))),
        None => None,
    }
}

pub open spec fn entity_rows_view(v: Seq<Option<(String, Vec<(String, String)>)>>) -> Seq<
    EntityRow,
> {
    v.map_values(|x: Option<(String, Vec<(String, String)>)>| entity_row_view(x))
}

/// The attributes of `x` when it references the BRAN block (block names
/// compare ASCII case-insensitively).
pub open spec fn bran_attrs_of(x: EntityRow) -> Option<Seq<(Seq<char>, Seq<char>)>> {
    match x {
        Some(p) => if ascii_lower_seq(p.0) == "sppid_bran"@ {
            Some(p.1)
        } else {
            None
        },
        None => None,
    }
}

/// The attribute lists of the BRAN references among `rows`, in order.
pub open spec fn bran_inserts(rows: Seq<EntityRow>) -> Seq<Seq<(Seq<char>, Seq<char>)>> {
    rows.filter_map(|x: EntityRow| bran_attrs_of(x))
}

/// Attribute map of a reference: tags uppercased, values trimmed, a later
/// tag overriding an earlier one.
pub open spec fn attribute_map(attrs: Seq<(Seq<char>, Seq<char>)>) -> Map<Seq<char>, Seq<char>> {
    map_of(attrs.map_values(|a: (Seq<char>, Seq<char>)| (ascii_upper_seq(a.0), trim(a.1))))
}

pub open spec fn no_bran_message() -> Seq<char> {
    "SPPID export requires exactly one SPPID_BRAN insert in the active drawing"@
}

pub open spec fn many_bran_message() -> Seq<char> {
    "SPPID export currently supports exactly one SPPID_BRAN insert per drawing"@
}

fn is_bran_block(name: &String) -> (b: bool)
    ensures
        b == (ascii_lower_seq(name@) == "sppid_bran"@),
{
    let v = chars_of(name.as_str());
    let n = v.len();
    assert(v@.subrange(0, n as int) =~= name@);
    eq_ascii_lower(&v, 0, n, "sppid_bran")
}

fn attribute_map_of(attrs: &Vec<(String, String)>) -> (m: StringMap)
    ensures
        m@ == attribute_map(attr_pairs_view(attrs@)),
{
    let ghost pv = attr_pairs_view(attrs@);
    let ghost f = |a: (Seq<char>, Seq<char>)| (ascii_upper_seq(a.0), trim(a.1));
    let mut m = StringMap::new();
    let mut j: usize = 0;
    assert(pv.take(0).map_values(f) =~= Seq::<(Seq<char>, Seq<char>)>::empty());
    while j < attrs.len()
        invariant
            j <= attrs@.len(),
            pv == attr_pairs_view(attrs@),
            f == (|a: (Seq<char>, Seq<char>)| (ascii_upper_seq(a.0), trim(a.1))),
            m@ == map_of(pv.take(j as int).map_values(f)),
        decreases attrs.len() - j,
    {
        let tag = to_ascii_uppercase(attrs[j].0.as_str());
        let value = trimmed(attrs[j].1.as_str());
        m.insert(tag, value);
        assert(pv.take(j + 1).map_values(f).drop_last() =~= pv.take(j as int).map_values(f));
        assert(pv.take(j + 1).map_values(f).last() == f(pv[j as int]));
        j += 1;
    }
    assert(pv.take(attrs@.len() as int) =~= pv);
    m
}

/// The publish model of a drawing whose entities are `rows`: an error
/// unless exactly one entity references the BRAN block, else the model of
/// that reference's attributes.
pub fn bran_publish_model_from_entities(rows: &Vec<Option<(String, Vec<(String, String)>)>>) -> (r:
    Result<BranPublishModel, String>)
    ensures
        ({
            let found = bran_inserts(entity_rows_view(rows@));
            &&& found.len() == 0 ==> (r matches Err(e) && e@ == no_bran_message())
            &&& found.len() > 1 ==> (r matches Err(e) && e@ == many_bran_message())
            &&& found.len() == 1 ==> (r matches Ok(m) && model_matches(
                m,
                attribute_map(found[0]),
            ))
        }),
{
    let ghost rv = entity_rows_view(rows@);
    let ghost g = |x: EntityRow| bran_attrs_of(x);
    let mut count: usize = 0;
    let mut first: usize = 0;
    let mut i: usize = 0;
    assert(rv.take(0).filter_map(g) =~= Seq::<Seq<(Seq<char>, Seq<char>)>>::empty());
    while i < rows.len()
        invariant
            i <= rows@.len(),
            rv == entity_rows_view(rows@),
            g == (|x: EntityRow| bran_attrs_of(x)),
            count == rv.take(i as int).filter_map(g).len(),
            count <= i,
            count > 0 ==> first < i && bran_attrs_of(rv[first as int]) == Some(
                rv.take(i as int).filter_map(g)[0],
            ),
        decreases rows.len() - i,
    {
        assert(rv.take(i + 1).drop_last() =~= rv.take(i as int));
        assert(rv.take(i + 1).last() == rv[i as int]);
        assert(rv[i as int] == entity_row_view(rows@[i as int]));
        let hit = match &rows[i] {
            Some(p) => is_bran_block(&p.0),
            None => false,
        };
        if hit {
            if count == 0 {
                first = i;
            }
            count = count + 1;
        }
        i += 1;
    }
    assert(rv.take(rows@.len() as int) =~= rv);
    if count == 0 {
        return Err(String::from_str(
            "SPPID export requires exactly one SPPID_BRAN insert in the active drawing",
        ));
    }
    if count > 1 {
        return Err(String::from_str(
            "SPPID export currently supports exactly one SPPID_BRAN insert per drawing",
        ));
    }
    match &rows[first] {
        Some(p) => {
            assert(rv[first as int] == entity_row_view(rows@[first as int]));
            let attributes = attribute_map_of(&p.1);
            bran_publish_model_from_attributes(&attributes)
        },
        None => {
            assert(rv[first as int] == entity_row_view(rows@[first as int]));
            Err(String::new())
        },
    }
}

} // verus!

verus! {

#[verifier::external_type_specification]
#[verifier::external_body]
pub struct ExCadDocument(acadrust::CadDocument);

/// What an acadrust `CadDocument` holds as `entities()` yields it, in
/// order: for each block reference its block name and its attributes'
/// (tag, value) pairs, `None` for every other entity.
pub uninterp spec fn document_entity_rows(doc: acadrust::CadDocument) -> Seq<EntityRow>;

/// acadrust's `CadDocument::entities`, each entity read as its block
/// reference's name and attributes (`None` for other kinds).  The
/// contract claims the rows equal `document_entity_rows` of the document.
#[verifier::external_body]
fn document_entities(doc: &acadrust::CadDocument) -> (r: Vec<Option<(String, Vec<(String, String)>)>>)
    ensures
        entity_rows_view(r@) == document_entity_rows(*doc),
{
    doc.entities().map(|e| match e {
        acadrust::EntityType::Insert(insert) => Some((
            insert.block_name.clone(),
            insert.attributes.iter().map(|a| (a.tag.clone(), a.value.clone())).collect(),
        )),
        _ => None,
    }).collect()
}

/// The publish model of `doc`: an error unless exactly one of its entities
/// references the BRAN block.
pub fn bran_publish_model_from_document(doc: &acadrust::CadDocument) -> (r: Result<
    BranPublishModel,
    String,
>)
    ensures
        ({
            let found = bran_inserts(document_entity_rows(*doc));
            &&& found.len() == 0 ==> (r matches Err(e) && e@ == no_bran_message())
            &&& found.len() > 1 ==> (r matches Err(e) && e@ == many_bran_message())
            &&& found.len() == 1 ==> (r matches Ok(m) && model_matches(
                m,
                attribute_map(found[0]),
            ))
        }),
{
    let rows = document_entities(doc);
    bran_publish_model_from_entities(&rows)
}

/// Counts a publish bundle reports: the seven objects and six
/// drawing-level relationships of one BRAN.
#[derive(Debug, Clone, PartialEq, Eq)]
pub struct PidPublishReport {
    pub drawing_no: String,
    pub object_count: usize,
    pub relationship_count: usize,
}

/// The files of a written publish bundle and its report.
#[derive(Debug)]
pub struct PidExportBundle {
    pub pid_path: std::path::PathBuf,
    pub data_xml_path: std::path::PathBuf,
    pub meta_xml_path: std::path::PathBuf,
    pub report: PidPublishReport,
}

/// The report of a bundle published for `model`.
pub fn publish_report(model: &BranPublishModel) -> (r: PidPublishReport)
    ensures
        r.drawing_no@ == model.drawing_no@,
        r.object_count == 7,
        r.relationship_count == 6,
{
    PidPublishReport { drawing_no: model.drawing_no.clone(), object_count: 7, relationship_count: 6 }
}

/// The bundle written for `model` at `pid_path`: the PID file, its two
/// sidecars next to it, and the report.
pub fn publish_bundle_for(model: &BranPublishModel, pid_path: &str) -> (r: PidExportBundle)
    ensures
        r.report.drawing_no@ == model.drawing_no@,
        r.report.object_count == 7,
        r.report.relationship_count == 6,
        r.pid_path == path_from_text(pid_path@),
        sidecar_placed(r.data_xml_path, pid_path@, "_Data.xml"@),
        sidecar_placed(r.meta_xml_path, pid_path@, "_Meta.xml"@),
{
    PidExportBundle {
        pid_path: crate::svg_export::path_buf(pid_path),
        data_xml_path: publish_data_path(pid_path),
        meta_xml_path: publish_meta_path(pid_path),
        report: publish_report(model),
    }
}

/// Number of entities of `doc` that reference the BRAN block.
pub fn bran_insert_count(doc: &acadrust::CadDocument) -> (n: usize)
    ensures
        n == bran_inserts(document_entity_rows(*doc)).len(),
{
    let rows = document_entities(doc);
    let ghost rv = entity_rows_view(rows@);
    let ghost g = |x: EntityRow| bran_attrs_of(x);
    let mut count: usize = 0;
    let mut i: usize = 0;
    assert(rv.take(0).filter_map(g) =~= Seq::<Seq<(Seq<char>, Seq<char>)>>::empty());
    while i < rows.len()
        invariant
            i <= rows@.len(),
            rv == entity_rows_view(rows@),
            g == (|x: EntityRow| bran_attrs_of(x)),
            count == rv.take(i as int).filter_map(g).len(),
            count <= i,
        decreases rows.len() - i,
    {
        assert(rv.take(i + 1).drop_last() =~= rv.take(i as int));
        assert(rv.take(i + 1).last() == rv[i as int]);
        assert(rv[i as int] == entity_row_view(rows@[i as int]));
        let hit = match &rows[i] {
            Some(p) => is_bran_block(&p.0),
            None => false,
        };
        if hit {
            count = count + 1;
        }
        i += 1;
    }
    assert(rv.take(rows@.len() as int) =~= rv);
    count
}

/// The objects of a published BRAN: drawing, pipeline, connector, piping
/// branch point, branch point, process point and representation.
pub open spec fn graph_objects(m: BranPublishModel) -> Seq<crate::publish_xml::ObjView> {
    seq![
        (m.drawing_uid@, "PIDDrawing"@, true, Some(m.drawing_no@), seq![("DocTitle"@, m.doc_title@)]),
        (
            m.pipeline_uid@,
            "PIDPipeline"@,
            true,
            Some(m.pipeline_name@),
            seq![
                ("PipelineName"@, m.pipeline_name@),
                ("NominalDiameter"@, m.nominal_diameter@),
                ("PipingMaterialsClass"@, m.piping_class@),
            ],
        ),
        (m.connector_uid@, "PIDPipingConnector"@, true, Some(m.connector_name@), Seq::empty()),
        (m.piping_branch_uid@, "PIDPipingBranchPoint"@, true, Some(m.branch_name@), Seq::empty()),
        (m.branch_uid@, "PIDBranchPoint"@, true, Some(m.branch_name@), Seq::empty()),
        (m.process_point_uid@, "PIDProcessPoint"@, true, Some(m.branch_name@ + "-PP"@), Seq::empty()),
        (
            m.representation_uid@,
            "PIDRepresentation"@,
            true,
            Some(m.branch_name@ + "-REP"@),
            seq![("RepresentationType"@, "Polyline"@)],
        ),
    ]
}

/// The relationships of a published BRAN (definition, first and second
/// endpoint), each with the stable guid of `<def>:<uid1>:<uid2>`.
pub open spec fn graph_relationships(m: BranPublishModel) -> Seq<crate::publish_xml::RawRelView> {
    seq![
        (None, m.connector_uid@, m.piping_branch_uid@, "PipingEnd1Conn"@),
        (None, m.connector_uid@, m.process_point_uid@, "PipingEnd2Conn"@),
        (None, m.piping_branch_uid@, m.branch_uid@, "PipingTapOrFitting"@),
        (None, m.process_point_uid@, m.pipeline_uid@, "ProcessPointCollection"@),
        (None, m.pipeline_uid@, m.drawing_uid@, "DrawingItems"@),
        (None, m.representation_uid@, m.piping_branch_uid@, "DwgRepresentationComposition"@),
    ]
}

/// The object graph a publish bundle's PID file carries.
#[derive(Debug)]
pub struct PublishGraph {
    pub drawing_no: Option<String>,
    pub project_number: Option<String>,
    pub objects: Vec<crate::publish_xml::PublishObject>,
    pub relationships: Vec<crate::publish_xml::PublishRelationship>,
    /// Drawing id to the position of its object (the last one when repeated).
    pub by_drawing_id: Vec<(String, usize)>,
    /// Item type to its number of objects.
    pub counts_by_type: Vec<(String, usize)>,
}

fn graph_object(
    uid: &String,
    item_type: &str,
    model_id: String,
    extra_rows: Vec<(&str, String)>,
) -> (r: crate::publish_xml::PublishObject)
    ensures
        crate::publish_xml::object_matches(
            r,
            (uid@, item_type@, true, Some(model_id@), extra_rows@.map_values(|e: (&str, String)| (e.0@, e.1@))),
        ),
{
    let ghost rows = extra_rows@.map_values(|e: (&str, String)| (e.0@, e.1@));
    let mut extra = StringMap::new();
    let mut i: usize = 0;
    assert(map_of(rows.take(0)) =~= Map::<Seq<char>, Seq<char>>::empty());
    while i < extra_rows.len()
        invariant
            rows == extra_rows@.map_values(|e: (&str, String)| (e.0@, e.1@)),
            i <= extra_rows@.len(),
            extra@ == map_of(rows.take(i as int)),
        decreases extra_rows.len() - i,
    {
        let (k, v) = &extra_rows[i];
        extra.insert(String::from_str(*k), v.clone());
        assert(rows.take(i + 1).drop_last() =~= rows.take(i as int));
        assert(rows.take(i + 1).last() == (k@, v@));
        i += 1;
    }
    assert(rows.take(extra_rows@.len() as int) =~= rows);
    crate::publish_xml::PublishObject {
        drawing_id: uid.clone(),
        item_type: String::from_str(item_type),
        drawing_item_type: Some(String::from_str("IDrawingItem")),
        model_id: Some(model_id),
        extra,
    }
}

/// A relationship with the stable guid of `<def>:<uid1>:<uid2>`.
pub fn publish_relationship(def_uid: &str, uid1: &String, uid2: &String) -> (r:
    crate::publish_xml::PublishRelationship)
    ensures
        crate::publish_xml::rel_matches(r, crate::publish_xml::rel_view_of((None, uid1@, uid2@, def_uid@))),
{
    let mut seed = String::from_str(def_uid);
    push_str(&mut seed, ":");
    push_str(&mut seed, uid1.as_str());
    push_str(&mut seed, ":");
    push_str(&mut seed, uid2.as_str());
    let guid = stable_uid(seed.as_str());
    let mut model_id = String::from_str("Relationship.");
    push_str(&mut model_id, def_uid);
    push_str(&mut model_id, ".");
    push_str(&mut model_id, guid.as_str());
    crate::publish_xml::PublishRelationship {
        model_id,
        guid,
        source_drawing_id: Some(uid1.clone()),
        target_drawing_id: Some(uid2.clone()),
    }
}

fn with_suffix(s: &String, suffix: &str) -> (r: String)
    ensures
        r@ == s@ + suffix@,
{
    let mut r = s.clone();
    push_str(&mut r, suffix);
    r
}

/// `g` is the object graph published for `m`: its seven objects and six
/// relationships, their index and counts, the drawing number and no
/// project number.
pub open spec fn publish_graph_of(g: PublishGraph, m: BranPublishModel) -> bool {
    &&& g.drawing_no matches Some(d) && d@ == m.drawing_no@
    &&& g.project_number is None
    &&& g.objects@.len() == 7
    &&& forall|i: int| 0 <= i < 7 ==> crate::publish_xml::object_matches(
        #[trigger] g.objects@[i],
        graph_objects(m)[i],
    )
    &&& g.relationships@.len() == 6
    &&& forall|i: int| 0 <= i < 6 ==> crate::publish_xml::rel_matches(
        #[trigger] g.relationships@[i],
        crate::publish_xml::rel_view_of(graph_relationships(m)[i]),
    )
    &&& crate::publish_xml::graph_indexes(g.objects@, g.by_drawing_id, g.counts_by_type)
}

/// The object graph of a publish bundle for `model`: its seven objects and
/// six relationships, with the drawing number and no project number.
#[verifier::rlimit(50)]
pub fn build_publish_object_graph(model: &BranPublishModel) -> (g: PublishGraph)
    ensures
        publish_graph_of(g, *model),
{
    let ghost gv = graph_objects(*model);
    let ghost f = |e: (&str, String)| (e.0@, e.1@);
    let e0 = vec![("DocTitle", model.doc_title.clone())];
    assert(e0@.map_values(f) =~= gv[0].4);
    let o0 = graph_object(&model.drawing_uid, "PIDDrawing", model.drawing_no.clone(), e0);
    let e1 = vec![
        ("PipelineName", model.pipeline_name.clone()),
        ("NominalDiameter", model.nominal_diameter.clone()),
        ("PipingMaterialsClass", model.piping_class.clone()),
    ];
    assert(e1@.map_values(f) =~= gv[1].4);
    let o1 = graph_object(&model.pipeline_uid, "PIDPipeline", model.pipeline_name.clone(), e1);
    let e2: Vec<(&str, String)> = Vec::new();
    assert(e2@.map_values(f) =~= gv[2].4);
    let o2 = graph_object(&model.connector_uid, "PIDPipingConnector", model.connector_name.clone(), e2);
    let e3: Vec<(&str, String)> = Vec::new();
    assert(e3@.map_values(f) =~= gv[3].4);
    let o3 = graph_object(&model.piping_branch_uid, "PIDPipingBranchPoint", model.branch_name.clone(), e3);
    let e4: Vec<(&str, String)> = Vec::new();
    assert(e4@.map_values(f) =~= gv[4].4);
    let o4 = graph_object(&model.branch_uid, "PIDBranchPoint", model.branch_name.clone(), e4);
    let e5: Vec<(&str, String)> = Vec::new();
    assert(e5@.map_values(f) =~= gv[5].4);
    let o5 = graph_object(&model.process_point_uid, "PIDProcessPoint", with_suffix(&model.branch_name, "-PP"), e5);
    let e6 = vec![("RepresentationType", String::from_str("Polyline"))];
    assert(e6@.map_values(f) =~= gv[6].4);
    let o6 = graph_object(&model.representation_uid, "PIDRepresentation", with_suffix(&model.branch_name, "-REP"), e6);
    let r0 = publish_relationship("PipingEnd1Conn", &model.connector_uid, &model.piping_branch_uid);
    let r1 = publish_relationship("PipingEnd2Conn", &model.connector_uid, &model.process_point_uid);
    let r2 = publish_relationship("PipingTapOrFitting", &model.piping_branch_uid, &model.branch_uid);
    let r3 = publish_relationship("ProcessPointCollection", &model.process_point_uid, &model.pipeline_uid);
    let r4 = publish_relationship("DrawingItems", &model.pipeline_uid, &model.drawing_uid);
    let r5 = publish_relationship("DwgRepresentationComposition", &model.representation_uid, &model.piping_branch_uid);
    let objects = vec![o0, o1, o2, o3, o4, o5, o6];
    let relationships = vec![r0, r1, r2, r3, r4, r5];
    assert(objects@[0] == o0 && objects@[1] == o1 && objects@[2] == o2 && objects@[3] == o3);
    assert(objects@[4] == o4 && objects@[5] == o5 && objects@[6] == o6);
    assert(relationships@[0] == r0 && relationships@[1] == r1 && relationships@[2] == r2);
    assert(relationships@[3] == r3 && relationships@[4] == r4 && relationships@[5] == r5);
    let (by_drawing_id, counts_by_type) = crate::publish_xml::index_objects(&objects);
    PublishGraph {
        drawing_no: Some(model.drawing_no.clone()),
        project_number: None,
        objects,
        relationships,
        by_drawing_id,
        counts_by_type,
    }
}

/// Every relationship of a published BRAN graph joins two of the graph's
/// objects, and the bundle report counts exactly its objects and
/// relationships.
pub proof fn lemma_publish_graph_closed(m: BranPublishModel)
    ensures
        forall|i: int|
            0 <= i < graph_relationships(m).len() ==> crate::publish_xml::has_object(
                graph_objects(m),
                #[trigger] graph_relationships(m)[i].1,
            ) && crate::publish_xml::has_object(graph_objects(m), graph_relationships(m)[i].2),
        graph_objects(m).len() == 7,
        graph_relationships(m).len() == 6,
{
    let o = graph_objects(m);
    assert(o[0].0 == m.drawing_uid@ && o[1].0 == m.pipeline_uid@ && o[2].0 == m.connector_uid@);
    assert(o[3].0 == m.piping_branch_uid@ && o[4].0 == m.branch_uid@);
    assert(o[5].0 == m.process_point_uid@ && o[6].0 == m.representation_uid@);
}

/// The seven uids of `m` (drawing, pipeline, connector, piping branch
/// point, branch point, process point, representation) are pairwise
/// distinct.
pub open spec fn uids_distinct(m: BranPublishModel) -> bool {
    forall|i: int, j: int| 0 <= i < j < 7 ==> graph_objects(m)[i].0 != graph_objects(m)[j].0
}

/// In the graph published for a model whose uids are pairwise distinct,
/// the index sends each object's uid to its position and holds nothing
/// else, and each of the seven item types is counted exactly once.
pub proof fn lemma_publish_graph_index(m: BranPublishModel, g: PublishGraph)
    requires
        uids_distinct(m),
        publish_graph_of(g, m),
    ensures
        g.by_drawing_id@.len() == 7,
        forall|i: int|
            0 <= i < 7 ==> #[trigger] map_of(count_rows_view(g.by_drawing_id@))[graph_objects(m)[i].0] == i,
        g.counts_by_type@.len() == 7,
        forall|i: int|
            0 <= i < 7 ==> #[trigger] map_of(count_rows_view(g.counts_by_type@))[graph_objects(m)[i].1] == 1,
{
    let objs = g.objects@;
    let o = graph_objects(m);
    assert forall|i: int| 0 <= i < 7 implies (#[trigger] objs[i]).drawing_id@ == o[i].0 && objs[i].item_type@
        == o[i].1 by {
        assert(crate::publish_xml::object_matches(objs[i], o[i]));
    }
    reveal_strlit("PIDDrawing");
    reveal_strlit("PIDPipeline");
    reveal_strlit("PIDPipingConnector");
    reveal_strlit("PIDPipingBranchPoint");
    reveal_strlit("PIDBranchPoint");
    reveal_strlit("PIDProcessPoint");
    reveal_strlit("PIDRepresentation");
    assert forall|i: int, j: int| 0 <= i < j < 7 implies objs[i].item_type@ != objs[j].item_type@ by {
        assert(objs[i].item_type@ == o[i].1 && objs[j].item_type@ == o[j].1);
        assert(o[i].1.len() != o[j].1.len());
    }
    crate::publish_xml::lemma_type_counts_distinct(objs);
    crate::publish_xml::lemma_drawing_id_index(objs);
    assert forall|i: int| 0 <= i < 7 implies #[trigger] map_of(count_rows_view(g.by_drawing_id@))[o[i].0]
        == i by {
        assert(objs[i].drawing_id@ == o[i].0);
        assert forall|j: int| i < j < objs.len() implies objs[j].drawing_id@ != objs[i].drawing_id@ by {
            assert(objs[j].drawing_id@ == o[j].0);
        }
    }
    assert forall|i: int| 0 <= i < 7 implies #[trigger] map_of(count_rows_view(g.counts_by_type@))[o[i].1]
        == 1 by {
        assert(objs[i].item_type@ == o[i].1);
    }
    let ids = crate::publish_xml::drawing_id_index(objs);
    let tys = crate::publish_xml::type_counts(objs);
    lemma_map_of(count_rows_view(g.by_drawing_id@));
    lemma_map_of(count_rows_view(g.counts_by_type@));
    let id_set = set![o[0].0, o[1].0, o[2].0, o[3].0, o[4].0, o[5].0, o[6].0];
    assert(ids.dom() =~= id_set) by {
        assert forall|k: Seq<char>| ids.dom().contains(k) implies id_set.contains(k) by {
            let i = choose|i: int| 0 <= i < objs.len() && objs[i].drawing_id@ == k;
            assert(objs[i].drawing_id@ == o[i].0);
        }
        assert forall|k: Seq<char>| id_set.contains(k) implies ids.dom().contains(k) by {
            assert(objs[0].drawing_id@ == o[0].0);
            assert(objs[1].drawing_id@ == o[1].0);
            assert(objs[2].drawing_id@ == o[2].0);
            assert(objs[3].drawing_id@ == o[3].0);
            assert(objs[4].drawing_id@ == o[4].0);
            assert(objs[5].drawing_id@ == o[5].0);
            assert(objs[6].drawing_id@ == o[6].0);
        }
    }
    let ty_set = set![o[0].1, o[1].1, o[2].1, o[3].1, o[4].1, o[5].1, o[6].1];
    assert(tys.dom() =~= ty_set) by {
        assert forall|k: Seq<char>| tys.dom().contains(k) implies ty_set.contains(k) by {
            let i = choose|i: int| 0 <= i < objs.len() && objs[i].item_type@ == k;
            assert(objs[i].item_type@ == o[i].1);
        }
        assert forall|k: Seq<char>| ty_set.contains(k) implies tys.dom().contains(k) by {
            assert(objs[0].item_type@ == o[0].1);
            assert(objs[1].item_type@ == o[1].1);
            assert(objs[2].item_type@ == o[2].1);
            assert(objs[3].item_type@ == o[3].1);
            assert(objs[4].item_type@ == o[4].1);
            assert(objs[5].item_type@ == o[5].1);
            assert(objs[6].item_type@ == o[6].1);
        }
    }
    lemma_seven_distinct_len(o[0].0, o[1].0, o[2].0, o[3].0, o[4].0, o[5].0, o[6].0);
    lemma_seven_distinct_len(o[0].1, o[1].1, o[2].1, o[3].1, o[4].1, o[5].1, o[6].1);
}

proof fn lemma_seven_distinct_len(
    a: Seq<char>,
    b: Seq<char>,
    c: Seq<char>,
    d: Seq<char>,
    e: Seq<char>,
    f: Seq<char>,
    h: Seq<char>,
)
    requires
        a != b && a != c && a != d && a != e && a != f && a != h,
        b != c && b != d && b != e && b != f && b != h,
        c != d && c != e && c != f && c != h,
        d != e && d != f && d != h,
        e != f && e != h,
        f != h,
    ensures
        set![a, b, c, d, e, f, h].len() == 7,
{
    let s0 = Set::<Seq<char>>::empty();
    assert(s0.insert(a).len() == 1);
    assert(!s0.insert(a).contains(b));
    assert(s0.insert(a).insert(b).len() == 2);
    assert(!s0.insert(a).insert(b).contains(c));
    assert(s0.insert(a).insert(b).insert(c).len() == 3);
    assert(!s0.insert(a).insert(b).insert(c).contains(d));
    assert(s0.insert(a).insert(b).insert(c).insert(d).len() == 4);
    assert(!s0.insert(a).insert(b).insert(c).insert(d).contains(e));
    assert(s0.insert(a).insert(b).insert(c).insert(d).insert(e).len() == 5);
    assert(!s0.insert(a).insert(b).insert(c).insert(d).insert(e).contains(f));
    assert(s0.insert(a).insert(b).insert(c).insert(d).insert(e).insert(f).len() == 6);
    assert(!s0.insert(a).insert(b).insert(c).insert(d).insert(e).insert(f).contains(h));
}

} // verus!

//! Structured error type for the CAD document open path, with
//! Chinese-facing user messages and the classification of reader errors.

use crate::text::{
    alt_hex_text, push_alt_hex, push_signed_decimal, push_str, signed_dec_text, str_eq,
};
use vstd::prelude::*;

verus! {

/// Failure variants that can surface from the document-open pipeline.
#[derive(Debug, Clone)]
pub enum OpenError {
    /// The user cancelled the file picker; not to be rendered as an error.
    Cancelled,
    /// Filesystem-level failure; `path` is the displayed path when known.
    Io { path: Option<String>, message: String },
    /// The file's format version is outside the reader's coverage window.
    UnsupportedVersion { format: &'static str, version: String },
    /// The file is malformed (truncated header, bad sentinel, CRC mismatch…).
    Corrupt { format: &'static str, reason: String },
    /// The file extension is not one of the supported imports.
    UnsupportedExtension { ext: String },
    /// Unclassified failure; carries the original message verbatim.
    Other(String),
}

pub open spec fn user_message_zh_of(e: OpenError) -> Seq<char> {
    match e {
        OpenError::Cancelled => "已取消打开操作。"@,
        OpenError::Io { path, message } => match path {
            Some(p) => "读取文件失败（"@ + p@ + "）："@ + message@,
            None => "读取文件失败："@ + message@,
        },
        OpenError::UnsupportedVersion { format, version } => "暂不支持该 "@ + format@
            + " 文件版本："@ + version@ + "。请尝试用 AutoCAD 另存为 AC1015 (AutoCAD 2000) 或 DXF 后重试。"@,
        OpenError::Corrupt { format, reason } => format@ + " 文件内容已损坏或格式异常："@
            + reason@,
        OpenError::UnsupportedExtension { ext } => "暂不支持的文件类型 ."@ + ext@
            + "。当前可打开 .dwg / .dxf / .pid。"@,
        OpenError::Other(msg) => msg@,
    }
}

pub open spec fn display_text_of(e: OpenError) -> Seq<char> {
    match e {
        OpenError::Cancelled => "cancelled"@,
        OpenError::Io { path, message } => match path {
            Some(p) => "io error at "@ + p@ + ": "@ + message@,
            None => "io error: "@ + message@,
        },
        OpenError::UnsupportedVersion { format, version } => "unsupported "@ + format@
            + " version: "@ + version@,
        OpenError::Corrupt { format, reason } => format@ + " file corrupt: "@ + reason@,
        OpenError::UnsupportedExtension { ext } => "unsupported extension: ."@ + ext@,
        OpenError::Other(msg) => msg@,
    }
}

impl OpenError {
    /// Human-facing Chinese message for the command-line status bar.
    pub fn user_message_zh(&self) -> (r: String)
        ensures
            r@ == user_message_zh_of(*self),
    {
        let mut r = String::new();
        match self {
            OpenError::Cancelled => push_str(&mut r, "已取消打开操作。"),
            OpenError::Io { path, message } => match path {
                Some(p) => {
                    push_str(&mut r, "读取文件失败（");
                    push_str(&mut r, p.as_str());
                    push_str(&mut r, "）：");
                    push_str(&mut r, message.as_str());
                },
                None => {
                    push_str(&mut r, "读取文件失败：");
                    push_str(&mut r, message.as_str());
                },
            },
            OpenError::UnsupportedVersion { format, version } => {
                push_str(&mut r, "暂不支持该 ");
                push_str(&mut r, format);
                push_str(&mut r, " 文件版本：");
                push_str(&mut r, version.as_str());
                push_str(&mut r, "。请尝试用 AutoCAD 另存为 AC1015 (AutoCAD 2000) 或 DXF 后重试。");
            },
            OpenError::Corrupt { format, reason } => {
                push_str(&mut r, format);
                push_str(&mut r, " 文件内容已损坏或格式异常：");
                push_str(&mut r, reason.as_str());
            },
            OpenError::UnsupportedExtension { ext } => {
                push_str(&mut r, "暂不支持的文件类型 .");
                push_str(&mut r, ext.as_str());
                push_str(&mut r, "。当前可打开 .dwg / .dxf / .pid。");
            },
            OpenError::Other(msg) => push_str(&mut r, msg.as_str()),
        }
        r
    }

    /// True when the error is a user-initiated cancel and the UI should stay
    /// silent.
    pub fn is_silent(&self) -> (b: bool)
        ensures
            b == (*self is Cancelled),
    {
        match self {
            OpenError::Cancelled => true,
            _ => false,
        }
    }

    /// The English one-line rendering used in logs.
    pub fn display_text(&self) -> (r: String)
        ensures
            r@ == display_text_of(*self),
    {
        let mut r = String::new();
        match self {
            OpenError::Cancelled => push_str(&mut r, "cancelled"),
            OpenError::Io { path, message } => match path {
                Some(p) => {
                    push_str(&mut r, "io error at ");
                    push_str(&mut r, p.as_str());
                    push_str(&mut r, ": ");
                    push_str(&mut r, message.as_str());
                },
                None => {
                    push_str(&mut r, "io error: ");
                    push_str(&mut r, message.as_str());
                },
            },
            OpenError::UnsupportedVersion { format, version } => {
                push_str(&mut r, "unsupported ");
                push_str(&mut r, format);
                push_str(&mut r, " version: ");
                push_str(&mut r, version.as_str());
            },
            OpenError::Corrupt { format, reason } => {
                push_str(&mut r, format);
                push_str(&mut r, " file corrupt: ");
                push_str(&mut r, reason.as_str());
            },
            OpenError::UnsupportedExtension { ext } => {
                push_str(&mut r, "unsupported extension: .");
                push_str(&mut r, ext.as_str());
            },
            OpenError::Other(msg) => push_str(&mut r, msg.as_str()),
        }
        r
    }

    /// An `Io` error without a path, carrying `message` (the text of a
    /// std `io::Error`).
    pub fn from_io_message(message: String) -> (r: OpenError)
        ensures
            r == (OpenError::Io { path: None, message }),
    {
        OpenError::Io { path: None, message }
    }
}

/// std's `io::Error` rendered with its `Display` impl.
#[verifier::external_body]
fn io_error_text(err: &std::io::Error) -> String {
    err.to_string()
}

#[verifier::external_type_specification]
#[verifier::external_body]
pub struct ExIoError(std::io::Error);

impl OpenError {
    /// An `Io` error without a path, carrying the text of `err`.
    pub fn from_io_error(err: std::io::Error) -> (r: OpenError)
        ensures
            r matches OpenError::Io { path, .. } && path is None,
    {
        OpenError::from_io_message(io_error_text(&err))
    }
}

pub open spec fn open_error_from_text(s: String) -> OpenError {
    if s@ == "Cancelled"@ {
        OpenError::Cancelled
    } else {
        OpenError::Other(s)
    }
}

impl From<String> for OpenError {
    fn from(s: String) -> (r: Self) {
        if str_eq(s.as_str(), "Cancelled") {
            OpenError::Cancelled
        } else {
            OpenError::Other(s)
        }
    }
}

impl vstd::std_specs::convert::FromSpecImpl<String> for OpenError {
    open spec fn obeys_from_spec() -> bool {
        true
    }

    open spec fn from_spec(v: String) -> OpenError {
        open_error_from_text(v)
    }
}

impl OpenError {
    /// `Cancelled` for the text `"Cancelled"`, otherwise `Other(text)`.
    pub fn from_text(s: &str) -> (r: OpenError)
        ensures
            s@ == "Cancelled"@ ==> r is Cancelled,
            s@ != "Cancelled"@ ==> (r matches OpenError::Other(m) && m@ == s@),
    {
        OpenError::from(s.to_string())
    }
}

/// acadrust's `DxfError`, as plain values: the `Io` variant carries the
/// text of its `io::Error`.
#[derive(Debug, Clone)]
pub enum AcadDxfError {
    Io(String),
    UnsupportedVersion(String),
    Compression(String),
    Parse(String),
    InvalidDxfCode(i32),
    InvalidHandle(u64),
    ObjectNotFound(u64),
    InvalidEntityType(String),
    ChecksumMismatch { expected: u32, actual: u32 },
    InvalidHeader(String),
    InvalidFormat(String),
    RecoveryFailed(String),
    InvalidSentinel(String),
    Decompression(String),
    Decryption(String),
    Encoding(String),
    NotImplemented(String),
    Custom(String),
}

/// `r` is how [`classify_acadrust`] reports `err` for decoder `format`.
pub open spec fn is_acadrust_classification(
    err: AcadDxfError,
    format: &'static str,
    r: OpenError,
) -> bool {
    match err {
        AcadDxfError::Io(m) => r == OpenError::Io { path: None, message: m },
        AcadDxfError::UnsupportedVersion(v) => r == OpenError::UnsupportedVersion {
            format,
            version: v,
        },
        AcadDxfError::NotImplemented(m) => r == OpenError::UnsupportedVersion {
            format,
            version: m,
        },
        AcadDxfError::InvalidHeader(t) => r == OpenError::Corrupt { format, reason: t },
        AcadDxfError::InvalidFormat(t) => r == OpenError::Corrupt { format, reason: t },
        AcadDxfError::InvalidSentinel(t) => r == OpenError::Corrupt { format, reason: t },
        AcadDxfError::Parse(t) => r == OpenError::Corrupt { format, reason: t },
        AcadDxfError::Compression(t) => r == OpenError::Corrupt { format, reason: t },
        AcadDxfError::Decompression(t) => r == OpenError::Corrupt { format, reason: t },
        AcadDxfError::Decryption(t) => r == OpenError::Corrupt { format, reason: t },
        AcadDxfError::Encoding(t) => r == OpenError::Corrupt { format, reason: t },
        AcadDxfError::InvalidEntityType(t) => r == OpenError::Corrupt { format, reason: t },
        AcadDxfError::RecoveryFailed(t) => r == OpenError::Corrupt { format, reason: t },
        AcadDxfError::Custom(m) => r == OpenError::Other(m),
        AcadDxfError::ChecksumMismatch { expected, actual } => r matches OpenError::Corrupt {
            format: f,
            reason,
        } && f == format && reason@ == "CRC mismatch: expected "@ + alt_hex_text(expected as nat)
            + ", got "@ + alt_hex_text(actual as nat),
        AcadDxfError::InvalidDxfCode(code) => r matches OpenError::Corrupt { format: f, reason }
            && f == format && reason@ == "invalid DXF group code "@ + signed_dec_text(code as int),
        AcadDxfError::InvalidHandle(h) => r matches OpenError::Corrupt { format: f, reason } && f
            == format && reason@ == "invalid handle "@ + alt_hex_text(h as nat),
        AcadDxfError::ObjectNotFound(h) => r matches OpenError::Corrupt { format: f, reason } && f
            == format && reason@ == "object not found: handle "@ + alt_hex_text(h as nat),
    }
}

/// Classify an acadrust reader error into an [`OpenError`]; `format` labels
/// the decoder ("DWG" or "DXF").
pub fn classify_acadrust(err: AcadDxfError, format: &'static str) -> (r: OpenError)
    ensures
        is_acadrust_classification(err, format, r),
{
    match err {
        AcadDxfError::Io(m) => OpenError::Io { path: None, message: m },
        AcadDxfError::UnsupportedVersion(v) => OpenError::UnsupportedVersion { format, version: v },
        AcadDxfError::NotImplemented(m) => OpenError::UnsupportedVersion { format, version: m },
        AcadDxfError::InvalidHeader(r) => OpenError::Corrupt { format, reason: r },
        AcadDxfError::InvalidFormat(r) => OpenError::Corrupt { format, reason: r },
        AcadDxfError::InvalidSentinel(r) => OpenError::Corrupt { format, reason: r },
        AcadDxfError::Parse(r) => OpenError::Corrupt { format, reason: r },
        AcadDxfError::Compression(r) => OpenError::Corrupt { format, reason: r },
        AcadDxfError::Decompression(r) => OpenError::Corrupt { format, reason: r },
        AcadDxfError::Decryption(r) => OpenError::Corrupt { format, reason: r },
        AcadDxfError::Encoding(r) => OpenError::Corrupt { format, reason: r },
        AcadDxfError::InvalidEntityType(r) => OpenError::Corrupt { format, reason: r },
        AcadDxfError::RecoveryFailed(r) => OpenError::Corrupt { format, reason: r },
        AcadDxfError::ChecksumMismatch { expected, actual } => {
            let mut reason = String::new();
            push_str(&mut reason, "CRC mismatch: expected ");
            push_alt_hex(&mut reason, expected as u64);
            push_str(&mut reason, ", got ");
            push_alt_hex(&mut reason, actual as u64);
            OpenError::Corrupt { format, reason }
        },
        AcadDxfError::InvalidDxfCode(code) => {
            let mut reason = String::new();
            push_str(&mut reason, "invalid DXF group code ");
            push_signed_decimal(&mut reason, code as i64);
            OpenError::Corrupt { format, reason }
        },
        AcadDxfError::InvalidHandle(h) => {
            let mut reason = String::new();
            push_str(&mut reason, "invalid handle ");
            push_alt_hex(&mut reason, h);
            OpenError::Corrupt { format, reason }
        },
        AcadDxfError::ObjectNotFound(h) => {
            let mut reason = String::new();
            push_str(&mut reason, "object not found: handle ");
            push_alt_hex(&mut reason, h);
            OpenError::Corrupt { format, reason }
        },
        AcadDxfError::Custom(m) => OpenError::Other(m),
    }
}

/// The native DXF reader's error, as plain values: `Other` carries the
/// error's display text.
#[derive(Debug, Clone)]
pub enum NativeDxfError {
    UnsupportedFormat(String),
    Other(String),
}

/// Classify a native DXF reader error into an [`OpenError`].
pub fn classify_native_dxf(err: NativeDxfError) -> (r: OpenError)
    ensures
        r == match err {
            NativeDxfError::UnsupportedFormat(m) => OpenError::UnsupportedVersion {
                format: "DXF",
                version: m,
            },
            NativeDxfError::Other(t) => OpenError::Corrupt { format: "DXF", reason: t },
        },
{
    match err {
        NativeDxfError::UnsupportedFormat(m) => OpenError::UnsupportedVersion {
            format: "DXF",
            version: m,
        },
        NativeDxfError::Other(t) => OpenError::Corrupt { format: "DXF", reason: t },
    }
}

} // verus!

verus! {

/// The kinds of document the open path reads.
#[derive(Clone, Copy, Debug, PartialEq, Eq, Structural)]
pub enum DocumentKind {
    Dwg,
    Dxf,
    Pid,
}

/// The kind a lowercase extension selects, if any.
pub open spec fn document_kind_of(ext: Seq<char>) -> Option<DocumentKind> {
    if ext == "dwg"@ {
        Some(DocumentKind::Dwg)
    } else if ext == "dxf"@ {
        Some(DocumentKind::Dxf)
    } else if ext == "pid"@ {
        Some(DocumentKind::Pid)
    } else {
        None
    }
}

/// `r` is what dispatching on the lowercase extension `ext` gives.
pub open spec fn is_kind_dispatch(ext: Seq<char>, r: Result<DocumentKind, OpenError>) -> bool {
    match document_kind_of(ext) {
        Some(k) => r == Ok::<DocumentKind, OpenError>(k),
        None => r matches Err(OpenError::UnsupportedExtension { ext: e }) && e@ == ext,
    }
}

/// The document kind of a lowercase extension: `dwg`, `dxf` or `pid`, and
/// `UnsupportedExtension` carrying the extension for anything else.
pub fn document_kind(ext: &str) -> (r: Result<DocumentKind, OpenError>)
    ensures
        is_kind_dispatch(ext@, r),
{
    if str_eq(ext, "dwg") {
        Ok(DocumentKind::Dwg)
    } else if str_eq(ext, "dxf") {
        Ok(DocumentKind::Dxf)
    } else if str_eq(ext, "pid") {
        Ok(DocumentKind::Pid)
    } else {
        Err(OpenError::UnsupportedExtension { ext: String::from_str(ext) })
    }
}

/// std's `str::to_lowercase`: the Unicode lowercase mapping of `s`.
pub uninterp spec fn unicode_lowercase(s: Seq<char>) -> Seq<char>;

/// std's `str::to_lowercase`.  The contract claims the result is
/// `unicode_lowercase` of the argument; the mapping itself is not written
/// out.
#[verifier::external_body]
fn lowercase(s: &str) -> (r: String)
    ensures
        r@ == unicode_lowercase(s@),
{
    s.to_lowercase()
}

/// The extension of the file at `path` (a path read alike on every
/// platform), empty when it has none.
pub open spec fn path_extension_text(path: Seq<char>) -> Seq<char> {
    match crate::svg_export::name_extension(crate::svg_export::final_segment(path)) {
        Some(e) => e,
        None => Seq::empty(),
    }
}

/// The document kind for a file path: its extension (empty when it has
/// none), lowercased, dispatched as [`document_kind`] does.
pub fn document_kind_for_path(path: &str) -> (r: Result<DocumentKind, OpenError>)
    ensures
        exists|ext: Seq<char>| is_kind_dispatch(unicode_lowercase(ext), r),
        crate::svg_export::portable_path(path@) ==> is_kind_dispatch(
            unicode_lowercase(path_extension_text(path@)),
            r,
        ),
{
    let ext = match crate::svg_export::path_extension(path) {
        Some(e) => e,
        None => String::new(),
    };
    let lower = lowercase(ext.as_str());
    let r = document_kind(lower.as_str());
    assert(is_kind_dispatch(unicode_lowercase(ext@), r));
    r
}

/// The formats the save path writes.
#[derive(Clone, Copy, Debug, PartialEq, Eq, Structural)]
pub enum SaveFormat {
    Dxf,
    Dwg,
}

/// Why a `.pid` target is refused by the generic save path.
pub open spec fn pid_save_message() -> Seq<char> {
    "PID save must go through pid_import::save_pid_native (raw stream bytes are needed)"@
}

/// The format a lowercase extension is saved in: DXF for `dxf`, an error
/// for `pid` (a PID file is rewritten from its own raw streams), and DWG
/// for anything else.
pub open spec fn save_format_of(ext: Seq<char>) -> Result<SaveFormat, Seq<char>> {
    if ext == "dxf"@ {
        Ok(SaveFormat::Dxf)
    } else if ext == "pid"@ {
        Err(pid_save_message())
    } else {
        Ok(SaveFormat::Dwg)
    }
}

pub open spec fn result_text_view(r: Result<SaveFormat, String>) -> Result<SaveFormat, Seq<char>> {
    match r {
        Ok(f) => Ok(f),
        Err(e) => Err(e@),
    }
}

/// The save format for a lowercase extension.
pub fn save_format(ext: &str) -> (r: Result<SaveFormat, String>)
    ensures
        result_text_view(r) == save_format_of(ext@),
{
    if str_eq(ext, "dxf") {
        Ok(SaveFormat::Dxf)
    } else if str_eq(ext, "pid") {
        Err(String::from_str("PID save must go through pid_import::save_pid_native (raw stream bytes are needed)"))
    } else {
        Ok(SaveFormat::Dwg)
    }
}

/// The save format for a file path: its extension (empty when it has
/// none), lowercased, dispatched as [`save_format`] does.
pub fn save_format_for_path(path: &str) -> (r: Result<SaveFormat, String>)
    ensures
        exists|ext: Seq<char>| result_text_view(r) == save_format_of(unicode_lowercase(ext)),
        crate::svg_export::portable_path(path@) ==> result_text_view(r) == save_format_of(
            unicode_lowercase(path_extension_text(path@)),
        ),
{
    let ext = match crate::svg_export::path_extension(path) {
        Some(e) => e,
        None => String::new(),
    };
    let lower = lowercase(ext.as_str());
    let r = save_format(lower.as_str());
    assert(result_text_view(r) == save_format_of(unicode_lowercase(ext@)));
    r
}

} // verus!

use h7cad::open_error::{classify_acadrust, classify_native_dxf, AcadDxfError, NativeDxfError, OpenError};
use std::io;
use h7cad::open_error::{document_kind, document_kind_for_path, DocumentKind};
use h7cad::open_error::{save_format, save_format_for_path, SaveFormat};

#[test]
fn cancelled_is_silent() {
    assert!(OpenError::Cancelled.is_silent());
    assert!(!OpenError::Other("oops".into()).is_silent());
}

#[test]
fn from_string_cancelled_becomes_cancelled_variant() {
    let err: OpenError = "Cancelled".to_string().into();
    assert!(matches!(err, OpenError::Cancelled));
}

#[test]
fn from_string_other_becomes_other_variant() {
    let err: OpenError = "something went wrong".to_string().into();
    assert!(matches!(err, OpenError::Other(msg) if msg == "something went wrong"));
}

#[test]
fn from_io_error_preserves_message() {
    let io_err = io::Error::new(io::ErrorKind::NotFound, "no such file");
    let err = OpenError::from_io_error(io_err);
    match err {
        OpenError::Io { message, path: None } => {
            assert!(message.contains("no such file"), "message was {message:?}");
        }
        other => panic!("expected Io variant, got {other:?}"),
    }
}

#[test]
fn classify_acadrust_unsupported_version_routes_to_version_variant() {
    let err = classify_acadrust(AcadDxfError::UnsupportedVersion("AC1032".into()), "DWG");
    assert!(matches!(
        err,
        OpenError::UnsupportedVersion { format: "DWG", version } if version == "AC1032"
    ));
}

#[test]
fn classify_acadrust_invalid_header_routes_to_corrupt() {
    let err = classify_acadrust(AcadDxfError::InvalidHeader("bad magic".into()), "DWG");
    assert!(matches!(
        err,
        OpenError::Corrupt { format: "DWG", reason } if reason == "bad magic"
    ));
}

#[test]
fn classify_acadrust_crc_mismatch_builds_reason_from_both_sides() {
    let err = classify_acadrust(
        AcadDxfError::ChecksumMismatch { expected: 0x1234, actual: 0xBEEF },
        "DWG",
    );
    match err {
        OpenError::Corrupt { format: "DWG", reason } => {
            assert!(reason.contains("0x1234"));
            assert!(reason.contains("0xBEEF"));
        }
        other => panic!("expected Corrupt variant, got {other:?}"),
    }
}

#[test]
fn classify_acadrust_io_keeps_message_without_path() {
    let err = classify_acadrust(AcadDxfError::Io("denied".to_string()), "DWG");
    match err {
        OpenError::Io { message, path: None } => assert!(message.contains("denied")),
        other => panic!("expected Io, got {other:?}"),
    }
}

#[test]
fn classify_acadrust_not_implemented_surfaces_as_unsupported_version() {
    let err = classify_acadrust(AcadDxfError::NotImplemented("encrypted metadata".into()), "DWG");
    assert!(matches!(err, OpenError::UnsupportedVersion { format: "DWG", .. }));
}

#[test]
fn classify_native_dxf_unsupported_format_routes_to_version() {
    let err = classify_native_dxf(NativeDxfError::UnsupportedFormat("binary only".into()));
    assert!(matches!(err, OpenError::UnsupportedVersion { format: "DXF", .. }));
}

#[test]
fn classify_native_dxf_unexpected_eof_routes_to_corrupt() {
    let err = classify_native_dxf(NativeDxfError::Other(
        "unexpected end of file while reading header".into(),
    ));
    assert!(matches!(err, OpenError::Corrupt { format: "DXF", .. }));
}

#[test]
fn zh_message_for_unsupported_extension_mentions_supported_types() {
    let msg = OpenError::UnsupportedExtension { ext: "foo".into() }.user_message_zh();
    assert!(msg.contains(".foo"));
    assert!(msg.contains("dwg"));
    assert!(msg.contains("dxf"));
}

#[test]
fn zh_message_for_unsupported_version_suggests_downgrade() {
    let msg = OpenError::UnsupportedVersion { format: "DWG", version: "AC1032".into() }
        .user_message_zh();
    assert!(msg.contains("AC1032"));
    assert!(msg.contains("AC1015"));
}

#[test]
fn zh_message_for_cancelled_is_neutral() {
    let msg = OpenError::Cancelled.user_message_zh();
    assert!(msg.contains("取消"));
}

#[test]
fn display_impl_renders_variant_specific_prefix() {
    let err = OpenError::UnsupportedVersion { format: "DWG", version: "AC1032".into() };
    let s = err.display_text();
    assert!(s.contains("DWG"));
    assert!(s.contains("AC1032"));
}

#[test]
fn classify_acadrust_crc_reason_exact_text() {
    let err = classify_acadrust(
        AcadDxfError::ChecksumMismatch { expected: 0x1234, actual: 0xBEEF },
        "DXF",
    );
    assert!(matches!(err, OpenError::Corrupt { format: "DXF", reason }
        if reason == "CRC mismatch: expected 0x1234, got 0xBEEF"));
}

#[test]
fn classify_acadrust_numeric_variants() {
    let e = classify_acadrust(AcadDxfError::InvalidDxfCode(-7), "DXF");
    assert!(matches!(e, OpenError::Corrupt { reason, .. } if reason == "invalid DXF group code -7"));
    let e = classify_acadrust(AcadDxfError::InvalidHandle(0x2A), "DWG");
    assert!(matches!(e, OpenError::Corrupt { reason, .. } if reason == "invalid handle 0x2A"));
    let e = classify_acadrust(AcadDxfError::ObjectNotFound(255), "DWG");
    assert!(matches!(e, OpenError::Corrupt { reason, .. } if reason == "object not found: handle 0xFF"));
    let e = classify_acadrust(AcadDxfError::Custom("x".into()), "DWG");
    assert!(matches!(e, OpenError::Other(m) if m == "x"));
}

#[test]
fn display_text_per_variant() {
    assert_eq!(OpenError::Cancelled.display_text(), "cancelled");
    assert_eq!(
        OpenError::Io { path: Some("a.dwg".into()), message: "gone".into() }.display_text(),
        "io error at a.dwg: gone"
    );
    assert_eq!(
        OpenError::UnsupportedExtension { ext: "foo".into() }.display_text(),
        "unsupported extension: .foo"
    );
    assert_eq!(
        OpenError::Corrupt { format: "DWG", reason: "bad".into() }.display_text(),
        "DWG file corrupt: bad"
    );
}

#[test]
fn from_text_matches_from_string() {
    assert!(matches!(OpenError::from_text("Cancelled"), OpenError::Cancelled));
    assert!(matches!(OpenError::from_text("cancelled"), OpenError::Other(m) if m == "cancelled"));
}

#[test]
fn open_document_blocking_rejects_unsupported_extension() {
    let err = document_kind_for_path("/nonexistent/fixture.xyz").unwrap_err();
    assert!(matches!(err, OpenError::UnsupportedExtension { ext } if ext == "xyz"));
}

#[test]
fn document_kind_dispatch_by_extension() {
    assert_eq!(document_kind("dwg").unwrap(), DocumentKind::Dwg);
    assert_eq!(document_kind("dxf").unwrap(), DocumentKind::Dxf);
    assert_eq!(document_kind("pid").unwrap(), DocumentKind::Pid);
    assert!(matches!(document_kind("DWG"), Err(OpenError::UnsupportedExtension { ext }) if ext == "DWG"));
    assert_eq!(document_kind_for_path("a/B.DWG").unwrap(), DocumentKind::Dwg);
    assert_eq!(document_kind_for_path("plant.Pid").unwrap(), DocumentKind::Pid);
    assert!(matches!(document_kind_for_path("noext"), Err(OpenError::UnsupportedExtension { ext }) if ext.is_empty()));
}

#[test]
fn save_format_dispatches_on_lowercase_extension() {
    assert_eq!(save_format("dxf"), Ok(SaveFormat::Dxf));
    assert_eq!(save_format("dwg"), Ok(SaveFormat::Dwg));
    assert_eq!(save_format(""), Ok(SaveFormat::Dwg));
    assert_eq!(
        save_format("pid"),
        Err("PID save must go through pid_import::save_pid_native (raw stream bytes are needed)".to_string())
    );
    assert_eq!(save_format_for_path("/tmp/out.DXF"), Ok(SaveFormat::Dxf));
    assert_eq!(save_format_for_path("/tmp/out"), Ok(SaveFormat::Dwg));
    assert!(save_format_for_path("/tmp/a.Pid").unwrap_err().contains("PID save must go through"));
}

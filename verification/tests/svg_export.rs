use h7cad::mtext::strip_mtext_codes;
use h7cad::svg_export::{
    aci_for_ctb, base64_encode, guess_image_mime, mime_for_extension, resolve_image_path,
    xml_attr_escape, xml_escape,
};

#[test]
fn xml_escape_covers_all_entities() {
    assert_eq!(xml_escape("a & b"), "a &amp; b");
    assert_eq!(xml_escape("<x>"), "&lt;x&gt;");
    assert_eq!(xml_escape("\"q\""), "&quot;q&quot;");
    assert_eq!(xml_escape("it's"), "it&apos;s");
    assert_eq!(xml_escape("plain"), "plain");
}

#[test]
fn strip_mtext_linebreak_and_font() {
    assert_eq!(strip_mtext_codes("Line1\\PLine2"), "Line1\nLine2");
    assert_eq!(
        strip_mtext_codes("\\fArial|b0|i0;Hello"),
        "Hello",
        "\\f font code should be stripped through ';'",
    );
}

#[test]
fn strip_mtext_height_color_and_stacking() {
    assert_eq!(strip_mtext_codes("\\H2.5;Tall"), "Tall");
    assert_eq!(strip_mtext_codes("\\C1;Red"), "Red");
    assert_eq!(strip_mtext_codes("\\S1^2;"), "1/2");
}

#[test]
fn strip_mtext_escapes_and_braces() {
    assert_eq!(strip_mtext_codes("a\\\\b"), "a\\b");
    assert_eq!(strip_mtext_codes("\\{x\\}"), "{x}");
    assert_eq!(strip_mtext_codes("{grp}"), "grp");
}

#[test]
fn base64_encode_rfc4648_vectors() {
    assert_eq!(base64_encode(b""), "");
    assert_eq!(base64_encode(b"f"), "Zg==");
    assert_eq!(base64_encode(b"fo"), "Zm8=");
    assert_eq!(base64_encode(b"foo"), "Zm9v");
    assert_eq!(base64_encode(b"foob"), "Zm9vYg==");
    assert_eq!(base64_encode(b"fooba"), "Zm9vYmE=");
    assert_eq!(base64_encode(b"foobar"), "Zm9vYmFy");
}

#[test]
fn guess_image_mime_common_extensions() {
    assert_eq!(guess_image_mime("a.PNG"), Some("image/png"));
    assert_eq!(guess_image_mime("a.jpg"), Some("image/jpeg"));
    assert_eq!(guess_image_mime("a.jpeg"), Some("image/jpeg"));
    assert_eq!(guess_image_mime("a.bmp"), Some("image/bmp"));
    assert_eq!(guess_image_mime("a.tif"), Some("image/tiff"));
    assert_eq!(guess_image_mime("a.webp"), Some("image/webp"));
    assert_eq!(guess_image_mime("a.unknown"), None);
    assert_eq!(guess_image_mime("noext"), None);
}

#[test]
fn resolve_image_path_handles_relative_and_absolute() {
    let base = std::path::Path::new("C:/a/b");
    let rel = resolve_image_path("img.png", Some("C:/a/b"));
    assert_eq!(rel, base.join("img.png"));
    let plain = resolve_image_path("img.png", None);
    assert_eq!(plain, std::path::PathBuf::from("img.png"));
}

#[test]
fn resolve_image_path_keeps_absolute_paths() {
    let abs = resolve_image_path("/other/x.png", Some("/a/b"));
    assert_eq!(abs, std::path::PathBuf::from("/other/x.png"));
}

#[test]
fn xml_attr_escape_matches_xml_escape() {
    assert_eq!(xml_attr_escape("a<\"b\">&'"), "a&lt;&quot;b&quot;&gt;&amp;&apos;");
}

#[test]
fn mime_for_extension_is_case_insensitive() {
    assert_eq!(mime_for_extension("GIF"), Some("image/gif"));
    assert_eq!(mime_for_extension("Tiff"), Some("image/tiff"));
    assert_eq!(mime_for_extension("svg"), Some("image/svg+xml"));
    assert_eq!(mime_for_extension("txt"), None);
}

#[test]
fn aci_for_ctb_range() {
    assert_eq!(aci_for_ctb(0), None);
    assert_eq!(aci_for_ctb(1), Some(1));
    assert_eq!(aci_for_ctb(255), Some(255));
    assert_eq!(aci_for_ctb(256), None);
    assert_eq!(aci_for_ctb(-3), None);
}

#[test]
fn base64_uses_plus_and_slash() {
    assert_eq!(base64_encode(&[0xfb, 0xff]), "+/8=");
}

#[test]
fn strip_mtext_plain_text_unchanged() {
    assert_eq!(strip_mtext_codes("no codes here"), "no codes here");
}

#[test]
fn mime_follows_the_final_path_segment() {
    assert_eq!(guess_image_mime("dir/sub/photo.Jpeg"), Some("image/jpeg"));
    assert_eq!(guess_image_mime("dir.png/readme"), None);
    assert_eq!(guess_image_mime(".png"), None);
    assert_eq!(guess_image_mime("x.tar.tiff"), Some("image/tiff"));
}

#[test]
fn image_path_without_base_is_used_as_given() {
    assert_eq!(resolve_image_path("img/a.png", None), std::path::PathBuf::from("img/a.png"));
    assert_eq!(resolve_image_path("/abs/a.png", None), std::path::PathBuf::from("/abs/a.png"));
}

#[test]
fn relative_image_path_is_joined_to_base() {
    let r = resolve_image_path("img/a.png", Some("base/dir"));
    assert!(r == std::path::PathBuf::from("base/dir/img/a.png") || r == std::path::PathBuf::from("base/dir\\img/a.png"));
}

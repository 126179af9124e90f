use h7cad::color_policy::ColorPolicy;
use h7cad::native_codes::{
    bytes_to_hex, color_to_native, hex_to_bytes, infer_polygon_mesh_dimensions,
    lineweight_to_native, native_color, native_lineweight, native_transparency,
    normalize_face3d_invisible_edges, pack_true_color, Color, LineWeight, Transparency,
};
use h7cad::pdf_export::{can_render_native_text, PdfFontChoice};

#[test]
fn default_is_monochrome() {
    assert_eq!(ColorPolicy::default(), ColorPolicy::Monochrome);
}

#[test]
fn face3d_keeps_low_four_bits() {
    assert_eq!(normalize_face3d_invisible_edges(0xFF), 15);
    assert_eq!(normalize_face3d_invisible_edges(0x35), 5);
    assert_eq!(normalize_face3d_invisible_edges(0), 0);
}

#[test]
fn polygon_mesh_dimensions_examples() {
    assert_eq!(infer_polygon_mesh_dimensions(0), (0, 0));
    assert_eq!(infer_polygon_mesh_dimensions(1), (1, 1));
    assert_eq!(infer_polygon_mesh_dimensions(12), (3, 4));
    assert_eq!(infer_polygon_mesh_dimensions(16), (4, 4));
    assert_eq!(infer_polygon_mesh_dimensions(7), (1, 7));
    assert_eq!(infer_polygon_mesh_dimensions(24), (4, 6));
}

#[test]
fn true_color_packing() {
    assert_eq!(pack_true_color(0x12, 0x34, 0x56), 0x123456);
    assert_eq!(pack_true_color(255, 255, 255), 0xFFFFFF);
    assert_eq!(pack_true_color(0, 0, 0), 0);
}

#[test]
fn native_color_mapping() {
    assert_eq!(native_color(256), Color::ByLayer);
    assert_eq!(native_color(-2), Color::ByBlock);
    assert_eq!(native_color(7), Color::Index(7));
    assert_eq!(native_color(0), Color::ByLayer);
    assert_eq!(native_color(-5), Color::ByLayer);
    assert_eq!(native_color(300), Color::Index(44));
}

#[test]
fn color_to_native_mapping() {
    assert_eq!(color_to_native(&Color::ByLayer), (256, 0));
    assert_eq!(color_to_native(&Color::ByBlock), (-2, 0));
    assert_eq!(color_to_native(&Color::Index(5)), (5, 0));
    assert_eq!(color_to_native(&Color::Rgb { r: 1, g: 2, b: 3 }), (256, 0x010203));
    assert_eq!(color_to_native(&Color::NoColor), (257, 0));
}

#[test]
fn color_index_round_trip() {
    for i in 1..=255i16 {
        let (idx, tc) = color_to_native(&native_color(i));
        assert_eq!((idx, tc), (i, 0));
    }
    assert_eq!(color_to_native(&native_color(256)), (256, 0));
    assert_eq!(color_to_native(&native_color(-2)), (-2, 0));
}

#[test]
fn lineweight_mapping_and_round_trip() {
    assert_eq!(native_lineweight(-1), LineWeight::ByLayer);
    assert_eq!(native_lineweight(-2), LineWeight::ByBlock);
    assert_eq!(native_lineweight(-3), LineWeight::Default);
    assert_eq!(native_lineweight(25), LineWeight::Value(25));
    for v in [-3i16, -2, -1, 0, 13, 211, i16::MAX, i16::MIN] {
        assert_eq!(lineweight_to_native(&native_lineweight(v)), v);
    }
    for w in [LineWeight::ByLayer, LineWeight::ByBlock, LineWeight::Default, LineWeight::Value(50)] {
        assert_eq!(native_lineweight(lineweight_to_native(&w)), w);
    }
}

#[test]
fn transparency_mapping() {
    assert_eq!(native_transparency(0), Transparency::Explicit(0));
    assert_eq!(native_transparency(90), Transparency::Explicit(90));
    assert_eq!(native_transparency(1000), Transparency::Explicit(255));
    assert_eq!(native_transparency(0x0100_0000), Transparency::ByBlock);
    assert_eq!(native_transparency(0x0200_0040), Transparency::Explicit(255 - 0x40));
    assert_eq!(native_transparency(0x0500_0000), Transparency::ByLayer);
}

#[test]
fn hex_encoding_is_uppercase_two_digits() {
    assert_eq!(bytes_to_hex(&[]), "");
    assert_eq!(bytes_to_hex(&[0x00, 0x0f, 0xab, 0xff]), "000FABFF");
}

#[test]
fn hex_round_trip_and_errors() {
    let bytes = vec![0u8, 1, 127, 128, 254, 255];
    assert_eq!(hex_to_bytes(&bytes_to_hex(&bytes)), Some(bytes));
    assert_eq!(hex_to_bytes("abCD"), Some(vec![0xab, 0xcd]));
    assert_eq!(hex_to_bytes("abc"), None);
    assert_eq!(hex_to_bytes("zz"), None);
    assert_eq!(hex_to_bytes(""), Some(vec![]));
}

#[test]
fn pdf_font_labels_and_latin1_check() {
    assert_eq!(PdfFontChoice::Helvetica.label(), "Helvetica");
    assert_eq!(PdfFontChoice::TimesRoman.label(), "Times");
    assert_eq!(PdfFontChoice::Courier.label(), "Courier");
    assert!(can_render_native_text("Hello é"));
    assert!(!can_render_native_text(""));
    assert!(!can_render_native_text("中文"));
}

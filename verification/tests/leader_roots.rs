use h7cad::leader_roots::split_native_mleader_roots;
use h7cad::native_codes::{
    acad_mleader_content_type, acad_mleader_path_type, acad_mtext_attachment, acad_mtext_direction,
    acad_text_halign, acad_text_valign, native_mleader_content_type, native_mleader_path_type,
    native_mtext_attachment, native_mtext_direction, native_text_halign, native_text_valign,
    AttachmentPoint, DrawingDirection, LeaderContentType, MultiLeaderPathType, TextHorizontalAlignment,
    TextVerticalAlignment,
};

#[test]
fn split_by_lengths_with_tail_and_zero_lengths() {
    let v = vec![1, 2, 3, 4, 5, 6];
    assert_eq!(split_native_mleader_roots(&v, &vec![2, 0, 3]), vec![vec![1, 2], vec![3, 4, 5], vec![6]]);
    assert_eq!(split_native_mleader_roots(&v, &vec![4, 9]), vec![vec![1, 2, 3, 4], vec![5, 6]]);
    assert_eq!(split_native_mleader_roots(&v, &vec![]), vec![v.clone()]);
    assert_eq!(split_native_mleader_roots(&v, &vec![0, 0]), vec![v.clone()]);
    assert_eq!(split_native_mleader_roots(&v, &vec![6, 1]), vec![v.clone()]);
    let empty: Vec<i32> = vec![];
    assert!(split_native_mleader_roots(&empty, &vec![1]).is_empty());
}

#[test]
fn multileader_entity_bridge_preserves_multiple_root_lengths() {
    let roots = vec![vec![[0.0f64, 0.0, 0.0], [1.0, 1.0, 0.0]], vec![[5.0, 5.0, 0.0]], vec![[7.0, 0.0, 0.0], [8.0, 0.0, 0.0], [9.0, 1.0, 0.0]]];
    let flat: Vec<[f64; 3]> = roots.iter().flatten().copied().collect();
    let lens: Vec<usize> = roots.iter().map(|r| r.len()).collect();
    assert_eq!(split_native_mleader_roots(&flat, &lens), roots);
}

#[test]
fn text_alignment_codes_round_trip() {
    for code in 0..=5i16 {
        assert_eq!(acad_text_halign(native_text_halign(code)), code);
    }
    assert_eq!(native_text_halign(9), TextHorizontalAlignment::Left);
    for code in 0..=3i16 {
        assert_eq!(acad_text_valign(native_text_valign(code)), code);
    }
    assert_eq!(native_text_valign(-1), TextVerticalAlignment::Baseline);
    for code in 1..=9i16 {
        assert_eq!(acad_mtext_attachment(native_mtext_attachment(code)), code);
    }
    assert_eq!(native_mtext_attachment(0), AttachmentPoint::TopLeft);
    assert_eq!(native_mtext_direction(3), DrawingDirection::TopToBottom);
    assert_eq!(native_mtext_direction(2), DrawingDirection::LeftToRight);
    assert_eq!(acad_mtext_direction(DrawingDirection::ByStyle), 5);
}

#[test]
fn leader_codes_follow_native_numbering() {
    assert_eq!(native_mleader_content_type(1), LeaderContentType::MText);
    assert_eq!(native_mleader_content_type(2), LeaderContentType::Block);
    assert_eq!(native_mleader_content_type(7), LeaderContentType::NoContent);
    for t in [LeaderContentType::NoContent, LeaderContentType::Block, LeaderContentType::MText, LeaderContentType::Tolerance] {
        assert_eq!(native_mleader_content_type(acad_mleader_content_type(t)), t);
    }
    assert_eq!(native_mleader_path_type(0), MultiLeaderPathType::Invisible);
    assert_eq!(native_mleader_path_type(5), MultiLeaderPathType::StraightLineSegments);
    for t in [MultiLeaderPathType::Invisible, MultiLeaderPathType::StraightLineSegments, MultiLeaderPathType::Spline] {
        assert_eq!(native_mleader_path_type(acad_mleader_path_type(t)), t);
    }
}

use softrast::obj::{
    line_kind, parse_face_corner, parse_index, resolve, triangulate, FaceCorner, LineKind,
};

fn corner(position: usize, uv: Option<usize>, normal: Option<usize>) -> FaceCorner {
    FaceCorner { position, uv, normal }
}

#[test]
fn lines_are_told_apart_by_their_first_letters() {
    assert_eq!(line_kind(b"v 1.0 2.0 3.0"), LineKind::Position);
    assert_eq!(line_kind(b"vn 0 0 1"), LineKind::Normal);
    assert_eq!(line_kind(b"vt 0.5 0.5"), LineKind::TexCoord);
    assert_eq!(line_kind(b"f 1/1/1 2/2/2 3/3/3"), LineKind::Face);
    assert_eq!(line_kind(b"v "), LineKind::Position);
    assert_eq!(line_kind(b"v"), LineKind::Other);
    assert_eq!(line_kind(b"vn"), LineKind::Other);
    assert_eq!(line_kind(b"vp 1 2"), LineKind::Other);
    assert_eq!(line_kind(b" v 1 2 3"), LineKind::Other);
    assert_eq!(line_kind(b"# v 1 2 3"), LineKind::Other);
    assert_eq!(line_kind(b"fv 1"), LineKind::Other);
    assert_eq!(line_kind(b""), LineKind::Other);
    assert_eq!(line_kind(b"usemtl f "), LineKind::Other);
}

#[test]
fn indices_are_decimal_numbers() {
    assert_eq!(parse_index(b"0"), Some(0));
    assert_eq!(parse_index(b"7"), Some(7));
    assert_eq!(parse_index(b"0042"), Some(42));
    assert_eq!(parse_index(b"+13"), Some(13));
    assert_eq!(parse_index(b"1234567890"), Some(1234567890));
    assert_eq!(parse_index(b""), None);
    assert_eq!(parse_index(b"+"), None);
    assert_eq!(parse_index(b"-1"), None);
    assert_eq!(parse_index(b"1 "), None);
    assert_eq!(parse_index(b"1.5"), None);
    assert_eq!(parse_index(b"++1"), None);
    assert_eq!(parse_index(b"12a"), None);
}

#[test]
fn indices_agree_with_the_standard_library() {
    let tokens = [
        "18446744073709551615",
        "18446744073709551616",
        "18446744073709551625",
        "184467440737095516150",
        "99999999999999999999999",
        "4294967295",
        "4294967296",
        "+0",
        "00000000000000000000000000001",
    ];
    for token in tokens {
        assert_eq!(parse_index(token.as_bytes()), token.parse::<usize>().ok());
    }
}

#[test]
fn corners_have_three_fields() {
    assert_eq!(parse_face_corner(b"1/2/3"), Some(corner(1, Some(2), Some(3))));
    assert_eq!(parse_face_corner(b"10//30"), Some(corner(10, None, Some(30))));
    assert_eq!(parse_face_corner(b"10/20/"), Some(corner(10, Some(20), None)));
    assert_eq!(parse_face_corner(b"5//"), Some(corner(5, None, None)));
    assert_eq!(parse_face_corner(b"5/x/-2"), Some(corner(5, None, None)));
    assert_eq!(parse_face_corner(b"1/2/3/4"), Some(corner(1, Some(2), Some(3))));
    assert_eq!(parse_face_corner(b"0/0/0"), Some(corner(0, Some(0), Some(0))));
}

#[test]
fn malformed_corners_are_refused() {
    assert_eq!(parse_face_corner(b""), None);
    assert_eq!(parse_face_corner(b"1"), None);
    assert_eq!(parse_face_corner(b"1/2"), None);
    assert_eq!(parse_face_corner(b"/2/3"), None);
    assert_eq!(parse_face_corner(b"a/2/3"), None);
    assert_eq!(parse_face_corner(b"-1/2/3"), None);
    assert_eq!(parse_face_corner(b"//"), None);
}

#[test]
fn faces_are_cut_into_triangles() {
    let c = |n: usize| corner(n, None, None);
    assert_eq!(triangulate(&[c(1), c(2), c(3)]), vec![c(1), c(2), c(3)]);
    assert_eq!(
        triangulate(&[c(1), c(2), c(3), c(4)]),
        vec![c(1), c(2), c(3), c(1), c(3), c(4)]
    );
    assert!(triangulate(&[]).is_empty());
    assert!(triangulate(&[c(1), c(2)]).is_empty());
    assert!(triangulate(&[c(1), c(2), c(3), c(4), c(5)]).is_empty());
}

#[test]
fn corners_are_found_in_the_lists() {
    assert_eq!(resolve(&corner(1, Some(2), Some(3)), 1, 2, 3), Some((0, Some(1), Some(2))));
    assert_eq!(resolve(&corner(4, None, None), 4, 0, 0), Some((3, None, None)));
    assert_eq!(resolve(&corner(0, None, None), 4, 0, 0), None);
    assert_eq!(resolve(&corner(5, None, None), 4, 0, 0), None);
    assert_eq!(resolve(&corner(1, Some(0), None), 4, 4, 4), None);
    assert_eq!(resolve(&corner(1, Some(5), None), 4, 4, 4), None);
    assert_eq!(resolve(&corner(1, None, Some(0)), 4, 4, 4), None);
    assert_eq!(resolve(&corner(1, None, Some(5)), 4, 4, 4), None);
    assert_eq!(resolve(&corner(usize::MAX, None, None), usize::MAX, 0, 0), Some((usize::MAX - 1, None, None)));
}

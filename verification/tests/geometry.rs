use whackamole::view::{Dimension, GameView, GeometryError, Marmot};

fn empty_view() -> GameView {
    GameView::new(&Dimension { width: 70, height: 25 })
}

#[test]
fn build_block_accepts_boundary_values() {
    let mut v = empty_view();
    assert!(v.build_block(0, 24, 0, 69).is_ok());
}

#[test]
fn build_block_rejects_out_of_range_right() {
    let mut v = empty_view();
    let before = v.points.clone();
    let r = v.build_block(0, 24, 0, 70);
    assert_eq!(r, Err(GeometryError::RightOutOfRange));
    assert_eq!(v.points, before);
}

#[test]
fn build_block_rejects_degenerate_rows() {
    let mut v = empty_view();
    let before = v.points.clone();
    let before_views = v.views.clone();
    let r = v.build_block(4, 4, 0, 10);
    assert_eq!(r, Err(GeometryError::TopNotAboveBottom));
    assert_eq!(v.points, before);
    assert_eq!(v.views, before_views);
}

#[test]
fn build_block_rejects_degenerate_columns() {
    let mut v = empty_view();
    let before = v.points.clone();
    let r = v.build_block(0, 10, 7, 7);
    assert_eq!(r, Err(GeometryError::LeftNotBeforeRight));
    assert_eq!(v.points, before);
}

#[test]
fn build_block_rejects_bottom_out_of_range() {
    let mut v = empty_view();
    let before = v.points.clone();
    let r = v.build_block(0, 25, 0, 10);
    assert_eq!(r, Err(GeometryError::BottomOutOfRange));
    assert_eq!(v.points, before);
}

#[test]
fn build_block_sets_edges_and_corners() {
    let mut v = empty_view();
    v.build_block(2, 5, 3, 8).unwrap();
    // corners: distinct junction bit patterns
    assert_eq!(v.points[2][3], 6);
    assert_eq!(v.points[2][8], 10);
    assert_eq!(v.points[5][3], 5);
    assert_eq!(v.points[5][8], 9);
    // interior edges: vertical walls carry 3, horizontal walls carry 12
    for y in 3..5 {
        assert_eq!(v.points[y][3], 3);
        assert_eq!(v.points[y][8], 3);
    }
    for x in 4..8 {
        assert_eq!(v.points[2][x], 12);
        assert_eq!(v.points[5][x], 12);
    }
    // a cell off the border stays empty
    assert_eq!(v.points[3][4], 0);
    assert_eq!(v.views[3][4], ' ');
}

#[test]
fn build_block_order_independent() {
    let mut a = empty_view();
    a.build_block(0, 6, 0, 6).unwrap();
    a.build_block(3, 9, 3, 9).unwrap();
    let mut b = empty_view();
    b.build_block(3, 9, 3, 9).unwrap();
    b.build_block(0, 6, 0, 6).unwrap();
    assert_eq!(a.points, b.points);
    assert_eq!(a.views, b.views);
}

#[test]
fn overlapping_corners_form_junctions() {
    let mut v = empty_view();
    v.build_block(0, 2, 0, 2).unwrap();
    v.build_block(2, 4, 2, 4).unwrap();
    // the shared corner accumulates 9 | 6 == 15, the full cross
    assert_eq!(v.points[2][2], 15);
    assert_eq!(v.views[2][2], '╬');
}

#[test]
fn glyph_lookup_covers_all_sixteen_masks() {
    let expected = [
        ' ', '上', '下', '║', '左', '╚', '╔', '╠', '右', '╝', '╗', '╣', '═', '╩', '╦', '╬',
    ];
    let mut v = empty_view();
    for (m, _) in expected.iter().enumerate() {
        v.points[0][m] = m;
    }
    let chars = v.update_block_char();
    for (m, want) in expected.iter().enumerate() {
        assert_eq!(chars[0][m], *want);
    }
}

#[test]
fn write_words_places_text() {
    let mut v = empty_view();
    whackamole::view::write_words(&mut v.views, 10, 4, String::from("hello"));
    assert_eq!(v.views[4][10], 'h');
    assert_eq!(v.views[4][14], 'o');
    assert_eq!(v.views[4][9], ' ');
    assert_eq!(v.views[4][15], ' ');
    assert_eq!(v.views[3][10], ' ');
}

#[test]
fn marmot_new_is_hidden() {
    let m = Marmot::new();
    assert!(!m.appeared);
    assert_eq!(m.view, "🐭");
}

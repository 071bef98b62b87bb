use osm_bpf_to_svg::node_index::NodeIndex;
use osm_bpf_to_svg::select_box::SelectBox;

#[test]
fn empty_index_contains_nothing() {
    let ni = NodeIndex::new();
    assert!(!ni.contains_key(0));
    assert!(!ni.contains_key(42));
}

#[test]
fn one_index_contains_its_point() {
    let ni = NodeIndex::one(7, 500, 500);
    assert!(ni.contains_key(7));
    assert!(!ni.contains_key(8));
    assert_eq!(ni.coord_or_default(7), (500, 500));
}

#[test]
fn missing_reference_defaults_to_origin() {
    let ni = NodeIndex::one(7, 500, 500);
    assert_eq!(ni.coord_or_default(99), (0, 0));
}

#[test]
fn combine_is_keywise_union() {
    let a = NodeIndex::one(1, 10, 20);
    let b = NodeIndex::one(2, 30, 40);
    let c = a.combine(b);
    assert_eq!(c.coord_or_default(1), (10, 20));
    assert_eq!(c.coord_or_default(2), (30, 40));
}

#[test]
fn combine_last_wins_on_duplicates() {
    let a = NodeIndex::one(1, 10, 20);
    let b = NodeIndex::one(1, 30, 40);
    let c = a.combine(b);
    assert_eq!(c.coord_or_default(1), (30, 40));
}

#[test]
fn combine_merge_order_does_not_matter_for_disjoint_parts() {
    // the same three points, partitioned and merged two different ways
    let left = NodeIndex::one(1, 10, 20).combine(NodeIndex::one(2, 30, 40)).combine(
        NodeIndex::one(3, 50, 60),
    );
    let right = NodeIndex::one(3, 50, 60).combine(
        NodeIndex::one(1, 10, 20).combine(NodeIndex::one(2, 30, 40)),
    );
    for id in [1i64, 2, 3] {
        assert_eq!(left.coord_or_default(id), right.coord_or_default(id));
        assert!(left.contains_key(id));
        assert!(right.contains_key(id));
    }
    assert!(!left.contains_key(4));
    assert!(!right.contains_key(4));
}

#[test]
fn filter_keeps_strict_interior_only() {
    let sb = SelectBox::new(0, 0, 1000, 1000);
    let ni = NodeIndex::one(1, 500, 500)
        .combine(NodeIndex::one(2, 0, 500))
        .combine(NodeIndex::one(3, 1000, 500))
        .combine(NodeIndex::one(4, 500, 0))
        .combine(NodeIndex::one(5, 500, 1000))
        .combine(NodeIndex::one(6, 1, 999));
    let f = ni.filter(&sb);
    assert!(f.contains_key(1));
    assert!(!f.contains_key(2));
    assert!(!f.contains_key(3));
    assert!(!f.contains_key(4));
    assert!(!f.contains_key(5));
    assert!(f.contains_key(6));
    // the receiver is unchanged
    assert!(ni.contains_key(3));
}

#[test]
fn svg_path_d_moves_then_lines() {
    let ni = NodeIndex::one(1, 500, 500).combine(NodeIndex::one(2, 600, 700));
    let refs: Vec<i64> = vec![1, 2];
    assert_eq!(ni.svg_path_d(&refs), "M 500 -500 L 600 -700 ");
}

#[test]
fn svg_path_d_substitutes_default_for_missing() {
    let ni = NodeIndex::one(1, 500, 500);
    let refs: Vec<i64> = vec![1, 99];
    assert_eq!(ni.svg_path_d(&refs), "M 500 -500 L 0 -0 ");
}

#[test]
fn svg_path_d_empty_chain_is_empty() {
    let ni = NodeIndex::new();
    let refs: Vec<i64> = vec![];
    assert_eq!(ni.svg_path_d(&refs), "");
}

#[test]
fn select_box_boundary_is_outside() {
    let sb = SelectBox::new(0, 0, 1000, 1000);
    // exactly on each edge: excluded
    assert!(!sb.is_inside(0, 500));
    assert!(!sb.is_inside(1000, 500));
    assert!(!sb.is_inside(500, 0));
    assert!(!sb.is_inside(500, 1000));
    // corners: excluded
    assert!(!sb.is_inside(0, 0));
    assert!(!sb.is_inside(1000, 1000));
    // one unit inside each edge: included
    assert!(sb.is_inside(1, 500));
    assert!(sb.is_inside(999, 500));
    assert!(sb.is_inside(500, 1));
    assert!(sb.is_inside(500, 999));
}

#[test]
fn select_box_getters() {
    let sb = SelectBox::new(170000, 440000, 1000, 2000);
    assert_eq!(sb.x_min(), 170000);
    assert_eq!(sb.y_min(), 440000);
    assert_eq!(sb.x_max(), 171000);
    assert_eq!(sb.y_max(), 442000);
    assert_eq!(sb.w(), 1000);
    assert_eq!(sb.h(), 2000);
}

#[test]
fn select_box_zero_size_has_no_interior() {
    let sb = SelectBox::new(10, 10, 0, 0);
    assert!(!sb.is_inside(10, 10));
    assert!(!sb.is_inside(11, 11));
}

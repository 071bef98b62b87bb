use osm_bpf_to_svg::svg::Svg;

#[test]
fn empty_accumulator_renders_nothing() {
    let svg = Svg::new();
    assert_eq!(svg.render_lines(), "");
    assert_eq!(svg.priorities(), Vec::<u32>::new());
}

#[test]
fn one_renders_single_line() {
    let svg = Svg::one(20, String::from("<path />"));
    assert_eq!(svg.render_lines(), "<path />\n");
    assert_eq!(svg.priorities(), vec![20]);
}

#[test]
fn serialization_orders_priorities_ascending() {
    // populated at priorities {5, 100, 11}: emitted as 5, 11, 100
    let mut svg = Svg::new();
    svg.append_line(5, String::from("five"));
    svg.append_line(100, String::from("hundred"));
    svg.append_line(11, String::from("eleven"));
    assert_eq!(svg.priorities(), vec![5, 11, 100]);
    assert_eq!(svg.render_lines(), "five\neleven\nhundred\n");
}

#[test]
fn bucket_keeps_insertion_order() {
    let mut svg = Svg::new();
    svg.append_line(5, String::from("first"));
    svg.append_line(100, String::from("third"));
    svg.append_line(5, String::from("second"));
    assert_eq!(svg.priorities(), vec![5, 100]);
    assert_eq!(svg.render_lines(), "first\nsecond\nthird\n");
}

#[test]
fn combine_groups_by_priority() {
    let mut a = Svg::new();
    a.append_line(5, String::from("a5"));
    a.append_line(11, String::from("a11"));
    let mut b = Svg::new();
    b.append_line(11, String::from("b11"));
    b.append_line(3, String::from("b3"));
    let c = a.combine(b);
    assert_eq!(c.priorities(), vec![3, 5, 11]);
    // within the shared bucket, the receiver's lines come first
    assert_eq!(c.render_lines(), "b3\na5\na11\nb11\n");
}

#[test]
fn combine_with_empty_changes_nothing() {
    let mut a = Svg::new();
    a.append_line(7, String::from("x"));
    let c = a.combine(Svg::new());
    assert_eq!(c.render_lines(), "x\n");
    let d = Svg::new().combine(c);
    assert_eq!(d.render_lines(), "x\n");
}

#[test]
fn combine_association_gives_same_grouping() {
    let mk = |p: u32, s: &str| Svg::one(p, String::from(s));
    let left = mk(5, "a").combine(mk(2, "b")).combine(mk(5, "c"));
    let right = mk(5, "a").combine(mk(2, "b").combine(mk(5, "c")));
    assert_eq!(left.render_lines(), right.render_lines());
    assert_eq!(left.render_lines(), "b\na\nc\n");
}

use osm_bpf_to_svg::node_index::NodeIndex;
use osm_bpf_to_svg::render::{append_grid, document, escape_amp, render_way, tags_description};
use osm_bpf_to_svg::select_box::SelectBox;
use osm_bpf_to_svg::style::Style;
use osm_bpf_to_svg::svg::Svg;

fn tags(pairs: &[(&str, &str)]) -> Vec<(String, String)> {
    pairs.iter().map(|(k, v)| (String::from(*k), String::from(*v))).collect()
}

#[test]
fn escape_replaces_ampersand() {
    assert_eq!(escape_amp("A & B"), "A &amp; B");
    assert_eq!(escape_amp("&&"), "&amp;&amp;");
    assert_eq!(escape_amp("no change"), "no change");
    assert_eq!(escape_amp(""), "");
}

#[test]
fn description_concatenates_and_escapes() {
    let t = tags(&[("building", "house"), ("name", "H & M")]);
    assert_eq!(tags_description(&t), "building:house; name:H &amp; M; ");
}

#[test]
fn way_with_no_vertex_inside_emits_nothing() {
    let full = NodeIndex::one(1, 500, 500);
    let selected = NodeIndex::new();
    let style = Style::new();
    let refs: Vec<i64> = vec![1];
    let t = tags(&[("building", "house")]);
    let svg = render_way(&full, &selected, &style, 7, &refs, &t);
    assert_eq!(svg.render_lines(), "");
}

#[test]
fn way_with_one_vertex_inside_uses_entire_chain() {
    // vertex 2 lies outside the region but still appears in the path
    let full = NodeIndex::one(1, 500, 500).combine(NodeIndex::one(2, 5000, 7000));
    let sb = SelectBox::new(0, 0, 1000, 1000);
    let selected = full.filter(&sb);
    assert!(selected.contains_key(1));
    assert!(!selected.contains_key(2));
    let style = Style::new();
    let refs: Vec<i64> = vec![1, 2];
    let t = tags(&[("building", "house")]);
    let svg = render_way(&full, &selected, &style, 7, &refs, &t);
    assert_eq!(
        svg.render_lines(),
        "<path d=\"M 500 -500 L 5000 -7000 \" id=\"7\" style=\"stroke:blue; fill:purple\"><desc>building:house; </desc></path>\n"
    );
}

#[test]
fn way_with_no_resolving_tags_emits_nothing() {
    let full = NodeIndex::one(1, 500, 500);
    let selected = full.filter(&SelectBox::new(0, 0, 1000, 1000));
    let style = Style::new();
    let refs: Vec<i64> = vec![1];
    let t = tags(&[("name", "somewhere")]);
    let svg = render_way(&full, &selected, &style, 7, &refs, &t);
    assert_eq!(svg.render_lines(), "");
}

#[test]
fn last_resolving_tag_pair_wins() {
    let full = NodeIndex::one(1, 500, 500);
    let selected = full.filter(&SelectBox::new(0, 0, 1000, 1000));
    let style = Style::new();
    let refs: Vec<i64> = vec![1];
    let t = tags(&[("building", "house"), ("highway", "path")]);
    let svg = render_way(&full, &selected, &style, 7, &refs, &t);
    // one primitive, styled by the later pair, described by all pairs
    assert_eq!(svg.priorities(), vec![100]);
    assert_eq!(
        svg.render_lines(),
        "<path d=\"M 500 -500 \" id=\"7\" style=\"stroke:#002a5a;fill:none\"><desc>building:house; highway:path; </desc></path>\n"
    );
}

#[test]
fn grid_lines_span_the_box_at_high_priority() {
    let mut svg = Svg::new();
    let sb = SelectBox::new(0, 0, 2000, 1000);
    append_grid(&mut svg, &sb);
    assert_eq!(svg.priorities(), vec![1000]);
    assert_eq!(
        svg.render_lines(),
        "<line x1=\"0\" y1=\"-0\" x2=\"0\" y2=\"-1000\" stroke=\"black\" />\n\
         <line x1=\"1000\" y1=\"-0\" x2=\"1000\" y2=\"-1000\" stroke=\"black\" />\n\
         <line x1=\"0\" y1=\"-0\" x2=\"2000\" y2=\"-0\" stroke=\"black\" />\n"
    );
}

#[test]
fn grid_of_empty_box_is_empty() {
    let mut svg = Svg::new();
    let sb = SelectBox::new(100, 100, 0, 0);
    append_grid(&mut svg, &sb);
    assert_eq!(svg.render_lines(), "");
}

#[test]
fn document_carries_box_dimensions_and_offset_view() {
    let sb = SelectBox::new(0, 0, 1000, 1000);
    let svg = Svg::new();
    let out = document(&sb, &svg);
    assert_eq!(
        out,
        "<svg\n  width=\"1000\" \n  height=\"1000\" \n  viewBox=\"0 -1000 1000 1000\" \n  xmlns=\"http://www.w3.org/2000/svg\" \n  xmlns:xlink=\"http://www.w3.org/1999/xlink\" \n>\n \n</svg>\n"
    );
}

#[test]
fn one_point_one_way_end_to_end() {
    // one point entity (id 1, projecting to (500, 500)), one line entity
    // (id 7, vertex chain [1], building:house), region 1000 by 1000 at the
    // origin
    let full = NodeIndex::one(1, 500, 500);
    let sb = SelectBox::new(0, 0, 1000, 1000);
    let selected = full.filter(&sb);
    let style = Style::new();
    let refs: Vec<i64> = vec![1];
    let t = tags(&[("building", "house")]);
    let mut svg = render_way(&full, &selected, &style, 7, &refs, &t);
    assert_eq!(svg.priorities(), vec![20]);
    let body = svg.render_lines();
    assert_eq!(body.matches("<path").count(), 1);
    assert!(body.contains("d=\"M 500 -500 \""));
    assert!(body.contains("building:house;"));
    append_grid(&mut svg, &sb);
    let out = document(&sb, &svg);
    assert!(out.starts_with(
        "<svg\n  width=\"1000\" \n  height=\"1000\" \n  viewBox=\"0 -1000 1000 1000\" \n"
    ));
    assert!(out.contains(
        "<path d=\"M 500 -500 \" id=\"7\" style=\"stroke:blue; fill:purple\"><desc>building:house; </desc></path>\n"
    ));
    // the path paints before the grid overlay
    let path_at = out.find("<path").unwrap();
    let grid_at = out.find("<line").unwrap();
    assert!(path_at < grid_at);
    assert!(out.ends_with(" \n</svg>\n"));
}

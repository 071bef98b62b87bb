use osm_bpf_to_svg::style::Style;

#[test]
fn listed_value_resolves_to_its_pair() {
    let style = Style::new();
    assert_eq!(
        style.get("building", "house"),
        Some((20, String::from("stroke:blue; fill:purple")))
    );
    assert_eq!(
        style.get("highway", "motorway"),
        Some((100, String::from("stroke-width:9;stroke:red;fill:none")))
    );
    assert_eq!(
        style.get("amenity", "parking"),
        Some((9, String::from("stroke:LightSkyBlue; fill:url(#parking)")))
    );
}

#[test]
fn unlisted_value_under_listed_key_falls_back() {
    // "driveway" is not listed under "highway": the key's fallback pair
    let style = Style::new();
    assert_eq!(
        style.get("highway", "driveway"),
        Some((11, String::from("stroke:#030038;fill:none")))
    );
}

#[test]
fn each_key_has_its_own_fallback() {
    let style = Style::new();
    assert_eq!(
        style.get("building", "castle"),
        Some((21, String::from("stroke:blue; fill:#ffd020")))
    );
    assert_eq!(
        style.get("landuse", "quarry"),
        Some((2, String::from("stroke:#009e07; fill:#007f5f")))
    );
    assert_eq!(
        style.get("amenity", "fountain"),
        Some((9, String::from("stroke:LightSkyBlue; fill:LightSkyBlue")))
    );
}

#[test]
fn unlisted_key_resolves_to_none() {
    let style = Style::new();
    assert_eq!(style.get("name", "Main Street"), None);
    assert_eq!(style.get("", ""), None);
    // values of other keys are not keys
    assert_eq!(style.get("house", "building"), None);
}

#[test]
fn landuse_priorities_paint_under_roads() {
    let style = Style::new();
    let (landuse_prio, _) = style.get("landuse", "forest").unwrap();
    let (road_prio, _) = style.get("highway", "residential").unwrap();
    assert!(landuse_prio < road_prio);
    assert_eq!(landuse_prio, 5);
    assert_eq!(road_prio, 100);
}

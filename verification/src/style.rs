//! The style table: a fixed mapping from a tag key/value pair to a paint
//! priority and a style string, with a per-key fallback for unlisted
//! values.

use vstd::prelude::*;
use vstd::string::StringExecFns;

verus! {

/// One key's styling: the key, its listed values with their priority and
/// style, and the fallback priority and style for unlisted values.
pub type StyleEntry = (String, Vec<(String, u32, String)>, u32, String);

/// The view of one key's styling.
pub type StyleEntryV = (Seq<char>, Seq<(Seq<char>, u32, Seq<char>)>, u32, Seq<char>);

/// The style table.
pub struct Style {
    pub table: Vec<StyleEntry>,
}

impl View for Style {
    type V = Seq<StyleEntryV>;

    open spec fn view(&self) -> Seq<StyleEntryV> {
        self.table.deep_view()
    }
}

/// The first entry for a key, if the key is listed.
pub open spec fn spec_lookup_key(t: Seq<StyleEntryV>, key: Seq<char>) -> Option<StyleEntryV>
    decreases t.len(),
{
    if t.len() == 0 {
        None
    } else if t[0].0 == key {
        Some(t[0])
    } else {
        spec_lookup_key(t.skip(1), key)
    }
}

/// The first priority/style pair for a value, if the value is listed.
pub open spec fn spec_lookup_value(
    vs: Seq<(Seq<char>, u32, Seq<char>)>,
    value: Seq<char>,
) -> Option<(u32, Seq<char>)>
    decreases vs.len(),
{
    if vs.len() == 0 {
        None
    } else if vs[0].0 == value {
        Some((vs[0].1, vs[0].2))
    } else {
        spec_lookup_value(vs.skip(1), value)
    }
}

/// Resolution of a tag pair: nothing for an unlisted key, the listed pair
/// for a listed value, and the key's fallback for an unlisted value under a
/// listed key.
pub open spec fn spec_get(
    t: Seq<StyleEntryV>,
    key: Seq<char>,
    value: Seq<char>,
) -> Option<(u32, Seq<char>)> {
    match spec_lookup_key(t, key) {
        None => None,
        Some(e) => match spec_lookup_value(e.1, value) {
            Some(ps) => Some(ps),
            None => Some((e.2, e.3)),
        },
    }
}

fn vs(value: &str, prio: u32, line: &str) -> (r: (String, u32, String))
    ensures
        r.deep_view() == (value@, prio, line@),
{
    (String::from_str(value), prio, String::from_str(line))
}

/// The road and path styles.
pub open spec fn spec_entry_highway() -> StyleEntryV {
    ("highway"@, seq![
        ("path"@, 100u32, "stroke:#002a5a;fill:none"@),
        ("residential"@, 100u32, "stroke-width:3;stroke:black;fill:none"@),
        ("primary"@, 100u32, "stroke-width:6;stroke:black;fill:none"@),
        ("secondary"@, 100u32, "stroke-width:4.5;stroke:black;fill:none"@),
        ("tertiary"@, 100u32, "stroke-width:3;stroke:black;fill:none"@),
        ("motorway"@, 100u32, "stroke-width:9;stroke:red;fill:none"@),
        ("motorway_link"@, 100u32, "stroke-width:4.5;stroke:red;fill:none"@),
        ("footway"@, 100u32, "stroke:#002a5a;fill:none"@),
        ("track"@, 100u32, "stroke:#002a5a;fill:none"@),
        ("service"@, 100u32, "stroke:#002a5a;fill:none"@),
        ("cycleway"@, 100u32, "stroke:#002a5a;fill:none"@),
        ("unclassified"@, 100u32, "stroke:#002a5a;fill:none"@),
    ], 11u32, "stroke:#030038;fill:none"@)
}

/// The building styles.
pub open spec fn spec_entry_building() -> StyleEntryV {
    ("building"@, seq![
        ("house"@, 20u32, "stroke:blue; fill:purple"@),
        ("yes"@, 20u32, "stroke:blue; fill:#ffd62e"@),
        ("shed"@, 20u32, "stroke:blue; fill:#ffd62e"@),
        ("apartments"@, 20u32, "stroke:blue; fill:#ffd62e"@),
        ("church"@, 20u32, "stroke:blue; fill:#fb6bff"@),
        ("school"@, 20u32, "stroke:blue; fill:#fb6bff"@),
        ("commercial"@, 20u32, "stroke:blue; fill:purple"@),
        ("retail"@, 20u32, "stroke:blue; fill:purple"@),
        ("construction"@, 20u32, "stroke:blue; fill:none"@),
    ], 21u32, "stroke:blue; fill:#ffd020"@)
}

/// The land-use styles.
pub open spec fn spec_entry_landuse() -> StyleEntryV {
    ("landuse"@, seq![
        ("forest"@, 5u32, "stroke:#009e07; fill:#169400"@),
        ("grass"@, 5u32, "stroke:#009e07; fill:#6bff88"@),
        ("residential"@, 5u32, "stroke:#009e07; fill:#e2ff16"@),
        ("education"@, 5u32, "stroke:#009e07; fill:#007f5f"@),
        ("farmland"@, 5u32, "stroke:#009e07; fill:#CD853F"@),
    ], 2u32, "stroke:#009e07; fill:#007f5f"@)
}

/// The natural-feature styles.
pub open spec fn spec_entry_natural() -> StyleEntryV {
    ("natural"@, seq![
        ("shrubbery"@, 50u32, "stroke:none; fill:green"@),
        ("tree_row"@, 50u32, "stroke:green; fill:none"@),
        ("water"@, 50u32, "stroke:Aqua; fill:RoyalBlue"@),
    ], 50u32, "stroke:#009e07; fill:#007f5f"@)
}

/// The barrier styles.
pub open spec fn spec_entry_barrier() -> StyleEntryV {
    ("barrier"@, seq![
        ("fence"@, 50u32, "stroke:red; fill:none"@),
        ("wall"@, 50u32, "stroke:darkkhaki; fill:none"@),
        ("hedge"@, 50u32, "stroke:green; fill:none"@),
    ], 20u32, "stroke:red; fill:none"@)
}

/// The leisure-facility styles.
pub open spec fn spec_entry_leisure() -> StyleEntryV {
    ("leisure"@, seq![
        ("playground"@, 50u32, "stroke:palegoldenrod; fill:palegoldenrod"@),
        ("dog_park"@, 50u32, "stroke:brown; fill:yellowgreen"@),
        ("garden"@, 50u32, "stroke:greenyellow; fill:greenyellow"@),
        ("pitch"@, 50u32, "stroke:chocolate; fill:chocolate"@),
        ("swimming_pool"@, 50u32, "stroke:blue; fill:dodgerblue"@),
    ], 20u32, "stroke:brown; fill:none"@)
}

/// The rail-infrastructure styles.
pub open spec fn spec_entry_railway() -> StyleEntryV {
    ("railway"@, seq![
        (
            "narrow_gauge"@,
            50u32,
            "stroke:black;fill:none;stroke-width:2;stroke-miterlimit:4;stroke-dasharray:20, 20;stroke-dashoffset:0"@,
        ),
        (
            "rail"@,
            50u32,
            "stroke:black;fill:none;stroke-width:4;stroke-miterlimit:4;stroke-dasharray:10, 10;stroke-dashoffset:0"@,
        ),
        ("platform"@, 50u32, "stroke:Gray; fill:DarkGray"@),
    ], 20u32, "stroke:brown; fill:none"@)
}

/// The parking-amenity styles.
pub open spec fn spec_entry_amenity() -> StyleEntryV {
    ("amenity"@, seq![("parking"@, 9u32, "stroke:LightSkyBlue; fill:url(#parking)"@)], 9u32, "stroke:LightSkyBlue; fill:LightSkyBlue"@)
}

/// The whole built-in style table: road and path types, building types,
/// land-use types, natural features, barriers, leisure facilities, rail
/// infrastructure, and parking amenities.
pub open spec fn spec_default_table() -> Seq<StyleEntryV> {
    seq![
        spec_entry_highway(),
        spec_entry_building(),
        spec_entry_landuse(),
        spec_entry_natural(),
        spec_entry_barrier(),
        spec_entry_leisure(),
        spec_entry_railway(),
        spec_entry_amenity(),
    ]
}

fn entry_highway() -> (r: StyleEntry)
    ensures
        r.deep_view() == spec_entry_highway(),
{
    let mut v: Vec<(String, u32, String)> = Vec::new();
    v.push(vs("path", 100, "stroke:#002a5a;fill:none"));
    v.push(vs("residential", 100, "stroke-width:3;stroke:black;fill:none"));
    v.push(vs("primary", 100, "stroke-width:6;stroke:black;fill:none"));
    v.push(vs("secondary", 100, "stroke-width:4.5;stroke:black;fill:none"));
    v.push(vs("tertiary", 100, "stroke-width:3;stroke:black;fill:none"));
    v.push(vs("motorway", 100, "stroke-width:9;stroke:red;fill:none"));
    v.push(vs("motorway_link", 100, "stroke-width:4.5;stroke:red;fill:none"));
    v.push(vs("footway", 100, "stroke:#002a5a;fill:none"));
    v.push(vs("track", 100, "stroke:#002a5a;fill:none"));
    v.push(vs("service", 100, "stroke:#002a5a;fill:none"));
    v.push(vs("cycleway", 100, "stroke:#002a5a;fill:none"));
    v.push(vs("unclassified", 100, "stroke:#002a5a;fill:none"));
    proof {
        assert(v.deep_view() =~= spec_entry_highway().1);
    }
    (String::from_str("highway"), v, 11, String::from_str("stroke:#030038;fill:none"))
}

fn entry_building() -> (r: StyleEntry)
    ensures
        r.deep_view() == spec_entry_building(),
{
    let mut v: Vec<(String, u32, String)> = Vec::new();
    v.push(vs("house", 20, "stroke:blue; fill:purple"));
    v.push(vs("yes", 20, "stroke:blue; fill:#ffd62e"));
    v.push(vs("shed", 20, "stroke:blue; fill:#ffd62e"));
    v.push(vs("apartments", 20, "stroke:blue; fill:#ffd62e"));
    v.push(vs("church", 20, "stroke:blue; fill:#fb6bff"));
    v.push(vs("school", 20, "stroke:blue; fill:#fb6bff"));
    v.push(vs("commercial", 20, "stroke:blue; fill:purple"));
    v.push(vs("retail", 20, "stroke:blue; fill:purple"));
    v.push(vs("construction", 20, "stroke:blue; fill:none"));
    proof {
        assert(v.deep_view() =~= spec_entry_building().1);
    }
    (String::from_str("building"), v, 21, String::from_str("stroke:blue; fill:#ffd020"))
}

fn entry_landuse() -> (r: StyleEntry)
    ensures
        r.deep_view() == spec_entry_landuse(),
{
    let mut v: Vec<(String, u32, String)> = Vec::new();
    v.push(vs("forest", 5, "stroke:#009e07; fill:#169400"));
    v.push(vs("grass", 5, "stroke:#009e07; fill:#6bff88"));
    v.push(vs("residential", 5, "stroke:#009e07; fill:#e2ff16"));
    v.push(vs("education", 5, "stroke:#009e07; fill:#007f5f"));
    v.push(vs("farmland", 5, "stroke:#009e07; fill:#CD853F"));
    proof {
        assert(v.deep_view() =~= spec_entry_landuse().1);
    }
    (String::from_str("landuse"), v, 2, String::from_str("stroke:#009e07; fill:#007f5f"))
}

fn entry_natural() -> (r: StyleEntry)
    ensures
        r.deep_view() == spec_entry_natural(),
{
    let mut v: Vec<(String, u32, String)> = Vec::new();
    v.push(vs("shrubbery", 50, "stroke:none; fill:green"));
    v.push(vs("tree_row", 50, "stroke:green; fill:none"));
    v.push(vs("water", 50, "stroke:Aqua; fill:RoyalBlue"));
    proof {
        assert(v.deep_view() =~= spec_entry_natural().1);
    }
    (String::from_str("natural"), v, 50, String::from_str("stroke:#009e07; fill:#007f5f"))
}

fn entry_barrier() -> (r: StyleEntry)
    ensures
        r.deep_view() == spec_entry_barrier(),
{
    let mut v: Vec<(String, u32, String)> = Vec::new();
    v.push(vs("fence", 50, "stroke:red; fill:none"));
    v.push(vs("wall", 50, "stroke:darkkhaki; fill:none"));
    v.push(vs("hedge", 50, "stroke:green; fill:none"));
    proof {
        assert(v.deep_view() =~= spec_entry_barrier().1);
    }
    (String::from_str("barrier"), v, 20, String::from_str("stroke:red; fill:none"))
}

fn entry_leisure() -> (r: StyleEntry)
    ensures
        r.deep_view() == spec_entry_leisure(),
{
    let mut v: Vec<(String, u32, String)> = Vec::new();
    v.push(vs("playground", 50, "stroke:palegoldenrod; fill:palegoldenrod"));
    v.push(vs("dog_park", 50, "stroke:brown; fill:yellowgreen"));
    v.push(vs("garden", 50, "stroke:greenyellow; fill:greenyellow"));
    v.push(vs("pitch", 50, "stroke:chocolate; fill:chocolate"));
    v.push(vs("swimming_pool", 50, "stroke:blue; fill:dodgerblue"));
    proof {
        assert(v.deep_view() =~= spec_entry_leisure().1);
    }
    (String::from_str("leisure"), v, 20, String::from_str("stroke:brown; fill:none"))
}

fn entry_railway() -> (r: StyleEntry)
    ensures
        r.deep_view() == spec_entry_railway(),
{
    let mut v: Vec<(String, u32, String)> = Vec::new();
    v.push(
        vs(
            "narrow_gauge",
            50,
            "stroke:black;fill:none;stroke-width:2;stroke-miterlimit:4;stroke-dasharray:20, 20;stroke-dashoffset:0",
        ),
    );
    v.push(
        vs(
            "rail",
            50,
            "stroke:black;fill:none;stroke-width:4;stroke-miterlimit:4;stroke-dasharray:10, 10;stroke-dashoffset:0",
        ),
    );
    v.push(vs("platform", 50, "stroke:Gray; fill:DarkGray"));
    proof {
        assert(v.deep_view() =~= spec_entry_railway().1);
    }
    (String::from_str("railway"), v, 20, String::from_str("stroke:brown; fill:none"))
}

fn entry_amenity() -> (r: StyleEntry)
    ensures
        r.deep_view() == spec_entry_amenity(),
{
    let mut v: Vec<(String, u32, String)> = Vec::new();
    v.push(vs("parking", 9, "stroke:LightSkyBlue; fill:url(#parking)"));
    proof {
        assert(v.deep_view() =~= spec_entry_amenity().1);
    }
    (String::from_str("amenity"), v, 9, String::from_str("stroke:LightSkyBlue; fill:LightSkyBlue"))
}

impl Style {
    /// Builds the fixed, hand-authored style table.
    pub fn new() -> (r: Style)
        ensures
            r@ == spec_default_table(),
    {
        let mut table: Vec<StyleEntry> = Vec::new();
        table.push(entry_highway());
        table.push(entry_building());
        table.push(entry_landuse());
        table.push(entry_natural());
        table.push(entry_barrier());
        table.push(entry_leisure());
        table.push(entry_railway());
        table.push(entry_amenity());
        let r = Style { table };
        proof {
            assert(r@ =~= spec_default_table());
        }
        r
    }

    /// Looks a tag pair up: `None` for an unlisted key; the listed
    /// priority/style pair for a listed value; the key's fallback pair for
    /// an unlisted value under a listed key.
    pub fn get(&self, key: &str, value: &str) -> (r: Option<(u32, String)>)
        ensures
            match r {
                None => spec_get(self@, key@, value@) is None,
                Some(ps) => spec_get(self@, key@, value@) == Some((ps.0, ps.1@)),
            },
    {
        let key_s = String::from_str(key);
        let value_s = String::from_str(value);
        let n = self.table.len();
        proof {
            assert(self@.skip(0) =~= self@);
        }
        let mut i: usize = 0;
        while i < n
            invariant
                i <= n,
                n == self.table.len(),
                key_s@ == key@,
                value_s@ == value@,
                spec_lookup_key(self@, key@) == spec_lookup_key(self@.skip(i as int), key@),
            decreases n - i,
        {
            proof {
                assert(self@.skip(i as int)[0] == self@[i as int]);
                assert(self@[i as int].0 == self.table@[i as int].0@);
            }
            if self.table[i].0 == key_s {
                proof {
                    assert(spec_lookup_key(self@, key@) == Some(self@[i as int]));
                }
                let vals = &self.table[i].1;
                let m = vals.len();
                proof {
                    assert(self@[i as int].1.skip(0) =~= self@[i as int].1);
                }
                let mut j: usize = 0;
                while j < m
                    invariant
                        j <= m,
                        i < n,
                        n == self.table.len(),
                        m == self.table@[i as int].1@.len(),
                        value_s@ == value@,
                        spec_lookup_key(self@, key@) == Some(self@[i as int]),
                        spec_lookup_value(self@[i as int].1, value@) == spec_lookup_value(
                            self@[i as int].1.skip(j as int),
                            value@,
                        ),
                    decreases m - j,
                {
                    proof {
                        assert(self@[i as int].1[j as int] == self.table@[i as int].1@[
                            j as int
                        ].deep_view());
                        assert(self@[i as int].1.skip(j as int)[0] == self@[i as int].1[j as int]);
                    }
                    if self.table[i].1[j].0 == value_s {
                        let p = self.table[i].1[j].1;
                        let line = self.table[i].1[j].2.clone();
                        return Some((p, line));
                    }
                    proof {
                        assert(self@[i as int].1.skip(j as int).skip(1) =~= self@[i as int].1.skip(
                            j + 1,
                        ));
                    }
                    j += 1;
                }
                let dp = self.table[i].2;
                let dl = self.table[i].3.clone();
                proof {
                    assert(self@[i as int].2 == self.table@[i as int].2);
                    assert(self@[i as int].3 == self.table@[i as int].3@);
                }
                return Some((dp, dl));
            }
            proof {
                assert(self@.skip(i as int).skip(1) =~= self@.skip(i + 1));
            }
            i += 1;
        }
        proof {
            assert(self@.skip(n as int) =~= Seq::<StyleEntryV>::empty());
        }
        None
    }
}

} // verus!

//! The rendering pipeline's pure parts: escaping, tag descriptions, the
//! per-entity rendering decision, the grid overlay, and the final document.

use vstd::prelude::*;
use vstd::map::*;
use vstd::string::StringExecFns;
use vstd::string::StrSliceExecFns;
use crate::numfmt::{dec_digits, dec_int, i64_to_dec, u32_to_dec, u64_to_dec};
use crate::node_index::{NodeIndex, spec_path_d};
use crate::select_box::SelectBox;
use crate::style::{spec_get, Style, StyleEntryV};
use crate::svg::{
    bucket_map, lemma_bucket_map_singleton, spec_append_bucket, spec_render, sorted_by_prio, Svg,
};

verus! {

/// The escaping of one character: `&` becomes `&amp;`, all else stays.
pub open spec fn spec_escape_char(c: char) -> Seq<char> {
    if c == '&' {
        "&amp;"@
    } else {
        seq![c]
    }
}

/// The escaping of a string, character by character.
pub open spec fn spec_escape(s: Seq<char>) -> Seq<char>
    decreases s.len(),
{
    if s.len() == 0 {
        Seq::empty()
    } else {
        spec_escape(s.drop_last()) + spec_escape_char(s.last())
    }
}

/// Replaces every `&` with `&amp;`, leaving all other characters as they
/// are.
pub fn escape_amp(s: &str) -> (r: String)
    ensures
        r@ == spec_escape(s@),
{
    let mut r = String::new();
    let n = s.unicode_len();
    proof {
        assert(s@.take(0) =~= Seq::<char>::empty());
    }
    let mut i: usize = 0;
    while i < n
        invariant
            i <= n,
            n == s@.len(),
            r@ == spec_escape(s@.take(i as int)),
        decreases n - i,
    {
        let c = s.get_char(i);
        if c == '&' {
            r.append("&amp;");
        } else {
            let piece = s.substring_char(i, i + 1);
            proof {
                assert(piece@ =~= seq![s@[i as int]]);
            }
            r.append(piece);
        }
        proof {
            assert(s@.take(i + 1).drop_last() =~= s@.take(i as int));
            assert(s@.take(i + 1).last() == s@[i as int]);
            assert(r@ =~= spec_escape(s@.take(i + 1)));
        }
        i += 1;
    }
    proof {
        assert(s@.take(n as int) =~= s@);
    }
    r
}

/// One tag pair's piece of the description.
pub open spec fn spec_tag_text(k: Seq<char>, v: Seq<char>) -> Seq<char> {
    k + ":"@ + v + "; "@
}

/// The concatenation of every tag pair's piece, in tag order.
pub open spec fn spec_tags_concat(tags: Seq<(Seq<char>, Seq<char>)>) -> Seq<char>
    decreases tags.len(),
{
    if tags.len() == 0 {
        Seq::empty()
    } else {
        spec_tags_concat(tags.drop_last()) + spec_tag_text(tags.last().0, tags.last().1)
    }
}

/// The human-readable description of an entity: every tag pair as
/// `key:value; `, concatenated, with `&` escaped.
pub fn tags_description(tags: &Vec<(String, String)>) -> (r: String)
    ensures
        r@ == spec_escape(spec_tags_concat(tags.deep_view())),
{
    let mut raw = String::new();
    let n = tags.len();
    proof {
        assert(tags.deep_view().take(0) =~= Seq::<(Seq<char>, Seq<char>)>::empty());
    }
    let mut i: usize = 0;
    while i < n
        invariant
            i <= n,
            n == tags@.len(),
            raw@ == spec_tags_concat(tags.deep_view().take(i as int)),
        decreases n - i,
    {
        proof {
            assert(tags.deep_view()[i as int] == (tags@[i as int].0@, tags@[i as int].1@));
        }
        raw.append(tags[i].0.as_str());
        raw.append(":");
        raw.append(tags[i].1.as_str());
        raw.append("; ");
        proof {
            assert(tags.deep_view().take(i + 1).drop_last() =~= tags.deep_view().take(i as int));
            assert(tags.deep_view().take(i + 1).last() == tags.deep_view()[i as int]);
            assert(raw@ =~= spec_tags_concat(tags.deep_view().take(i + 1)));
        }
        i += 1;
    }
    proof {
        assert(tags.deep_view().take(n as int) =~= tags.deep_view());
    }
    escape_amp(raw.as_str())
}

/// One serialized path primitive.
pub open spec fn spec_path_element(
    d: Seq<char>,
    id: int,
    style_line: Seq<char>,
    desc: Seq<char>,
) -> Seq<char> {
    "<path d=\""@ + d + "\" id=\""@ + dec_int(id) + "\" style=\""@ + style_line + "\"><desc>"@
        + desc + "</desc></path>"@
}

fn path_element(d: &str, id: i64, style_line: &str, desc: &str) -> (r: String)
    ensures
        r@ == spec_path_element(d@, id as int, style_line@, desc@),
{
    let mut r = String::from_str("<path d=\"");
    r.append(d);
    r.append("\" id=\"");
    let id_s = i64_to_dec(id);
    r.append(id_s.as_str());
    r.append("\" style=\"");
    r.append(style_line);
    r.append("\"><desc>");
    r.append(desc);
    r.append("</desc></path>");
    proof {
        assert(r@ =~= spec_path_element(d@, id as int, style_line@, desc@));
    }
    r
}

/// Whether any vertex of the chain lies in the selected index.
pub open spec fn spec_any_ref_selected(sel: Map<i64, (u32, u32)>, refs: Seq<i64>) -> bool {
    exists|i: int| 0 <= i < refs.len() && sel.contains_key(refs[i])
}

/// The style the entity's tags resolve to: each pair is resolved in order
/// and the last pair that resolves wins.
pub open spec fn spec_resolve_way(
    t: Seq<StyleEntryV>,
    tags: Seq<(Seq<char>, Seq<char>)>,
) -> Option<(u32, Seq<char>)>
    decreases tags.len(),
{
    if tags.len() == 0 {
        None
    } else {
        match spec_get(t, tags.last().0, tags.last().1) {
            Some(ps) => Some(ps),
            None => spec_resolve_way(t, tags.drop_last()),
        }
    }
}

/// What rendering one line/polygon entity adds to the accumulator: nothing
/// when no vertex is selected or no tag resolves; otherwise one path
/// primitive over the entire vertex chain, at the resolved priority.
pub open spec fn spec_render_way(
    t: Seq<StyleEntryV>,
    full: Map<i64, (u32, u32)>,
    sel: Map<i64, (u32, u32)>,
    way_id: i64,
    refs: Seq<i64>,
    tags: Seq<(Seq<char>, Seq<char>)>,
) -> Map<u32, Seq<Seq<char>>> {
    if !spec_any_ref_selected(sel, refs) {
        Map::empty()
    } else {
        match spec_resolve_way(t, tags) {
            None => Map::empty(),
            Some(ps) => Map::empty().insert(
                ps.0,
                seq![
                    spec_path_element(
                        spec_path_d(full, refs),
                        way_id as int,
                        ps.1,
                        spec_escape(spec_tags_concat(tags)),
                    )
                ],
            ),
        }
    }
}

/// Renders one line/polygon entity: nothing unless at least one vertex
/// lies in the selected index; otherwise one path primitive over the whole
/// chain (coordinates from the full index), styled by the last resolving
/// tag pair, described by all tag pairs.
pub fn render_way(
    full: &NodeIndex,
    selected: &NodeIndex,
    style: &Style,
    way_id: i64,
    refs: &Vec<i64>,
    tags: &Vec<(String, String)>,
) -> (r: Svg)
    ensures
        bucket_map(r@) == spec_render_way(
            style@,
            full@,
            selected@,
            way_id,
            refs@,
            tags.deep_view(),
        ),
{
    let n = refs.len();
    let mut found = false;
    proof {
        assert(refs@.take(0) =~= Seq::<i64>::empty());
    }
    let mut i: usize = 0;
    while i < n
        invariant
            i <= n,
            n == refs@.len(),
            found == spec_any_ref_selected(selected@, refs@.take(i as int)),
        decreases n - i,
    {
        if selected.contains_key(refs[i]) {
            found = true;
            proof {
                assert(refs@.take(i + 1)[i as int] == refs@[i as int]);
                assert(spec_any_ref_selected(selected@, refs@.take(i + 1)));
            }
        } else {
            proof {
                if spec_any_ref_selected(selected@, refs@.take(i + 1)) {
                    let j = choose|j: int|
                        0 <= j < refs@.take(i + 1).len() && selected@.contains_key(
                            #[trigger] refs@.take(i + 1)[j],
                        );
                    if j < i {
                        assert(refs@.take(i as int)[j] == refs@[j]);
                        assert(spec_any_ref_selected(selected@, refs@.take(i as int)));
                    }
                }
            }
        }
        i += 1;
    }
    proof {
        assert(refs@.take(n as int) =~= refs@);
    }
    if !found {
        let r = Svg::new();
        return r;
    }
    let desc = tags_description(tags);
    let d = full.svg_path_d(refs);
    let mut best: Option<(u32, String)> = None;
    let m = tags.len();
    proof {
        assert(tags.deep_view().take(0) =~= Seq::<(Seq<char>, Seq<char>)>::empty());
    }
    let mut j: usize = 0;
    while j < m
        invariant
            j <= m,
            m == tags@.len(),
            match best {
                None => spec_resolve_way(style@, tags.deep_view().take(j as int)) is None,
                Some(ps) => spec_resolve_way(style@, tags.deep_view().take(j as int)) == Some(
                    (ps.0, ps.1@),
                ),
            },
        decreases m - j,
    {
        proof {
            assert(tags.deep_view()[j as int] == (tags@[j as int].0@, tags@[j as int].1@));
        }
        let picked = style.get(tags[j].0.as_str(), tags[j].1.as_str());
        proof {
            assert(tags.deep_view().take(j + 1).drop_last() =~= tags.deep_view().take(j as int));
            assert(tags.deep_view().take(j + 1).last() == tags.deep_view()[j as int]);
        }
        match picked {
            Some(ps) => {
                best = Some(ps);
            },
            None => {},
        }
        j += 1;
    }
    proof {
        assert(tags.deep_view().take(m as int) =~= tags.deep_view());
    }
    match best {
        None => Svg::new(),
        Some(ps) => {
            let line = path_element(d.as_str(), way_id, ps.1.as_str(), desc.as_str());
            let r = Svg::one(ps.0, line);
            proof {
                lemma_bucket_map_singleton((ps.0, seq![line@]));
            }
            r
        },
    }
}

/// The priority bucket the grid overlay is drawn at.
pub open spec fn grid_priority() -> u32 {
    1000u32
}

/// The spacing between grid lines.
pub open spec fn grid_spacing() -> int {
    1000
}

/// One vertical grid line, spanning the box at a fixed x.
pub open spec fn spec_grid_line_x(x: int, y_min: int, y_max: int) -> Seq<char> {
    "<line x1=\""@ + dec_digits(x as nat) + "\" y1=\"-"@ + dec_digits(y_min as nat) + "\" x2=\""@
        + dec_digits(x as nat) + "\" y2=\"-"@ + dec_digits(y_max as nat) + "\" stroke=\"black\" />"@
}

/// One horizontal grid line, spanning the box at a fixed y.
pub open spec fn spec_grid_line_y(y: int, x_min: int, x_max: int) -> Seq<char> {
    "<line x1=\""@ + dec_digits(x_min as nat) + "\" y1=\"-"@ + dec_digits(y as nat) + "\" x2=\""@
        + dec_digits(x_max as nat) + "\" y2=\"-"@ + dec_digits(y as nat) + "\" stroke=\"black\" />"@
}

/// The vertical grid lines from `x` (inclusive) up to `hi` (exclusive), one
/// per spacing step.
pub open spec fn spec_x_lines(x: int, hi: int, y_min: int, y_max: int) -> Seq<Seq<char>>
    decreases (if hi - x < 0 { 0int } else { hi - x }),
{
    if x >= hi {
        Seq::empty()
    } else {
        seq![spec_grid_line_x(x, y_min, y_max)] + spec_x_lines(
            x + grid_spacing(),
            hi,
            y_min,
            y_max,
        )
    }
}

/// The horizontal grid lines from `y` (inclusive) up to `hi` (exclusive),
/// one per spacing step.
pub open spec fn spec_y_lines(y: int, hi: int, x_min: int, x_max: int) -> Seq<Seq<char>>
    decreases (if hi - y < 0 { 0int } else { hi - y }),
{
    if y >= hi {
        Seq::empty()
    } else {
        seq![spec_grid_line_y(y, x_min, x_max)] + spec_y_lines(
            y + grid_spacing(),
            hi,
            x_min,
            x_max,
        )
    }
}

/// Every grid line of a box: the vertical ones, then the horizontal ones.
pub open spec fn spec_grid_lines(sb: SelectBox) -> Seq<Seq<char>> {
    spec_x_lines(sb.x as int, sb.x + sb.w, sb.y as int, sb.y + sb.h) + spec_y_lines(
        sb.y as int,
        sb.y + sb.h,
        sb.x as int,
        sb.x + sb.w,
    )
}

proof fn lemma_x_lines_extend(lo: int, x: int, hi: int, y_min: int, y_max: int)
    requires
        lo <= x < hi,
        (x - lo) % grid_spacing() == 0,
    ensures
        spec_x_lines(lo, x + grid_spacing(), y_min, y_max) == spec_x_lines(
            lo,
            x,
            y_min,
            y_max,
        ).push(spec_grid_line_x(x, y_min, y_max)),
    decreases x - lo,
{
    if lo == x {
        assert(spec_x_lines(lo, x, y_min, y_max) =~= Seq::<Seq<char>>::empty());
        assert(spec_x_lines(x + grid_spacing(), x + grid_spacing(), y_min, y_max) =~= Seq::<Seq<
            char,
        >>::empty());
        assert(spec_x_lines(lo, x + grid_spacing(), y_min, y_max) =~= Seq::<Seq<
            char,
        >>::empty().push(spec_grid_line_x(x, y_min, y_max)));
    } else {
        assert((x - (lo + grid_spacing())) % grid_spacing() == 0) by {
            assert((x - lo) % 1000 == 0);
            assert(x - (lo + 1000) == (x - lo) - 1000);
            assert(((x - lo) - 1000) % 1000 == 0) by (nonlinear_arith)
                requires
                    (x - lo) % 1000 == 0,
            ;
        }
        assert(lo + grid_spacing() <= x) by {
            assert(lo < x && (x - lo) % 1000 == 0);
            assert(x - lo >= 1) by {}
            assert(x - lo >= 1000) by (nonlinear_arith)
                requires
                    x - lo >= 1,
                    (x - lo) % 1000 == 0,
            ;
        }
        lemma_x_lines_extend(lo + grid_spacing(), x, hi, y_min, y_max);
        assert(spec_x_lines(lo, x + grid_spacing(), y_min, y_max) =~= spec_x_lines(
            lo,
            x,
            y_min,
            y_max,
        ).push(spec_grid_line_x(x, y_min, y_max)));
    }
}

proof fn lemma_y_lines_extend(lo: int, y: int, hi: int, x_min: int, x_max: int)
    requires
        lo <= y < hi,
        (y - lo) % grid_spacing() == 0,
    ensures
        spec_y_lines(lo, y + grid_spacing(), x_min, x_max) == spec_y_lines(
            lo,
            y,
            x_min,
            x_max,
        ).push(spec_grid_line_y(y, x_min, x_max)),
    decreases y - lo,
{
    if lo == y {
        assert(spec_y_lines(lo, y, x_min, x_max) =~= Seq::<Seq<char>>::empty());
        assert(spec_y_lines(y + grid_spacing(), y + grid_spacing(), x_min, x_max) =~= Seq::<Seq<
            char,
        >>::empty());
        assert(spec_y_lines(lo, y + grid_spacing(), x_min, x_max) =~= Seq::<Seq<
            char,
        >>::empty().push(spec_grid_line_y(y, x_min, x_max)));
    } else {
        assert((y - (lo + grid_spacing())) % grid_spacing() == 0) by {
            assert((y - lo) % 1000 == 0);
            assert(y - (lo + 1000) == (y - lo) - 1000);
            assert(((y - lo) - 1000) % 1000 == 0) by (nonlinear_arith)
                requires
                    (y - lo) % 1000 == 0,
            ;
        }
        assert(lo + grid_spacing() <= y) by {
            assert(lo < y && (y - lo) % 1000 == 0);
            assert(y - lo >= 1) by {}
            assert(y - lo >= 1000) by (nonlinear_arith)
                requires
                    y - lo >= 1,
                    (y - lo) % 1000 == 0,
            ;
        }
        lemma_y_lines_extend(lo + grid_spacing(), y, hi, x_min, x_max);
        assert(spec_y_lines(lo, y + grid_spacing(), x_min, x_max) =~= spec_y_lines(
            lo,
            y,
            x_min,
            x_max,
        ).push(spec_grid_line_y(y, x_min, x_max)));
    }
}

fn grid_line_x(x: u64, y_min: u32, y_max: u32) -> (r: String)
    ensures
        r@ == spec_grid_line_x(x as int, y_min as int, y_max as int),
{
    let mut r = String::from_str("<line x1=\"");
    let xs = u64_to_dec(x);
    r.append(xs.as_str());
    r.append("\" y1=\"-");
    let y0 = u32_to_dec(y_min);
    r.append(y0.as_str());
    r.append("\" x2=\"");
    r.append(xs.as_str());
    r.append("\" y2=\"-");
    let y1 = u32_to_dec(y_max);
    r.append(y1.as_str());
    r.append("\" stroke=\"black\" />");
    proof {
        assert(r@ =~= spec_grid_line_x(x as int, y_min as int, y_max as int));
    }
    r
}

fn grid_line_y(y: u64, x_min: u32, x_max: u32) -> (r: String)
    ensures
        r@ == spec_grid_line_y(y as int, x_min as int, x_max as int),
{
    let mut r = String::from_str("<line x1=\"");
    let x0 = u32_to_dec(x_min);
    r.append(x0.as_str());
    r.append("\" y1=\"-");
    let ys = u64_to_dec(y);
    r.append(ys.as_str());
    r.append("\" x2=\"");
    let x1 = u32_to_dec(x_max);
    r.append(x1.as_str());
    r.append("\" y2=\"-");
    r.append(ys.as_str());
    r.append("\" stroke=\"black\" />");
    proof {
        assert(r@ =~= spec_grid_line_y(y as int, x_min as int, x_max as int));
    }
    r
}

fn push_line(v: &mut Vec<String>, line: String)
    ensures
        final(v).deep_view() == old(v).deep_view().push(line@),
{
    let ghost l = line@;
    v.push(line);
    proof {
        assert forall|t: int| 0 <= t < v@.len() implies v.deep_view()[t] == old(
            v,
        ).deep_view().push(l)[t] by {
            if t < v@.len() - 1 {
                assert(v@[t] == old(v)@[t]);
                assert(old(v).deep_view()[t] == old(v)@[t].deep_view());
            }
        }
        assert(v.deep_view() =~= old(v).deep_view().push(l));
    }
}

/// Appends the grid overlay: vertical then horizontal lines at the fixed
/// spacing, spanning the box, all in the dedicated high-priority bucket.
pub fn append_grid(svg: &mut Svg, select_box: &SelectBox)
    requires
        select_box.wf(),
    ensures
        bucket_map(final(svg)@) == spec_append_bucket(
            bucket_map(old(svg)@),
            grid_priority(),
            spec_grid_lines(*select_box),
        ),
{
    let x0 = select_box.x_min();
    let xm = select_box.x_max();
    let y0 = select_box.y_min();
    let ym = select_box.y_max();
    let ghost xs_all = spec_x_lines(x0 as int, xm as int, y0 as int, ym as int);
    let ghost ys_all = spec_y_lines(y0 as int, ym as int, x0 as int, xm as int);
    let mut lines: Vec<String> = Vec::new();
    proof {
        assert(lines.deep_view() =~= Seq::<Seq<char>>::empty());
    }
    let mut x: u64 = x0 as u64;
    while x < xm as u64
        invariant
            x0 as u64 <= x,
            (x - x0) as int % grid_spacing() == 0,
            x < xm as u64 + 1000,
            lines.deep_view() == spec_x_lines(x0 as int, x as int, y0 as int, ym as int),
        decreases xm as u64 + 1000 - x,
    {
        let line = grid_line_x(x, y0, ym);
        push_line(&mut lines, line);
        proof {
            lemma_x_lines_extend(x0 as int, x as int, xm as int, y0 as int, ym as int);
        }
        x += 1000;
    }
    proof {
        assert(x >= xm as u64);
        if x0 as int >= xm as int {
            assert(spec_x_lines(x0 as int, x as int, y0 as int, ym as int) =~= xs_all);
        } else {
            lemma_x_lines_stops(x0 as int, x as int, xm as int, y0 as int, ym as int);
        }
        assert(lines.deep_view() == xs_all);
    }
    let mut y: u64 = y0 as u64;
    while y < ym as u64
        invariant
            y0 as u64 <= y,
            (y - y0) as int % grid_spacing() == 0,
            y < ym as u64 + 1000,
            lines.deep_view() == xs_all + spec_y_lines(y0 as int, y as int, x0 as int, xm as int),
        decreases ym as u64 + 1000 - y,
    {
        let line = grid_line_y(y, x0, xm);
        push_line(&mut lines, line);
        proof {
            lemma_y_lines_extend(y0 as int, y as int, ym as int, x0 as int, xm as int);
            assert(lines.deep_view() =~= xs_all + spec_y_lines(
                y0 as int,
                (y + 1000) as int,
                x0 as int,
                xm as int,
            ));
        }
        y += 1000;
    }
    proof {
        assert(y >= ym as u64);
        if y0 as int >= ym as int {
            assert(spec_y_lines(y0 as int, y as int, x0 as int, xm as int) =~= ys_all);
        } else {
            lemma_y_lines_stops(y0 as int, y as int, ym as int, x0 as int, xm as int);
        }
        assert(lines.deep_view() == xs_all + ys_all);
        assert(lines.deep_view() == spec_grid_lines(*select_box));
    }
    svg.append_lines(1000, lines);
}

/// Past the upper bound, no further line is generated: any aligned stop at
/// or beyond the bound yields the same lines as the bound itself.
proof fn lemma_x_lines_stops(lo: int, stop: int, hi: int, y_min: int, y_max: int)
    requires
        lo <= stop,
        hi <= stop < hi + grid_spacing(),
        (stop - lo) % grid_spacing() == 0,
    ensures
        spec_x_lines(lo, stop, y_min, y_max) == spec_x_lines(lo, hi, y_min, y_max),
    decreases (if stop - lo < 0 { 0int } else { stop - lo }),
{
    if lo >= hi {
        if lo < stop {
            assert(stop - lo >= 1000) by (nonlinear_arith)
                requires
                    stop - lo >= 1,
                    (stop - lo) % 1000 == 0,
            ;
            assert(false);
        }
    } else {
        assert(stop - lo >= 1000) by (nonlinear_arith)
            requires
                stop - lo >= 1,
                (stop - lo) % 1000 == 0,
        ;
        assert((stop - (lo + 1000)) % 1000 == 0) by (nonlinear_arith)
            requires
                (stop - lo) % 1000 == 0,
        ;
        lemma_x_lines_stops(lo + 1000, stop, hi, y_min, y_max);
        assert(spec_x_lines(lo, stop, y_min, y_max) =~= spec_x_lines(lo, hi, y_min, y_max));
    }
}

/// The horizontal-line counterpart of the stopping lemma.
proof fn lemma_y_lines_stops(lo: int, stop: int, hi: int, x_min: int, x_max: int)
    requires
        lo <= stop,
        hi <= stop < hi + grid_spacing(),
        (stop - lo) % grid_spacing() == 0,
    ensures
        spec_y_lines(lo, stop, x_min, x_max) == spec_y_lines(lo, hi, x_min, x_max),
    decreases (if stop - lo < 0 { 0int } else { stop - lo }),
{
    if lo >= hi {
        if lo < stop {
            assert(stop - lo >= 1000) by (nonlinear_arith)
                requires
                    stop - lo >= 1,
                    (stop - lo) % 1000 == 0,
            ;
            assert(false);
        }
    } else {
        assert(stop - lo >= 1000) by (nonlinear_arith)
            requires
                stop - lo >= 1,
                (stop - lo) % 1000 == 0,
        ;
        assert((stop - (lo + 1000)) % 1000 == 0) by (nonlinear_arith)
            requires
                (stop - lo) % 1000 == 0,
        ;
        lemma_y_lines_stops(lo + 1000, stop, hi, x_min, x_max);
        assert(spec_y_lines(lo, stop, x_min, x_max) =~= spec_y_lines(lo, hi, x_min, x_max));
    }
}

/// The document header: the root element with width, height, and a viewBox
/// offset by the sign-inverted maximum y.
pub open spec fn spec_header(sb: SelectBox) -> Seq<char> {
    "<svg\n  width=\""@ + dec_digits(sb.w as nat) + "\" \n  height=\""@ + dec_digits(sb.h as nat)
        + "\" \n  viewBox=\""@ + dec_digits(sb.x as nat) + " -"@ + dec_digits((sb.y + sb.h) as nat)
        + " "@ + dec_digits(sb.w as nat) + " "@ + dec_digits(sb.h as nat)
        + "\" \n  xmlns=\"http://www.w3.org/2000/svg\" \n  xmlns:xlink=\"http://www.w3.org/1999/xlink\" \n>\n"@
}

/// The whole output document: header, primitives in ascending priority
/// order, footer.
pub open spec fn spec_document(sb: SelectBox, v: Seq<(u32, Seq<Seq<char>>)>) -> Seq<char> {
    spec_header(sb) + spec_render(v) + " \n</svg>\n"@
}

/// Serializes the final document: the header with the box's width, height
/// and viewBox, every accumulated primitive in ascending priority order,
/// and the footer.
pub fn document(select_box: &SelectBox, svg: &Svg) -> (r: String)
    requires
        select_box.wf(),
    ensures
        r@ == spec_document(*select_box, svg@),
        sorted_by_prio(svg@),
{
    let mut r = String::from_str("<svg\n  width=\"");
    let w_s = u32_to_dec(select_box.w());
    let h_s = u32_to_dec(select_box.h());
    let x_s = u32_to_dec(select_box.x_min());
    let ym_s = u32_to_dec(select_box.y_max());
    r.append(w_s.as_str());
    r.append("\" \n  height=\"");
    r.append(h_s.as_str());
    r.append("\" \n  viewBox=\"");
    r.append(x_s.as_str());
    r.append(" -");
    r.append(ym_s.as_str());
    r.append(" ");
    r.append(w_s.as_str());
    r.append(" ");
    r.append(h_s.as_str());
    r.append("\" \n  xmlns=\"http://www.w3.org/2000/svg\" \n  xmlns:xlink=\"http://www.w3.org/1999/xlink\" \n>\n");
    let body = svg.render_lines();
    r.append(body.as_str());
    r.append(" \n</svg>\n");
    proof {
        assert(r@ =~= spec_document(*select_box, svg@));
    }
    r
}

} // verus!

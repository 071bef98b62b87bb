//! The point index: a mapping from point-entity identifiers to projected
//! planar coordinates, built by combining partial indexes and filtered
//! against the bounding region.

use vstd::prelude::*;
use vstd::map::*;
use vstd::string::StringExecFns;
use crate::numfmt::{dec_digits, u32_to_dec};
use crate::select_box::SelectBox;

verus! {

/// A point index. The entry list is interpreted as a mapping where a later
/// entry for the same identifier overwrites an earlier one, so combining
/// partial indexes by concatenation resolves duplicates last-combined-wins.
pub struct NodeIndex {
    pub entries: Vec<(i64, u32, u32)>,
}

/// The mapping an entry list stands for: later entries win.
pub open spec fn map_of(s: Seq<(i64, u32, u32)>) -> Map<i64, (u32, u32)>
    decreases s.len(),
{
    if s.len() == 0 {
        Map::empty()
    } else {
        map_of(s.drop_last()).insert(s.last().0, (s.last().1, s.last().2))
    }
}

impl View for NodeIndex {
    type V = Map<i64, (u32, u32)>;

    open spec fn view(&self) -> Map<i64, (u32, u32)> {
        map_of(self.entries@)
    }
}

/// The coordinate a point reference resolves to: the indexed coordinate,
/// or the default `(0, 0)` when the identifier is absent.
pub open spec fn spec_coord(m: Map<i64, (u32, u32)>, k: i64) -> (u32, u32) {
    if m.contains_key(k) {
        m[k]
    } else {
        (0u32, 0u32)
    }
}

/// One path command: a move-to for the first vertex, a line-to afterwards,
/// with the y coordinate sign-inverted.
pub open spec fn spec_path_cmd(m: Map<i64, (u32, u32)>, k: i64, first: bool) -> Seq<char> {
    let c = spec_coord(m, k);
    (if first {
        "M "@
    } else {
        "L "@
    }) + dec_digits(c.0 as nat) + " -"@ + dec_digits(c.1 as nat) + " "@
}

/// The path definition for a vertex chain: every vertex contributes one
/// command, in chain order.
pub open spec fn spec_path_d(m: Map<i64, (u32, u32)>, ids: Seq<i64>) -> Seq<char>
    decreases ids.len(),
{
    if ids.len() == 0 {
        Seq::empty()
    } else {
        spec_path_d(m, ids.drop_last()) + spec_path_cmd(m, ids.last(), ids.len() == 1)
    }
}

/// The restriction of an index to the coordinates strictly inside a box.
pub open spec fn spec_filter(m: Map<i64, (u32, u32)>, sb: SelectBox) -> Map<i64, (u32, u32)> {
    Map::new(
        |k: i64| m.contains_key(k) && sb.spec_is_inside(m[k].0, m[k].1),
        |k: i64| m[k],
    )
}

proof fn lemma_map_of_take_step(s: Seq<(i64, u32, u32)>, i: int)
    requires
        0 <= i < s.len(),
    ensures
        map_of(s.take(i + 1)) == map_of(s.take(i)).insert(s[i].0, (s[i].1, s[i].2)),
{
    assert(s.take(i + 1).drop_last() =~= s.take(i));
    assert(s.take(i + 1).last() == s[i]);
}

proof fn lemma_map_of_contains(s: Seq<(i64, u32, u32)>, k: i64)
    ensures
        map_of(s).contains_key(k) <==> (exists|i: int| 0 <= i < s.len() && s[i].0 == k),
    decreases s.len(),
{
    if s.len() > 0 {
        lemma_map_of_contains(s.drop_last(), k);
        if s.last().0 == k {
            assert(s[s.len() - 1].0 == k);
        } else {
            if map_of(s).contains_key(k) {
                let i = choose|i: int| 0 <= i < s.drop_last().len() && s.drop_last()[i].0 == k;
                assert(s[i].0 == k);
            }
            if exists|i: int| 0 <= i < s.len() && s[i].0 == k {
                let i = choose|i: int| 0 <= i < s.len() && s[i].0 == k;
                assert(i < s.len() - 1);
                assert(s.drop_last()[i].0 == k);
            }
        }
    }
}

proof fn lemma_map_of_concat(a: Seq<(i64, u32, u32)>, b: Seq<(i64, u32, u32)>)
    ensures
        map_of(a + b) == map_of(a).union_prefer_right(map_of(b)),
    decreases b.len(),
{
    if b.len() == 0 {
        assert(a + b =~= a);
        assert(map_of(a).union_prefer_right(map_of(b)) =~= map_of(a));
    } else {
        lemma_map_of_concat(a, b.drop_last());
        assert((a + b).drop_last() =~= a + b.drop_last());
        assert((a + b).last() == b.last());
        assert(map_of(a).union_prefer_right(map_of(b.drop_last())).insert(
            b.last().0,
            (b.last().1, b.last().2),
        ) =~= map_of(a).union_prefer_right(
            map_of(b.drop_last()).insert(b.last().0, (b.last().1, b.last().2)),
        ));
    }
}

impl NodeIndex {
    /// The empty index.
    pub fn new() -> (r: NodeIndex)
        ensures
            r@ == Map::<i64, (u32, u32)>::empty(),
    {
        NodeIndex { entries: Vec::new() }
    }

    /// An index holding a single point.
    pub fn one(id: i64, x: u32, y: u32) -> (r: NodeIndex)
        ensures
            r@ == Map::<i64, (u32, u32)>::empty().insert(id, (x, y)),
    {
        let mut entries: Vec<(i64, u32, u32)> = Vec::new();
        entries.push((id, x, y));
        proof {
            assert(entries@.drop_last() =~= Seq::<(i64, u32, u32)>::empty());
            assert(map_of(entries@) == map_of(entries@.drop_last()).insert(id, (x, y)));
        }
        NodeIndex { entries }
    }

    /// Merges another partial index into this one. Identifiers present in
    /// both resolve to the other index's coordinate (last-combined wins).
    pub fn combine(self, ni: NodeIndex) -> (r: NodeIndex)
        ensures
            r@ == self@.union_prefer_right(ni@),
    {
        proof {
            lemma_map_of_concat(self.entries@, ni.entries@);
        }
        let mut s = self;
        let mut o = ni;
        s.entries.append(&mut o.entries);
        s
    }

    /// Whether the index holds a coordinate for the identifier.
    pub fn contains_key(&self, key: i64) -> (r: bool)
        ensures
            r == self@.contains_key(key),
    {
        proof {
            lemma_map_of_contains(self.entries@, key);
        }
        let n = self.entries.len();
        let mut i: usize = 0;
        while i < n
            invariant
                i <= n,
                n == self.entries.len(),
                forall|j: int| 0 <= j < i ==> self.entries@[j].0 != key,
            decreases n - i,
        {
            if self.entries[i].0 == key {
                proof {
                    lemma_map_of_contains(self.entries@, key);
                    assert(0 <= i < self.entries@.len() && self.entries@[i as int].0 == key);
                }
                return true;
            }
            i += 1;
        }
        false
    }

    /// The coordinate for an identifier, or `(0, 0)` when it is absent.
    pub fn coord_or_default(&self, key: i64) -> (r: (u32, u32))
        ensures
            r == spec_coord(self@, key),
    {
        let mut i: usize = self.entries.len();
        proof {
            assert(self.entries@.take(i as int) =~= self.entries@);
        }
        while i > 0
            invariant
                i <= self.entries.len(),
                spec_coord(self@, key) == spec_coord(map_of(self.entries@.take(i as int)), key),
            decreases i,
        {
            i -= 1;
            let e = self.entries[i];
            proof {
                lemma_map_of_take_step(self.entries@, i as int);
            }
            if e.0 == key {
                return (e.1, e.2);
            }
        }
        proof {
            assert(self.entries@.take(0) =~= Seq::<(i64, u32, u32)>::empty());
        }
        (0, 0)
    }

    /// Keeps exactly the points whose coordinate lies strictly inside the
    /// box; the receiver is unchanged.
    pub fn filter(&self, select_box: &SelectBox) -> (r: NodeIndex)
        ensures
            r@ == spec_filter(self@, *select_box),
    {
        let mut r = NodeIndex::new();
        let n = self.entries.len();
        proof {
            assert(r@ =~= spec_filter(map_of(self.entries@.take(0)), *select_box));
        }
        let mut i: usize = 0;
        while i < n
            invariant
                i <= n,
                n == self.entries.len(),
                r@ == spec_filter(map_of(self.entries@.take(i as int)), *select_box),
            decreases n - i,
        {
            let e = self.entries[i];
            proof {
                lemma_map_of_take_step(self.entries@, i as int);
            }
            let ghost m = map_of(self.entries@.take(i as int));
            if select_box.is_inside(e.1, e.2) {
                r.set_coord(e.0, e.1, e.2);
                proof {
                    assert(spec_filter(m, *select_box).insert(e.0, (e.1, e.2)) =~= spec_filter(
                        m.insert(e.0, (e.1, e.2)),
                        *select_box,
                    ));
                }
            } else {
                r.remove_key(e.0);
                proof {
                    assert(spec_filter(m, *select_box).remove(e.0) =~= spec_filter(
                        m.insert(e.0, (e.1, e.2)),
                        *select_box,
                    ));
                }
            }
            i += 1;
        }
        proof {
            assert(self.entries@.take(n as int) =~= self.entries@);
        }
        r
    }

    /// Overwrites (or adds) the coordinate for an identifier.
    fn set_coord(&mut self, id: i64, x: u32, y: u32)
        ensures
            final(self)@ == old(self)@.insert(id, (x, y)),
    {
        self.remove_key(id);
        let ghost before = self.entries@;
        self.entries.push((id, x, y));
        proof {
            assert(self.entries@.drop_last() =~= before);
            assert(map_of(before).remove(id).insert(id, (x, y)) =~= map_of(before).insert(
                id,
                (x, y),
            ));
            assert(old(self)@.remove(id).insert(id, (x, y)) =~= old(self)@.insert(id, (x, y)));
        }
    }

    /// Drops every entry for an identifier.
    fn remove_key(&mut self, id: i64)
        ensures
            final(self)@ == old(self)@.remove(id),
    {
        let n = self.entries.len();
        let mut kept: Vec<(i64, u32, u32)> = Vec::new();
        proof {
            assert(kept@ =~= Seq::<(i64, u32, u32)>::empty());
            assert(map_of(kept@) =~= map_of(old(self).entries@.take(0)).remove(id));
        }
        let mut i: usize = 0;
        while i < n
            invariant
                i <= n,
                n == self.entries.len(),
                self.entries@ == old(self).entries@,
                map_of(kept@) == map_of(self.entries@.take(i as int)).remove(id),
            decreases n - i,
        {
            let e = self.entries[i];
            proof {
                lemma_map_of_take_step(self.entries@, i as int);
            }
            let ghost m = map_of(self.entries@.take(i as int));
            if e.0 != id {
                let ghost kept_before = kept@;
                kept.push(e);
                proof {
                    assert(kept@.drop_last() =~= kept_before);
                    assert(map_of(kept_before).insert(e.0, (e.1, e.2)) =~= m.insert(
                        e.0,
                        (e.1, e.2),
                    ).remove(id));
                }
            } else {
                proof {
                    assert(m.remove(id) =~= m.insert(e.0, (e.1, e.2)).remove(id));
                }
            }
            i += 1;
        }
        proof {
            assert(self.entries@.take(n as int) =~= self.entries@);
        }
        self.entries = kept;
    }

    /// The path definition for a vertex chain: the first referenced point
    /// becomes a move-to command, every later one a line-to command, each
    /// with the y coordinate sign-inverted; an identifier absent from the
    /// index contributes the default coordinate `(0, 0)`.
    pub fn svg_path_d(&self, line: &Vec<i64>) -> (d: String)
        ensures
            d@ == spec_path_d(self@, line@),
    {
        let mut d = String::new();
        let n = line.len();
        proof {
            assert(line@.take(0) =~= Seq::<i64>::empty());
            assert(d@ =~= spec_path_d(self@, line@.take(0)));
        }
        let mut i: usize = 0;
        while i < n
            invariant
                i <= n,
                n == line.len(),
                d@ == spec_path_d(self@, line@.take(i as int)),
            decreases n - i,
        {
            let c = self.coord_or_default(line[i]);
            if i == 0 {
                d.append("M ");
            } else {
                d.append("L ");
            }
            let xs = u32_to_dec(c.0);
            d.append(xs.as_str());
            d.append(" -");
            let ys = u32_to_dec(c.1);
            d.append(ys.as_str());
            d.append(" ");
            proof {
                assert(line@.take(i + 1).drop_last() =~= line@.take(i as int));
                assert(line@.take(i + 1).last() == line@[i as int]);
                assert(d@ =~= spec_path_d(self@, line@.take(i + 1)));
            }
            i += 1;
        }
        proof {
            assert(line@.take(n as int) =~= line@);
        }
        d
    }
}

/// Law: combining partial indexes is associative, so any pairwise merge
/// order over the same partition yields the same mapping.
pub proof fn lemma_combine_associative(
    a: Map<i64, (u32, u32)>,
    b: Map<i64, (u32, u32)>,
    c: Map<i64, (u32, u32)>,
)
    ensures
        a.union_prefer_right(b).union_prefer_right(c) == a.union_prefer_right(
            b.union_prefer_right(c),
        ),
{
    assert(a.union_prefer_right(b).union_prefer_right(c) =~= a.union_prefer_right(
        b.union_prefer_right(c),
    ));
}

/// Law: partial indexes built from disjoint subsets of the point entities
/// have disjoint identifier sets, and combining them commutes, so the full
/// index does not depend on how the entities were partitioned across
/// workers.
pub proof fn lemma_combine_commutes(a: Map<i64, (u32, u32)>, b: Map<i64, (u32, u32)>)
    requires
        a.dom().disjoint(b.dom()),
    ensures
        a.union_prefer_right(b) == b.union_prefer_right(a),
{
    assert(a.union_prefer_right(b) =~= b.union_prefer_right(a));
}

} // verus!

//! The drawing accumulator: serialized drawing primitives grouped into
//! priority buckets, combinable by an associative merge, and emitted in
//! ascending priority order with insertion order kept within a bucket.

use vstd::prelude::*;
use vstd::map::*;
use vstd::string::StringExecFns;

verus! {

/// A priority-bucketed collection of drawing-primitive strings. The bucket
/// list is kept sorted by strictly ascending priority, so emission walks it
/// front to back.
pub struct Svg {
    buckets: Vec<(u32, Vec<String>)>,
}

/// Bucket priorities strictly ascend along the list (so each priority
/// occurs at most once).
pub open spec fn sorted_by_prio(v: Seq<(u32, Seq<Seq<char>>)>) -> bool {
    forall|i: int, j: int| 0 <= i < j < v.len() ==> v[i].0 < v[j].0
}

/// The lines a priority holds in the map, or none for an absent priority.
pub open spec fn lines_or_empty(m: Map<u32, Seq<Seq<char>>>, k: u32) -> Seq<Seq<char>> {
    if m.contains_key(k) {
        m[k]
    } else {
        Seq::empty()
    }
}

/// The mapping from priority to lines that a bucket list stands for;
/// repeated priorities concatenate in list order.
pub open spec fn bucket_map(v: Seq<(u32, Seq<Seq<char>>)>) -> Map<u32, Seq<Seq<char>>>
    decreases v.len(),
{
    if v.len() == 0 {
        Map::empty()
    } else {
        let m = bucket_map(v.drop_last());
        m.insert(v.last().0, lines_or_empty(m, v.last().0) + v.last().1)
    }
}

/// Appending a whole group of lines to one priority of the map.
pub open spec fn spec_append_bucket(
    m: Map<u32, Seq<Seq<char>>>,
    k: u32,
    ls: Seq<Seq<char>>,
) -> Map<u32, Seq<Seq<char>>> {
    m.insert(k, lines_or_empty(m, k) + ls)
}

/// Appending one line to one priority of the map.
pub open spec fn spec_append(
    m: Map<u32, Seq<Seq<char>>>,
    k: u32,
    l: Seq<char>,
) -> Map<u32, Seq<Seq<char>>> {
    m.insert(k, lines_or_empty(m, k).push(l))
}

/// Merging two accumulators: every priority of either side, the first
/// side's lines before the second side's.
pub open spec fn spec_combine(
    a: Map<u32, Seq<Seq<char>>>,
    b: Map<u32, Seq<Seq<char>>>,
) -> Map<u32, Seq<Seq<char>>> {
    Map::new(
        |k: u32| a.contains_key(k) || b.contains_key(k),
        |k: u32| lines_or_empty(a, k) + lines_or_empty(b, k),
    )
}

/// One bucket's emission: each line followed by a line break, in order.
pub open spec fn spec_bucket_text(lines: Seq<Seq<char>>) -> Seq<char>
    decreases lines.len(),
{
    if lines.len() == 0 {
        Seq::empty()
    } else {
        spec_bucket_text(lines.drop_last()) + lines.last() + "\n"@
    }
}

/// The whole accumulator's emission: the buckets' texts in list order.
pub open spec fn spec_render(v: Seq<(u32, Seq<Seq<char>>)>) -> Seq<char>
    decreases v.len(),
{
    if v.len() == 0 {
        Seq::empty()
    } else {
        spec_render(v.drop_last()) + spec_bucket_text(v.last().1)
    }
}

/// A one-bucket list stands for the one-priority mapping.
pub proof fn lemma_bucket_map_singleton(e: (u32, Seq<Seq<char>>))
    ensures
        bucket_map(seq![e]) == Map::<u32, Seq<Seq<char>>>::empty().insert(e.0, e.1),
{
    reveal_with_fuel(bucket_map, 2);
    assert(seq![e].drop_last() =~= Seq::<(u32, Seq<Seq<char>>)>::empty());
    assert(bucket_map(seq![e]) =~~= Map::<u32, Seq<Seq<char>>>::empty().insert(e.0, e.1));
}

proof fn lemma_bucket_map_keys(s: Seq<(u32, Seq<Seq<char>>)>, k: u32)
    ensures
        bucket_map(s).contains_key(k) <==> (exists|i: int| 0 <= i < s.len() && s[i].0 == k),
    decreases s.len(),
{
    if s.len() > 0 {
        lemma_bucket_map_keys(s.drop_last(), k);
        if s.last().0 == k {
            assert(s[s.len() - 1].0 == k);
        } else {
            if bucket_map(s).contains_key(k) {
                let i = choose|i: int| 0 <= i < s.drop_last().len() && s.drop_last()[i].0 == k;
                assert(s[i].0 == k);
            }
            if exists|i: int| 0 <= i < s.len() && s[i].0 == k {
                let i = choose|i: int| 0 <= i < s.len() && s[i].0 == k;
                assert(i < s.len() - 1);
                assert(s.drop_last()[i].0 == k);
            }
        }
    }
}

/// Appending a group on the right distributes over a merge.
proof fn lemma_combine_append_bucket(
    a: Map<u32, Seq<Seq<char>>>,
    b: Map<u32, Seq<Seq<char>>>,
    k: u32,
    ls: Seq<Seq<char>>,
)
    ensures
        spec_combine(a, spec_append_bucket(b, k, ls)) == spec_append_bucket(
            spec_combine(a, b),
            k,
            ls,
        ),
{
    assert(spec_combine(a, spec_append_bucket(b, k, ls)) =~~= spec_append_bucket(
        spec_combine(a, b),
        k,
        ls,
    ));
}

proof fn lemma_bucket_map_concat(a: Seq<(u32, Seq<Seq<char>>)>, b: Seq<(u32, Seq<Seq<char>>)>)
    ensures
        bucket_map(a + b) == spec_combine(bucket_map(a), bucket_map(b)),
    decreases b.len(),
{
    if b.len() == 0 {
        assert(a + b =~= a);
        assert(spec_combine(bucket_map(a), bucket_map(b)) =~~= bucket_map(a));
    } else {
        lemma_bucket_map_concat(a, b.drop_last());
        assert((a + b).drop_last() =~= a + b.drop_last());
        lemma_combine_append_bucket(
            bucket_map(a),
            bucket_map(b.drop_last()),
            b.last().0,
            b.last().1,
        );
    }
}

/// Inserting a fresh bucket at the position its priority orders it to.
proof fn lemma_bucket_map_insert_at(
    orig: Seq<(u32, Seq<Seq<char>>)>,
    i: int,
    prio: u32,
    ls: Seq<Seq<char>>,
)
    requires
        0 <= i <= orig.len(),
        forall|j: int| 0 <= j < orig.len() ==> orig[j].0 != prio,
    ensures
        bucket_map(orig.take(i) + seq![(prio, ls)] + orig.skip(i)) == spec_append_bucket(
            bucket_map(orig),
            prio,
            ls,
        ),
{
    let a = orig.take(i);
    let b = orig.skip(i);
    lemma_bucket_map_concat(a + seq![(prio, ls)], b);
    lemma_bucket_map_concat(a, seq![(prio, ls)]);
    lemma_bucket_map_concat(a, b);
    assert(a + b =~= orig);
    lemma_bucket_map_keys(a, prio);
    lemma_bucket_map_keys(b, prio);
    assert(forall|j: int| 0 <= j < a.len() ==> a[j].0 != prio);
    assert(forall|j: int| 0 <= j < b.len() ==> b[j].0 != prio);
    lemma_bucket_map_singleton((prio, ls));
    assert(spec_combine(
        spec_combine(bucket_map(a), Map::<u32, Seq<Seq<char>>>::empty().insert(prio, ls)),
        bucket_map(b),
    ) =~~= spec_append_bucket(spec_combine(bucket_map(a), bucket_map(b)), prio, ls));
}

/// Extending the one bucket that already carries the priority.
proof fn lemma_bucket_map_merge_at(orig: Seq<(u32, Seq<Seq<char>>)>, i: int, ls: Seq<Seq<char>>)
    requires
        0 <= i < orig.len(),
        forall|j: int| 0 <= j < orig.len() && j != i ==> orig[j].0 != orig[i].0,
    ensures
        bucket_map(orig.take(i) + seq![(orig[i].0, orig[i].1 + ls)] + orig.skip(i + 1))
            == spec_append_bucket(bucket_map(orig), orig[i].0, ls),
{
    let k = orig[i].0;
    let a = orig.take(i);
    let b = orig.skip(i + 1);
    let e = orig[i];
    lemma_bucket_map_concat(a + seq![(k, e.1 + ls)], b);
    lemma_bucket_map_concat(a, seq![(k, e.1 + ls)]);
    lemma_bucket_map_concat(a + seq![e], b);
    lemma_bucket_map_concat(a, seq![e]);
    assert(a + seq![e] + b =~= orig);
    lemma_bucket_map_keys(a, k);
    lemma_bucket_map_keys(b, k);
    assert(forall|j: int| 0 <= j < a.len() ==> a[j].0 != k);
    assert(forall|j: int| 0 <= j < b.len() ==> b[j].0 != k);
    lemma_bucket_map_singleton((k, e.1 + ls));
    lemma_bucket_map_singleton(e);
    assert(spec_combine(
        spec_combine(bucket_map(a), Map::<u32, Seq<Seq<char>>>::empty().insert(k, e.1 + ls)),
        bucket_map(b),
    ) =~~= spec_append_bucket(
        spec_combine(
            spec_combine(bucket_map(a), Map::<u32, Seq<Seq<char>>>::empty().insert(k, e.1)),
            bucket_map(b),
        ),
        k,
        ls,
    ));
}

impl View for Svg {
    type V = Seq<(u32, Seq<Seq<char>>)>;

    closed spec fn view(&self) -> Seq<(u32, Seq<Seq<char>>)> {
        self.buckets.deep_view()
    }
}

fn pop_front(v: &mut Vec<(u32, Vec<String>)>) -> (b: (u32, Vec<String>))
    requires
        old(v)@.len() > 0,
    ensures
        b.deep_view() == old(v).deep_view()[0],
        final(v).deep_view() == old(v).deep_view().skip(1),
        final(v)@.len() == old(v)@.len() - 1,
{
    let b = v.remove(0);
    proof {
        assert(old(v).deep_view()[0] == old(v)@[0].deep_view());
        assert forall|t: int| 0 <= t < v@.len() implies v.deep_view()[t] == old(v).deep_view().skip(
            1,
        )[t] by {
            assert(v@[t] == old(v)@[t + 1]);
            assert(old(v).deep_view()[t + 1] == old(v)@[t + 1].deep_view());
        }
        assert(v.deep_view() =~= old(v).deep_view().skip(1));
    }
    b
}

fn push_back(v: &mut Vec<(u32, Vec<String>)>, b: (u32, Vec<String>))
    ensures
        final(v).deep_view() == old(v).deep_view().push(b.deep_view()),
{
    let ghost bd = b.deep_view();
    v.push(b);
    proof {
        assert forall|t: int| 0 <= t < v@.len() implies v.deep_view()[t] == old(
            v,
        ).deep_view().push(bd)[t] by {
            if t < v@.len() - 1 {
                assert(v@[t] == old(v)@[t]);
                assert(old(v).deep_view()[t] == old(v)@[t].deep_view());
            } else {
                assert(v@[t] == old(v)@.push(b)[t]);
            }
        }
        assert(v.deep_view() =~= old(v).deep_view().push(bd));
    }
}

fn append_lines(a: &mut Vec<String>, b: &mut Vec<String>)
    ensures
        final(a).deep_view() == old(a).deep_view() + old(b).deep_view(),
{
    a.append(b);
    proof {
        assert forall|t: int| 0 <= t < a@.len() implies a.deep_view()[t] == (old(a).deep_view()
            + old(b).deep_view())[t] by {
            if t < old(a)@.len() {
                assert(a@[t] == old(a)@[t]);
                assert(old(a).deep_view()[t] == old(a)@[t].deep_view());
            } else {
                assert(a@[t] == old(b)@[t - old(a)@.len()]);
                assert(old(b).deep_view()[t - old(a)@.len()] == old(b)@[t - old(
                    a,
                )@.len()].deep_view());
            }
        }
        assert(a.deep_view() =~= old(a).deep_view() + old(b).deep_view());
    }
}

impl Svg {
    #[verifier::type_invariant]
    spec fn wf(self) -> bool {
        sorted_by_prio(self.buckets.deep_view())
    }

    /// The empty accumulator.
    pub fn new() -> (r: Svg)
        ensures
            r@ == Seq::<(u32, Seq<Seq<char>>)>::empty(),
            bucket_map(r@) == Map::<u32, Seq<Seq<char>>>::empty(),
    {
        let r = Svg { buckets: Vec::new() };
        proof {
            assert(r@ =~= Seq::<(u32, Seq<Seq<char>>)>::empty());
        }
        r
    }

    /// An accumulator holding a single primitive at one priority.
    pub fn one(prio: u32, svg_line: String) -> (r: Svg)
        ensures
            r@ == seq![(prio, seq![svg_line@])],
    {
        let ghost l = svg_line@;
        let mut lines: Vec<String> = Vec::new();
        lines.push(svg_line);
        let mut buckets: Vec<(u32, Vec<String>)> = Vec::new();
        buckets.push((prio, lines));
        let r = Svg { buckets };
        proof {
            assert(r@ =~~= seq![(prio, seq![l])]);
        }
        r
    }

    /// Appends a whole group of primitives at one priority, after that
    /// bucket's existing primitives and in the group's order.
    #[verifier::rlimit(80)]
    pub fn append_lines(&mut self, prio: u32, lines: Vec<String>)
        ensures
            bucket_map(final(self)@) == spec_append_bucket(
                bucket_map(old(self)@),
                prio,
                lines.deep_view(),
            ),
    {
        proof {
            use_type_invariant(&*self);
        }
        let ghost orig = self.buckets.deep_view();
        let ghost ls = lines.deep_view();
        let mut rest: Vec<(u32, Vec<String>)> = Vec::new();
        core::mem::swap(&mut rest, &mut self.buckets);
        let mut out: Vec<(u32, Vec<String>)> = Vec::new();
        proof {
            assert(out.deep_view() =~= orig.take(0));
            assert(rest.deep_view() =~= orig.skip(0));
        }
        while rest.len() > 0 && rest[0].0 < prio
            invariant
                out.len() + rest.len() == orig.len(),
                out.deep_view() == orig.take(out.len() as int),
                rest.deep_view() == orig.skip(out.len() as int),
                forall|j: int| 0 <= j < out.len() ==> orig[j].0 < prio,
            decreases rest.len(),
        {
            let ghost k = out.len() as int;
            proof {
                assert(rest.deep_view()[0] == orig[k]);
                assert(rest.deep_view()[0].0 == rest@[0].0.deep_view());
            }
            let b = pop_front(&mut rest);
            push_back(&mut out, b);
            proof {
                assert(out.deep_view() =~= orig.take(k + 1));
                assert(rest.deep_view() =~= orig.skip(k + 1));
            }
        }
        let ghost gi = out.len() as int;
        proof {
            if rest.len() > 0 {
                assert(rest.deep_view()[0] == orig[gi]);
                assert(rest.deep_view()[0].0 == rest@[0].0);
            }
        }
        let ghost merged = gi < orig.len() && orig[gi].0 == prio;
        let ghost target: Seq<(u32, Seq<Seq<char>>)> = if merged {
            orig.take(gi) + seq![(prio, orig[gi].1 + ls)] + orig.skip(gi + 1)
        } else {
            orig.take(gi) + seq![(prio, ls)] + orig.skip(gi)
        };
        if rest.len() > 0 && rest[0].0 == prio {
            let mut b = pop_front(&mut rest);
            let mut more = lines;
            append_lines(&mut b.1, &mut more);
            proof {
                assert(b.deep_view() == (prio, orig[gi].1 + ls));
            }
            push_back(&mut out, b);
            proof {
                assert(out.deep_view() =~= target.take(gi + 1));
                assert(rest.deep_view() =~= target.skip(gi + 1));
            }
        } else {
            push_back(&mut out, (prio, lines));
            proof {
                assert(out.deep_view() =~= target.take(gi + 1));
                assert(rest.deep_view() =~= target.skip(gi + 1));
            }
        }
        while rest.len() > 0
            invariant
                gi + 1 <= out.len() <= target.len(),
                out.len() + rest.len() == target.len(),
                out.deep_view() == target.take(out.len() as int),
                rest.deep_view() == target.skip(out.len() as int),
            decreases rest.len(),
        {
            let ghost k = out.len() as int;
            proof {
                assert(rest.deep_view()[0] == target[k]);
            }
            let b = pop_front(&mut rest);
            push_back(&mut out, b);
            proof {
                assert(out.deep_view() =~= target.take(k + 1));
                assert(rest.deep_view() =~= target.skip(k + 1));
            }
        }
        proof {
            assert(out.deep_view() =~= target);
            if merged {
                assert(forall|j: int| 0 <= j < orig.len() && j != gi ==> orig[j].0 != orig[gi].0);
                lemma_bucket_map_merge_at(orig, gi, ls);
                assert forall|i: int, j: int| 0 <= i < j < target.len() implies target[i].0
                    < target[j].0 by {
                    assert(target[i] == if i < gi {
                        orig[i]
                    } else if i == gi {
                        (prio, orig[gi].1 + ls)
                    } else {
                        orig[i]
                    });
                    assert(target[j] == if j < gi {
                        orig[j]
                    } else if j == gi {
                        (prio, orig[gi].1 + ls)
                    } else {
                        orig[j]
                    });
                }
            } else {
                assert(forall|j: int| gi <= j < orig.len() ==> orig[j].0 > prio);
                assert(forall|j: int| 0 <= j < orig.len() ==> orig[j].0 != prio);
                lemma_bucket_map_insert_at(orig, gi, prio, ls);
                assert forall|i: int, j: int| 0 <= i < j < target.len() implies target[i].0
                    < target[j].0 by {
                    assert(target[i] == if i < gi {
                        orig[i]
                    } else if i == gi {
                        (prio, ls)
                    } else {
                        orig[i - 1]
                    });
                    assert(target[j] == if j < gi {
                        orig[j]
                    } else if j == gi {
                        (prio, ls)
                    } else {
                        orig[j - 1]
                    });
                }
            }
            assert(sorted_by_prio(target));
        }
        self.buckets = out;
    }

    /// Appends one primitive at a priority, after that bucket's existing
    /// primitives.
    pub fn append_line(&mut self, prio: u32, svg_line: String)
        ensures
            bucket_map(final(self)@) == spec_append(bucket_map(old(self)@), prio, svg_line@),
    {
        let ghost l = svg_line@;
        let mut lines: Vec<String> = Vec::new();
        lines.push(svg_line);
        proof {
            assert(lines.deep_view() =~= seq![l]);
        }
        self.append_lines(prio, lines);
        proof {
            assert(spec_append_bucket(bucket_map(old(self)@), prio, seq![l]) =~~= spec_append(
                bucket_map(old(self)@),
                prio,
                l,
            ));
        }
    }

    /// Merges another accumulator into this one: every primitive of both is
    /// kept, grouped by priority, this accumulator's lines first within a
    /// shared bucket.
    pub fn combine(self, other: Svg) -> (r: Svg)
        ensures
            bucket_map(r@) == spec_combine(bucket_map(self@), bucket_map(other@)),
    {
        let ghost sm = bucket_map(self@);
        let mut acc = self;
        let mut o = other;
        let mut rest: Vec<(u32, Vec<String>)> = Vec::new();
        core::mem::swap(&mut rest, &mut o.buckets);
        let ghost ob = rest.deep_view();
        let ghost total = ob.len() as int;
        proof {
            assert(ob.take(0) =~= Seq::<(u32, Seq<Seq<char>>)>::empty());
            assert(bucket_map(acc@) =~~= spec_combine(sm, bucket_map(ob.take(0))));
            assert(rest.deep_view() =~= ob.skip(0));
        }
        while rest.len() > 0
            invariant
                rest.len() <= total,
                total == ob.len(),
                rest.deep_view() == ob.skip(total - rest.len() as int),
                bucket_map(acc@) == spec_combine(
                    sm,
                    bucket_map(ob.take(total - rest.len() as int)),
                ),
            decreases rest.len(),
        {
            let ghost k = total - rest.len() as int;
            proof {
                assert(rest.deep_view()[0] == ob[k]);
            }
            let b = pop_front(&mut rest);
            proof {
                assert(b.deep_view() == ob[k]);
                assert(rest.deep_view() =~= ob.skip(k + 1));
            }
            acc.append_lines(b.0, b.1);
            proof {
                lemma_combine_append_bucket(sm, bucket_map(ob.take(k)), ob[k].0, ob[k].1);
                assert(ob.take(k + 1).drop_last() =~= ob.take(k));
                assert(ob.take(k + 1).last() == ob[k]);
            }
        }
        proof {
            assert(ob.take(total) =~= ob);
        }
        acc
    }

    /// The priorities that hold at least one primitive, in the strictly
    /// ascending order the buckets are emitted in.
    pub fn priorities(&self) -> (r: Vec<u32>)
        ensures
            r@.len() == self@.len(),
            forall|i: int| 0 <= i < r@.len() ==> r@[i] == self@[i].0,
            sorted_by_prio(self@),
    {
        proof {
            use_type_invariant(self);
        }
        let mut r: Vec<u32> = Vec::new();
        let n = self.buckets.len();
        let mut i: usize = 0;
        while i < n
            invariant
                i <= n,
                n == self.buckets.len(),
                r@.len() == i,
                forall|j: int| 0 <= j < i ==> r@[j] == self@[j].0,
            decreases n - i,
        {
            r.push(self.buckets[i].0);
            proof {
                assert(self@[i as int].0 == self.buckets@[i as int].0);
            }
            i += 1;
        }
        r
    }

    /// Emits every primitive, one per line: buckets in strictly ascending
    /// priority order, and within a bucket in the order the primitives were
    /// appended.
    pub fn render_lines(&self) -> (s: String)
        ensures
            s@ == spec_render(self@),
            sorted_by_prio(self@),
    {
        proof {
            use_type_invariant(self);
        }
        let mut s = String::new();
        let n = self.buckets.len();
        proof {
            assert(self@.take(0) =~= Seq::<(u32, Seq<Seq<char>>)>::empty());
        }
        let mut i: usize = 0;
        while i < n
            invariant
                i <= n,
                n == self.buckets.len(),
                s@ == spec_render(self@.take(i as int)),
            decreases n - i,
        {
            let m = self.buckets[i].1.len();
            let mut j: usize = 0;
            proof {
                assert(self@[i as int].1.take(0) =~= Seq::<Seq<char>>::empty());
                assert(s@ =~= spec_render(self@.take(i as int)) + spec_bucket_text(
                    self@[i as int].1.take(0),
                ));
            }
            while j < m
                invariant
                    i < n,
                    n == self.buckets.len(),
                    j <= m,
                    m == self.buckets@[i as int].1.len(),
                    s@ == spec_render(self@.take(i as int)) + spec_bucket_text(
                        self@[i as int].1.take(j as int),
                    ),
                decreases m - j,
            {
                s.append(self.buckets[i].1[j].as_str());
                s.append("\n");
                proof {
                    assert(self@[i as int].1[j as int] == self.buckets@[i as int].1@[j as int]@);
                    assert(self@[i as int].1.take(j + 1).drop_last() =~= self@[i as int].1.take(
                        j as int,
                    ));
                    assert(self@[i as int].1.take(j + 1).last() == self@[i as int].1[j as int]);
                    assert(s@ =~= spec_render(self@.take(i as int)) + spec_bucket_text(
                        self@[i as int].1.take(j + 1),
                    ));
                }
                j += 1;
            }
            proof {
                assert(self@[i as int].1.take(m as int) =~= self@[i as int].1);
                assert(self@.take(i + 1).drop_last() =~= self@.take(i as int));
                assert(self@.take(i + 1).last() == self@[i as int]);
                assert(s@ =~= spec_render(self@.take(i + 1)));
            }
            i += 1;
        }
        proof {
            assert(self@.take(n as int) =~= self@);
        }
        s
    }
}

/// Law: merging accumulators is associative at the level of the mapping
/// from priority to primitive lines, so any pairwise merge order over the
/// same partial accumulators yields the same grouping.
pub proof fn lemma_svg_combine_associative(
    a: Map<u32, Seq<Seq<char>>>,
    b: Map<u32, Seq<Seq<char>>>,
    c: Map<u32, Seq<Seq<char>>>,
)
    ensures
        spec_combine(spec_combine(a, b), c) == spec_combine(a, spec_combine(b, c)),
{
    assert(spec_combine(spec_combine(a, b), c) =~~= spec_combine(a, spec_combine(b, c)));
}

} // verus!

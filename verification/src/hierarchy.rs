//! Hierarchies of progress bars: how many bars a bar stands for, and on
//! which line of the rendered output each one is drawn.
use vstd::prelude::*;
use crate::state::{wrapping_add, saturating_sub, add_wrapping};

verus! {

/// A bar of a hierarchy: whether it is hidden, whether it is linked to its
/// parent (so that a change to its position reaches the parent too), its
/// position, and its children in the order they were added.
pub struct BarNode {
    pub hidden: bool,
    pub linked: bool,
    pub position: u64,
    pub children: Vec<BarNode>,
}

/// The number of bars in a forest, each counted with all its descendants.
pub open spec fn forest_size(f: Seq<BarNode>) -> nat
    decreases f,
{
    if f.len() == 0 {
        0
    } else {
        proof {
            assert(decreases_to!(f => f[0]));
            assert(decreases_to!(f[0] => f[0].children));
            assert(decreases_to!(f[0].children => f[0].children@));
        }
        1 + forest_size(f[0].children@) + forest_size(f.skip(1))
    }
}

/// The number of bars of a forest that are drawn: those not hidden, at any
/// depth (a hidden bar's children are drawn all the same).
pub open spec fn forest_visible(f: Seq<BarNode>) -> nat
    decreases f,
{
    if f.len() == 0 {
        0
    } else {
        proof {
            assert(decreases_to!(f => f[0]));
            assert(decreases_to!(f[0] => f[0].children));
            assert(decreases_to!(f[0].children => f[0].children@));
        }
        (if f[0].hidden { 0nat } else { 1nat }) + forest_visible(f[0].children@) + forest_visible(f.skip(1))
    }
}


/// The number of bars a bar stands for: itself and all its descendants.
pub open spec fn descendants(t: BarNode) -> nat {
    1 + forest_size(t.children@)
}

/// The number of drawn bars among a bar and all its descendants.
pub open spec fn visible_descendants(t: BarNode) -> nat {
    (if t.hidden { 0nat } else { 1nat }) + forest_visible(t.children@)
}

/// A path of child indices as integers.
pub open spec fn int_path(p: Seq<usize>) -> Seq<int> {
    p.map_values(|x: usize| x as int)
}

/// Whether each index of the path names a child, going down from `t`.
pub open spec fn valid_path(t: BarNode, p: Seq<int>) -> bool
    decreases p.len(),
{
    p.len() == 0 || (0 <= p[0] < t.children@.len() && valid_path(t.children@[p[0]], p.skip(1)))
}

/// The bar at the end of a path from `t`.
pub open spec fn node_at(t: BarNode, p: Seq<int>) -> BarNode
    decreases p.len(),
{
    if p.len() == 0 { t } else { node_at(t.children@[p[0]], p.skip(1)) }
}

/// The line on which the bar at the end of a path is drawn, counted from
/// `t`'s first line: for each bar on the way down, its own line if it is
/// drawn and the lines of the siblings that come before the next bar.
pub open spec fn abs_index(t: BarNode, p: Seq<int>) -> nat
    decreases p.len(),
{
    if p.len() == 0 {
        0
    } else {
        (if t.hidden { 0nat } else { 1nat }) + forest_visible(t.children@.take(p[0])) + abs_index(
            t.children@[p[0]],
            p.skip(1),
        )
    }
}

/// The paths of the drawn bars under `t`, in the order they are drawn: a
/// bar's own line, then its children's lines.
pub open spec fn lines(t: BarNode) -> Seq<Seq<int>>
    decreases t,
{
    proof {
        assert(decreases_to!(t => t.children));
        assert(decreases_to!(t.children => t.children@));
    }
    (if t.hidden { Seq::empty() } else { seq![Seq::<int>::empty()] }) + forest_lines(t.children@, 0)
}

/// The lines of the trees of a forest whose first tree is child `s`.
pub open spec fn forest_lines(f: Seq<BarNode>, s: int) -> Seq<Seq<int>>
    decreases f,
{
    if f.len() == 0 {
        Seq::empty()
    } else {
        proof {
            assert(decreases_to!(f => f[0]));
        }
        lines(f[0]).map_values(|x: Seq<int>| seq![s] + x) + forest_lines(f.skip(1), s + 1)
    }
}

proof fn lemma_forest_split(a: Seq<BarNode>, b: Seq<BarNode>)
    ensures
        forest_size(a + b) == forest_size(a) + forest_size(b),
        forest_visible(a + b) == forest_visible(a) + forest_visible(b),
    decreases a.len(),
{
    if a.len() > 0 {
        assert((a + b)[0] == a[0]);
        assert((a + b).skip(1) =~= a.skip(1) + b);
        lemma_forest_split(a.skip(1), b);
    } else {
        assert(a + b =~= b);
    }
}

proof fn lemma_forest_prefix(f: Seq<BarNode>, i: int)
    requires
        0 <= i < f.len(),
    ensures
        forest_size(f.take(i + 1)) == forest_size(f.take(i)) + descendants(f[i]),
        forest_visible(f.take(i + 1)) == forest_visible(f.take(i)) + visible_descendants(f[i]),
        forest_size(f.take(i + 1)) <= forest_size(f),
        forest_visible(f.take(i + 1)) <= forest_visible(f),
{
    let one = seq![f[i]];
    assert(f.take(i + 1) =~= f.take(i) + one);
    lemma_forest_split(f.take(i), one);
    assert(one.skip(1) =~= Seq::<BarNode>::empty());
    assert(one[0] == f[i]);
    assert(forest_size(one.skip(1)) == 0);
    assert(forest_visible(one.skip(1)) == 0);
    assert(forest_size(one) == descendants(f[i]));
    assert(forest_visible(one) == visible_descendants(f[i]));
    assert(f =~= f.take(i + 1) + f.skip(i + 1));
    lemma_forest_split(f.take(i + 1), f.skip(i + 1));
}

/// Law: among a bar and its descendants, the drawn bars never outnumber the
/// bars.
pub proof fn law_visible_within_descendants(t: BarNode)
    ensures
        visible_descendants(t) <= descendants(t),
{
    lemma_visible_le_size(t.children@);
}

proof fn lemma_visible_le_size(f: Seq<BarNode>)
    ensures
        forest_visible(f) <= forest_size(f),
    decreases f,
{
    if f.len() > 0 {
        assert(decreases_to!(f => f[0]));
        assert(decreases_to!(f[0] => f[0].children));
        assert(decreases_to!(f[0].children => f[0].children@));
        lemma_visible_le_size(f[0].children@);
        lemma_visible_le_size(f.skip(1));
    }
}


proof fn lemma_lines_len(t: BarNode)
    ensures
        lines(t).len() == visible_descendants(t),
    decreases t,
{
    assert(decreases_to!(t => t.children));
    assert(decreases_to!(t.children => t.children@));
    lemma_forest_lines_len(t.children@, 0);
}

proof fn lemma_forest_lines_len(f: Seq<BarNode>, s: int)
    ensures
        forest_lines(f, s).len() == forest_visible(f),
    decreases f,
{
    if f.len() > 0 {
        assert(decreases_to!(f => f[0]));
        lemma_lines_len(f[0]);
        lemma_forest_lines_len(f.skip(1), s + 1);
    }
}

/// Law: a bar's output has one line for each drawn bar among it and its
/// descendants.
pub proof fn law_line_count(t: BarNode)
    ensures
        lines(t).len() == visible_descendants(t),
{
    lemma_lines_len(t);
}

/// Line `x` of tree `j` of a forest, among the forest's lines.
proof fn lemma_forest_line_at(f: Seq<BarNode>, s: int, j: int, x: int)
    requires
        0 <= j < f.len(),
        0 <= x < lines(f[j]).len(),
    ensures
        forest_visible(f.take(j)) + x < forest_lines(f, s).len(),
        forest_lines(f, s)[forest_visible(f.take(j)) + x] == seq![s + j] + lines(f[j])[x],
    decreases j,
{
    let m = lines(f[0]).map_values(|y: Seq<int>| seq![s] + y);
    let r = forest_lines(f.skip(1), s + 1);
    assert(forest_lines(f, s) == m + r);
    lemma_forest_lines_len(f.skip(1), s + 1);
    if j == 0 {
        assert(f.take(0) =~= Seq::<BarNode>::empty());
        assert(forest_visible(f.take(0)) == 0);
    } else {
        lemma_forest_line_at(f.skip(1), s + 1, j - 1, x);
        assert(f.skip(1)[j - 1] == f[j]);
        let fj = f.take(j);
        assert(fj[0] == f[0]);
        assert(fj.skip(1) =~= f.skip(1).take(j - 1));
        assert(forest_visible(fj) == visible_descendants(f[0]) + forest_visible(f.skip(1).take(j - 1)));
        lemma_lines_len(f[0]);
    }
}

/// Law: the absolute index of a drawn bar is the line it is drawn on: in
/// the output of the bar at the top, that line belongs to the bar at the
/// end of the path.
pub proof fn law_absolute_index_is_line(t: BarNode, p: Seq<int>)
    requires
        valid_path(t, p),
        !node_at(t, p).hidden,
    ensures
        abs_index(t, p) < lines(t).len(),
        lines(t)[abs_index(t, p) as int] == p,
    decreases p.len(),
{
    let own = (if t.hidden { Seq::<Seq<int>>::empty() } else { seq![Seq::<int>::empty()] });
    let fl = forest_lines(t.children@, 0);
    assert(lines(t) == own + fl);
    if p.len() == 0 {
        assert(p =~= Seq::<int>::empty());
    } else {
        let j = p[0];
        let c = t.children@[j];
        let r = p.skip(1);
        law_absolute_index_is_line(c, r);
        lemma_forest_line_at(t.children@, 0, j, abs_index(c, r) as int);
        assert(seq![j] + r =~= p);
    }
}


/// Every bar under `t` in pre-order (each bar, then its children in
/// order), as its path and whether it is hidden.
pub open spec fn bars(t: BarNode) -> Seq<(Seq<int>, bool)>
    decreases t,
{
    proof {
        assert(decreases_to!(t => t.children));
        assert(decreases_to!(t.children => t.children@));
    }
    seq![(Seq::<int>::empty(), t.hidden)] + forest_bars(t.children@, 0)
}

/// The bars of the trees of a forest whose first tree is child `s`.
pub open spec fn forest_bars(f: Seq<BarNode>, s: int) -> Seq<(Seq<int>, bool)>
    decreases f,
{
    if f.len() == 0 {
        Seq::empty()
    } else {
        proof {
            assert(decreases_to!(f => f[0]));
        }
        prefixed_bars(bars(f[0]), s) + forest_bars(f.skip(1), s + 1)
    }
}

/// Bars with child index `s` put in front of each path.
pub open spec fn prefixed_bars(bs: Seq<(Seq<int>, bool)>, s: int) -> Seq<(Seq<int>, bool)> {
    bs.map_values(|b: (Seq<int>, bool)| (seq![s] + b.0, b.1))
}

/// How many of the bars are drawn (not hidden).
pub open spec fn shown(bs: Seq<(Seq<int>, bool)>) -> nat
    decreases bs.len(),
{
    if bs.len() == 0 {
        0
    } else {
        shown(bs.drop_last()) + (if bs.last().1 { 0nat } else { 1nat })
    }
}

/// The place of the bar at the end of a path in the pre-order of `t`.
pub open spec fn pre_index(t: BarNode, p: Seq<int>) -> nat
    decreases p.len(),
{
    if p.len() == 0 {
        0
    } else {
        1 + forest_size(t.children@.take(p[0])) + pre_index(t.children@[p[0]], p.skip(1))
    }
}

proof fn lemma_shown_split(a: Seq<(Seq<int>, bool)>, b: Seq<(Seq<int>, bool)>)
    ensures
        shown(a + b) == shown(a) + shown(b),
    decreases b.len(),
{
    if b.len() == 0 {
        assert(a + b =~= a);
    } else {
        lemma_shown_split(a, b.drop_last());
        assert((a + b).drop_last() =~= a + b.drop_last());
        assert((a + b).last() == b.last());
    }
}

proof fn lemma_shown_prefixed(bs: Seq<(Seq<int>, bool)>, s: int)
    ensures
        shown(prefixed_bars(bs, s)) == shown(bs),
        prefixed_bars(bs, s).len() == bs.len(),
    decreases bs.len(),
{
    if bs.len() > 0 {
        lemma_shown_prefixed(bs.drop_last(), s);
        assert(prefixed_bars(bs, s).drop_last() =~= prefixed_bars(bs.drop_last(), s));
    }
}

proof fn lemma_bars_counts(t: BarNode)
    ensures
        bars(t).len() == descendants(t),
        shown(bars(t)) == visible_descendants(t),
    decreases t,
{
    assert(decreases_to!(t => t.children));
    assert(decreases_to!(t.children => t.children@));
    lemma_forest_bars_counts(t.children@, 0);
    let head = seq![(Seq::<int>::empty(), t.hidden)];
    lemma_shown_split(head, forest_bars(t.children@, 0));
    assert(head.drop_last() =~= Seq::<(Seq<int>, bool)>::empty());
    assert(shown(head.drop_last()) == 0);
    assert(shown(head) == (if t.hidden { 0nat } else { 1nat }));
}

proof fn lemma_forest_bars_counts(f: Seq<BarNode>, s: int)
    ensures
        forest_bars(f, s).len() == forest_size(f),
        shown(forest_bars(f, s)) == forest_visible(f),
    decreases f,
{
    if f.len() > 0 {
        assert(decreases_to!(f => f[0]));
        lemma_bars_counts(f[0]);
        lemma_forest_bars_counts(f.skip(1), s + 1);
        lemma_shown_prefixed(bars(f[0]), s);
        lemma_shown_split(prefixed_bars(bars(f[0]), s), forest_bars(f.skip(1), s + 1));
    }
}

/// Bar `x` of tree `j` of a forest, among the forest's bars, and the drawn
/// bars before it.
proof fn lemma_forest_bar_at(f: Seq<BarNode>, s: int, j: int, x: int)
    requires
        0 <= j < f.len(),
        0 <= x < bars(f[j]).len(),
    ensures
        forest_size(f.take(j)) + x < forest_bars(f, s).len(),
        forest_bars(f, s)[forest_size(f.take(j)) + x] == (seq![s + j] + bars(f[j])[x].0, bars(f[j])[x].1),
        shown(forest_bars(f, s).take(forest_size(f.take(j)) + x)) == forest_visible(f.take(j)) + shown(
            bars(f[j]).take(x),
        ),
    decreases j,
{
    let m = prefixed_bars(bars(f[0]), s);
    let r = forest_bars(f.skip(1), s + 1);
    assert(forest_bars(f, s) == m + r);
    lemma_forest_bars_counts(f.skip(1), s + 1);
    lemma_bars_counts(f[0]);
    lemma_shown_prefixed(bars(f[0]), s);
    if j == 0 {
        assert(f.take(0) =~= Seq::<BarNode>::empty());
        assert(forest_size(f.take(0)) == 0 && forest_visible(f.take(0)) == 0);
        assert((m + r).take(x) =~= prefixed_bars(bars(f[0]).take(x), s));
        lemma_shown_prefixed(bars(f[0]).take(x), s);
    } else {
        lemma_forest_bar_at(f.skip(1), s + 1, j - 1, x);
        assert(f.skip(1)[j - 1] == f[j]);
        let fj = f.take(j);
        assert(fj[0] == f[0]);
        assert(fj.skip(1) =~= f.skip(1).take(j - 1));
        assert(forest_size(fj) == descendants(f[0]) + forest_size(f.skip(1).take(j - 1)));
        assert(forest_visible(fj) == visible_descendants(f[0]) + forest_visible(f.skip(1).take(j - 1)));
        let y = forest_size(f.skip(1).take(j - 1)) + x;
        assert((m + r).take(m.len() + y) =~= m + r.take(y));
        lemma_shown_split(m, r.take(y));
    }
}

/// Whether each entry of a forest's bars names a bar of the forest (tree
/// `q[0] - s` and a path under it) with its own hidden flag.
pub open spec fn forest_bars_ok(f: Seq<BarNode>, s: int) -> bool {
    forall|k: int|
        #![trigger forest_bars(f, s)[k]]
        0 <= k < forest_bars(f, s).len() ==> {
            let q = forest_bars(f, s)[k].0;
            &&& q.len() >= 1
            &&& s <= q[0] < s + f.len()
            &&& valid_path(f[q[0] - s], q.skip(1))
            &&& forest_bars(f, s)[k].1 == node_at(f[q[0] - s], q.skip(1)).hidden
        }
}

/// Law: the pre-order lists every bar under `t` by a valid path, with the
/// bar's own hidden flag.
pub proof fn law_bars_are_the_bars(t: BarNode)
    ensures
        forall|k: int|
            #![trigger bars(t)[k]]
            0 <= k < bars(t).len() ==> valid_path(t, bars(t)[k].0) && bars(t)[k].1 == node_at(t, bars(t)[k].0).hidden,
    decreases t,
{
    assert(decreases_to!(t => t.children));
    assert(decreases_to!(t.children => t.children@));
    lemma_forest_bars_ok(t.children@, 0);
    let head = seq![(Seq::<int>::empty(), t.hidden)];
    let fb = forest_bars(t.children@, 0);
    assert(bars(t) == head + fb);
    assert forall|k: int| 0 <= k < bars(t).len() implies valid_path(t, #[trigger] bars(t)[k].0) && bars(t)[k].1 == node_at(
        t,
        bars(t)[k].0,
    ).hidden by {
        if k == 0 {
            assert(bars(t)[0].0 == Seq::<int>::empty());
        } else {
            assert(bars(t)[k] == fb[k - 1]);
            let q = fb[k - 1].0;
            assert(valid_path(t.children@[q[0]], q.skip(1)));
        }
    }
}

proof fn lemma_forest_bars_ok(f: Seq<BarNode>, s: int)
    ensures
        forest_bars_ok(f, s),
    decreases f,
{
    if f.len() > 0 {
        assert(decreases_to!(f => f[0]));
        law_bars_are_the_bars(f[0]);
        lemma_forest_bars_ok(f.skip(1), s + 1);
        let m = prefixed_bars(bars(f[0]), s);
        let r = forest_bars(f.skip(1), s + 1);
        assert(forest_bars(f, s) == m + r);
        lemma_shown_prefixed(bars(f[0]), s);
        assert forall|k: int| 0 <= k < forest_bars(f, s).len() implies {
            let q = (#[trigger] forest_bars(f, s)[k]).0;
            &&& q.len() >= 1
            &&& s <= q[0] < s + f.len()
            &&& valid_path(f[q[0] - s], q.skip(1))
            &&& forest_bars(f, s)[k].1 == node_at(f[q[0] - s], q.skip(1)).hidden
        } by {
            if k < m.len() {
                let b = bars(f[0])[k];
                assert(forest_bars(f, s)[k] == (seq![s] + b.0, b.1));
                assert((seq![s] + b.0).skip(1) =~= b.0);
            } else {
                assert(forest_bars(f, s)[k] == r[k - m.len()]);
                let q = r[k - m.len()].0;
                assert(f.skip(1)[q[0] - (s + 1)] == f[q[0] - s]);
            }
        }
    } else {
        assert(forest_bars_ok(f, s));
    }
}

/// Law: the absolute index of any bar, drawn or hidden, is the number of
/// drawn bars that come before it in the pre-order of the topmost bar (each
/// bar before its children, children in the order they were added).
pub proof fn law_absolute_index_counts_drawn_bars(t: BarNode, p: Seq<int>)
    requires
        valid_path(t, p),
    ensures
        pre_index(t, p) < bars(t).len(),
        bars(t)[pre_index(t, p) as int] == (p, node_at(t, p).hidden),
        abs_index(t, p) == shown(bars(t).take(pre_index(t, p) as int)),
    decreases p.len(),
{
    let head = seq![(Seq::<int>::empty(), t.hidden)];
    let fb = forest_bars(t.children@, 0);
    assert(bars(t) == head + fb);
    if p.len() == 0 {
        assert(p =~= Seq::<int>::empty());
        assert(bars(t).take(0) =~= Seq::<(Seq<int>, bool)>::empty());
    } else {
        let j = p[0];
        let c = t.children@[j];
        let r = p.skip(1);
        law_absolute_index_counts_drawn_bars(c, r);
        let kc = pre_index(c, r) as int;
        lemma_forest_bar_at(t.children@, 0, j, kc);
        assert(seq![0 + j] + r =~= p);
        let y = forest_size(t.children@.take(j)) + kc;
        assert(bars(t).take(1 + y) =~= head + fb.take(y));
        lemma_shown_split(head, fb.take(y));
        assert(head.drop_last() =~= Seq::<(Seq<int>, bool)>::empty());
        assert(shown(head.drop_last()) == 0);
        assert(shown(head) == (if t.hidden { 0nat } else { 1nat }));
        assert(pre_index(t, p) == 1 + y);
        assert(abs_index(t, p) == (if t.hidden { 0nat } else { 1nat }) + forest_visible(t.children@.take(j)) + abs_index(c, r));
    }
}

/// Law: adding a child puts it after the existing children, so that its
/// place among them counted from 1 is one more than the number there were;
/// the parent then stands for its own bars and the child's, its drawn bars
/// grow by the child's, and the child's line comes right after the lines the
/// parent had.
pub proof fn law_add_child(a: BarNode, b: BarNode, c: BarNode)
    requires
        b.hidden == a.hidden,
        b.children@ == a.children@.push(c),
    ensures
        b.children@.len() == a.children@.len() + 1,
        valid_path(b, seq![a.children@.len() as int]),
        node_at(b, seq![a.children@.len() as int]) == c,
        descendants(b) == descendants(a) + descendants(c),
        visible_descendants(b) == visible_descendants(a) + visible_descendants(c),
        abs_index(b, seq![a.children@.len() as int]) == visible_descendants(a),
{
    let n = a.children@.len() as int;
    let f = b.children@;
    let p = seq![n];
    lemma_forest_prefix(f, n);
    assert(f.take(n + 1) =~= f);
    assert(f.take(n) =~= a.children@);
    assert(p.skip(1) =~= Seq::<int>::empty());
    assert(valid_path(f[n], p.skip(1)));
    assert(node_at(b, p) == node_at(f[n], p.skip(1)));
    assert(abs_index(f[n], p.skip(1)) == 0);
}

/// Law: among the ids of a parent's children, with the id of a newly added
/// child last and nowhere before, the place found for that id (as
/// `parent_index` describes it) is the number of children before it plus 1.
pub proof fn law_added_child_index(ids: Seq<usize>, id: usize, k: int)
    requires
        !ids.contains(id),
        1 <= k <= ids.len() + 1,
        ids.push(id)[k - 1] == id,
    ensures
        k == ids.len() + 1,
        ids.push(id).contains(id),
{
    if k <= ids.len() {
        assert(ids[k - 1] == id);
    }
    assert(ids.push(id)[ids.len() as int] == id);
}

/// A position after a change of `delta`: forward (wrapping at `u64::MAX`)
/// where `up` holds, back (stopping at 0) where it does not.
pub open spec fn moved(position: u64, delta: u64, up: bool) -> u64 {
    if up { wrapping_add(position, delta) } else { saturating_sub(position, delta) }
}

/// Whether a change to the bar at the end of path `r` reaches the bar at the
/// end of path `q`: `q` leads to the changed bar or one of its ancestors, and
/// every bar below that ancestor on the way down to the changed bar is linked
/// to its parent.
pub open spec fn reached(t: BarNode, r: Seq<int>, q: Seq<int>) -> bool {
    &&& q.len() <= r.len()
    &&& r.take(q.len() as int) == q
    &&& forall|j: int| q.len() < j <= r.len() ==> #[trigger] node_at(t, r.take(j)).linked
}

/// `b` is `a` after a change of `delta` to the bar at the end of `r`: every
/// bar keeps its place, its flags and its children, and the bars that the
/// change reaches have moved by `delta`, the others not at all.
pub open spec fn chain_changed(a: BarNode, b: BarNode, r: Seq<int>, delta: u64, up: bool) -> bool {
    &&& forall|q: Seq<int>| #[trigger] valid_path(b, q) ==> valid_path(a, q)
    &&& forall|q: Seq<int>|
        #![trigger valid_path(a, q)]
        #![trigger node_at(b, q)]
        valid_path(a, q) ==> {
            &&& valid_path(b, q)
            &&& node_at(b, q).hidden == node_at(a, q).hidden
            &&& node_at(b, q).linked == node_at(a, q).linked
            &&& node_at(b, q).children@.len() == node_at(a, q).children@.len()
            &&& node_at(b, q).position == (if reached(a, r, q) {
                moved(node_at(a, q).position, delta, up)
            } else {
                node_at(a, q).position
            })
        }
}

/// Whether every bar on the way down `r` from `t` is linked to its parent,
/// so that a change at the end of `r` climbs all the way to `t`.
spec fn chain_up(t: BarNode, r: Seq<int>) -> bool
    decreases r.len(),
{
    r.len() == 0 || (t.children@[r[0]].linked && chain_up(t.children@[r[0]], r.skip(1)))
}

/// `b` is `a` after the change, told one level at a time.
spec fn changed_along(a: BarNode, b: BarNode, r: Seq<int>, delta: u64, up: bool) -> bool
    decreases r.len(),
{
    &&& b.hidden == a.hidden
    &&& b.linked == a.linked
    &&& b.children@.len() == a.children@.len()
    &&& b.position == (if chain_up(a, r) { moved(a.position, delta, up) } else { a.position })
    &&& if r.len() == 0 {
        b.children@ == a.children@
    } else {
        &&& forall|i: int| 0 <= i < a.children@.len() && i != r[0] ==> b.children@[i] == a.children@[i]
        &&& changed_along(a.children@[r[0]], b.children@[r[0]], r.skip(1), delta, up)
    }
}

proof fn lemma_node_at_take(t: BarNode, r: Seq<int>, j: int)
    requires
        1 <= j <= r.len(),
    ensures
        node_at(t, r.take(j)) == node_at(t.children@[r[0]], r.skip(1).take(j - 1)),
{
    assert(r.take(j)[0] == r[0]);
    assert(r.take(j).skip(1) =~= r.skip(1).take(j - 1));
}

proof fn lemma_chain_up(t: BarNode, r: Seq<int>)
    ensures
        chain_up(t, r) <==> (forall|j: int| 0 < j <= r.len() ==> #[trigger] node_at(t, r.take(j)).linked),
    decreases r.len(),
{
    if r.len() > 0 {
        let c = t.children@[r[0]];
        lemma_chain_up(c, r.skip(1));
        lemma_node_at_take(t, r, 1);
        assert(r.skip(1).take(0) =~= Seq::<int>::empty());
        assert forall|j: int| 1 < j <= r.len() implies #[trigger] node_at(t, r.take(j)) == node_at(
            c,
            r.skip(1).take(j - 1),
        ) by {
            lemma_node_at_take(t, r, j);
        }
        if chain_up(t, r) {
            assert forall|j: int| 0 < j <= r.len() implies #[trigger] node_at(t, r.take(j)).linked by {
                if j > 1 {
                    assert(node_at(c, r.skip(1).take(j - 1)).linked);
                }
            }
        }
        if forall|j: int| 0 < j <= r.len() ==> #[trigger] node_at(t, r.take(j)).linked {
            assert forall|j: int| 0 < j <= r.skip(1).len() implies #[trigger] node_at(c, r.skip(1).take(j)).linked by {
                assert(node_at(t, r.take(j + 1)).linked);
            }
        }
    }
}

/// What `changed_along` says of one bar of the tree.
proof fn lemma_changed_at(a: BarNode, b: BarNode, r: Seq<int>, delta: u64, up: bool, q: Seq<int>)
    requires
        valid_path(a, r),
        changed_along(a, b, r, delta, up),
        valid_path(a, q) || valid_path(b, q),
    ensures
        valid_path(a, q),
        valid_path(b, q),
        node_at(b, q).hidden == node_at(a, q).hidden,
        node_at(b, q).linked == node_at(a, q).linked,
        node_at(b, q).children@.len() == node_at(a, q).children@.len(),
        node_at(b, q).position == (if reached(a, r, q) {
            moved(node_at(a, q).position, delta, up)
        } else {
            node_at(a, q).position
        }),
    decreases q.len(),
{
    if q.len() == 0 {
        lemma_chain_up(a, r);
        assert(r.take(0) =~= q);
    } else {
        let i = q[0];
        if r.len() == 0 || i != r[0] {
            assert(b.children@[i] == a.children@[i]);
            assert(node_at(b, q) == node_at(b.children@[i], q.skip(1)));
            if r.len() > 0 && q.len() <= r.len() {
                assert(r.take(q.len() as int)[0] == r[0]);
            }
            assert(!reached(a, r, q));
        } else {
            let ca = a.children@[i];
            let cb = b.children@[i];
            let rs = r.skip(1);
            let qs = q.skip(1);
            lemma_changed_at(ca, cb, rs, delta, up, qs);
            if q.len() <= r.len() {
                if r.take(q.len() as int) == q {
                    assert(rs.take(qs.len() as int) =~= qs) by {
                        assert forall|x: int| 0 <= x < qs.len() implies rs.take(qs.len() as int)[x] == qs[x] by {
                            assert(r.take(q.len() as int)[x + 1] == q[x + 1]);
                        }
                    }
                }
                if rs.take(qs.len() as int) == qs {
                    assert(r.take(q.len() as int) =~= q) by {
                        assert forall|x: int| 0 <= x < q.len() implies r.take(q.len() as int)[x] == q[x] by {
                            if x > 0 {
                                assert(rs.take(qs.len() as int)[x - 1] == qs[x - 1]);
                            }
                        }
                    }
                }
                assert forall|j: int| q.len() < j <= r.len() implies #[trigger] node_at(a, r.take(j)) == node_at(
                    ca,
                    rs.take(j - 1),
                ) by {
                    lemma_node_at_take(a, r, j);
                }
                if reached(ca, rs, qs) {
                    assert forall|j: int| q.len() < j <= r.len() implies #[trigger] node_at(a, r.take(j)).linked by {
                        assert(node_at(ca, rs.take(j - 1)).linked);
                    }
                }
                if reached(a, r, q) {
                    assert forall|j: int| qs.len() < j <= rs.len() implies #[trigger] node_at(ca, rs.take(j)).linked by {
                        assert(node_at(a, r.take(j + 1)).linked);
                    }
                }
            }
            assert(reached(a, r, q) == reached(ca, rs, qs));
        }
    }
}

/// A change told one level at a time reaches exactly the bars of the linked
/// chain (the bar, then each parent for as long as the bar below it is
/// linked), and leaves every other bar, and the shape of the tree, as they
/// were.
proof fn lemma_changed_along_is_chain(a: BarNode, b: BarNode, r: Seq<int>, delta: u64, up: bool)
    requires
        valid_path(a, r),
        changed_along(a, b, r, delta, up),
    ensures
        chain_changed(a, b, r, delta, up),
{
    assert forall|q: Seq<int>| #[trigger] valid_path(b, q) implies valid_path(a, q) by {
        lemma_changed_at(a, b, r, delta, up, q);
    }
    assert forall|q: Seq<int>| #[trigger] valid_path(a, q) implies {
        &&& valid_path(b, q)
        &&& node_at(b, q).hidden == node_at(a, q).hidden
        &&& node_at(b, q).linked == node_at(a, q).linked
        &&& node_at(b, q).children@.len() == node_at(a, q).children@.len()
        &&& node_at(b, q).position == (if reached(a, r, q) {
            moved(node_at(a, q).position, delta, up)
        } else {
            node_at(a, q).position
        })
    } by {
        lemma_changed_at(a, b, r, delta, up, q);
    }
}

fn moved_position(position: u64, delta: u64, up: bool) -> (r: u64)
    ensures
        r == moved(position, delta, up),
{
    if up {
        add_wrapping(position, delta)
    } else if delta <= position {
        position - delta
    } else {
        0
    }
}

/// Changes the bar at the end of `path[k..]` under `node`, and each bar above
/// it up to `node` for as long as the bar below is linked; tells whether the
/// change reached `node` itself.
fn change_below(node: &mut BarNode, path: &[usize], k: usize, delta: u64, up: bool) -> (top: bool)
    requires
        k <= path@.len(),
        valid_path(*old(node), int_path(path@).skip(k as int)),
    ensures
        top == chain_up(*old(node), int_path(path@).skip(k as int)),
        changed_along(*old(node), *final(node), int_path(path@).skip(k as int), delta, up),
    decreases path@.len() - k,
{
    let ghost a = *node;
    let ghost r = int_path(path@).skip(k as int);
    if k == path.len() {
        assert(r.len() == 0);
        node.position = moved_position(node.position, delta, up);
        return true;
    }
    let j = path[k];
    assert(r[0] == j as int);
    proof {
        assert(int_path(path@).skip(k as int).skip(1) =~= int_path(path@).skip(k + 1));
    }
    let mut child = node.children.remove(j);
    let child_linked = child.linked;
    let reached_child = change_below(&mut child, path, k + 1, delta, up);
    node.children.insert(j, child);
    assert(node.children@ =~= a.children@.update(j as int, child));
    let top = child_linked && reached_child;
    if top {
        node.position = moved_position(node.position, delta, up);
    }
    top
}

impl BarNode {
    /// A bar with no children.
    pub fn leaf(hidden: bool) -> (n: BarNode)
        ensures
            n.hidden == hidden,
            !n.linked,
            n.position == 0,
            n.children@.len() == 0,
    {
        BarNode { hidden, linked: false, position: 0, children: Vec::new() }
    }

    /// A bar with no children, at `position`, linked to the parent it will
    /// get where `linked` holds.
    pub fn new(hidden: bool, linked: bool, position: u64) -> (n: BarNode)
        ensures
            n.hidden == hidden,
            n.linked == linked,
            n.position == position,
            n.children@.len() == 0,
    {
        BarNode { hidden, linked, position, children: Vec::new() }
    }

    /// Adds a child after the existing ones.
    pub fn add_child(&mut self, child: BarNode)
        ensures
            final(self).hidden == old(self).hidden,
            final(self).linked == old(self).linked,
            final(self).position == old(self).position,
            final(self).children@ == old(self).children@.push(child),
            descendants(*final(self)) == descendants(*old(self)) + descendants(child),
            visible_descendants(*final(self)) == visible_descendants(*old(self)) + visible_descendants(child),
            node_at(*final(self), seq![old(self).children@.len() as int]) == child,
            abs_index(*final(self), seq![old(self).children@.len() as int]) == visible_descendants(*old(self)),
    {
        let ghost a = *self;
        self.children.push(child);
        proof {
            law_add_child(a, *self, child);
        }
    }

    /// Increments the bar at the end of `path` (this bar for an empty path)
    /// by `delta`, wrapping at `u64::MAX`, and each bar above it for as long
    /// as the bar below is linked to its parent.
    pub fn increment_at(&mut self, path: &[usize], delta: u64)
        requires
            valid_path(*old(self), int_path(path@)),
        ensures
            chain_changed(*old(self), *final(self), int_path(path@), delta, true),
    {
        let ghost a = *self;
        assert(int_path(path@).skip(0) =~= int_path(path@));
        change_below(self, path, 0, delta, true);
        proof {
            lemma_changed_along_is_chain(a, *self, int_path(path@), delta, true);
        }
    }

    /// Decrements the bar at the end of `path` (this bar for an empty path)
    /// by `delta`, stopping at 0, and each bar above it for as long as the
    /// bar below is linked to its parent.
    pub fn decrement_at(&mut self, path: &[usize], delta: u64)
        requires
            valid_path(*old(self), int_path(path@)),
        ensures
            chain_changed(*old(self), *final(self), int_path(path@), delta, false),
    {
        let ghost a = *self;
        assert(int_path(path@).skip(0) =~= int_path(path@));
        change_below(self, path, 0, delta, false);
        proof {
            lemma_changed_along_is_chain(a, *self, int_path(path@), delta, false);
        }
    }

    /// The number of bars this bar stands for: itself and all its
    /// descendants.
    pub fn descendant_count(&self) -> (r: usize)
        requires
            descendants(*self) <= usize::MAX,
        ensures
            r == descendants(*self),
        decreases self,
    {
        let ghost f = self.children@;
        let mut sum: usize = 1;
        let mut i: usize = 0;
        assert(f.take(0) =~= Seq::<BarNode>::empty());
        while i < self.children.len()
            invariant
                i <= self.children@.len(),
                f == self.children@,
                descendants(*self) <= usize::MAX,
                sum == 1 + forest_size(f.take(i as int)),
            decreases self.children@.len() - i,
        {
            proof {
                lemma_forest_prefix(f, i as int);
                assert(decreases_to!(*self => self.children));
                assert(decreases_to!(self.children => self.children@));
                assert(decreases_to!(self.children@ => self.children@[i as int]));
            }
            let c = self.children[i].descendant_count();
            sum = sum + c;
            i = i + 1;
        }
        assert(f.take(i as int) =~= f);
        sum
    }

    /// The number of drawn bars among this bar and all its descendants.
    pub fn visible_descendant_count(&self) -> (r: usize)
        requires
            descendants(*self) <= usize::MAX,
        ensures
            r == visible_descendants(*self),
        decreases self,
    {
        let ghost f = self.children@;
        proof {
            lemma_visible_le_size(f);
        }
        let mut sum: usize = if self.hidden { 0 } else { 1 };
        let mut i: usize = 0;
        assert(f.take(0) =~= Seq::<BarNode>::empty());
        while i < self.children.len()
            invariant
                i <= self.children@.len(),
                f == self.children@,
                descendants(*self) <= usize::MAX,
                forest_visible(f) <= forest_size(f),
                sum == (if self.hidden { 0nat } else { 1nat }) + forest_visible(f.take(i as int)),
            decreases self.children@.len() - i,
        {
            proof {
                lemma_forest_prefix(f, i as int);
                assert(decreases_to!(*self => self.children));
                assert(decreases_to!(self.children => self.children@));
                assert(decreases_to!(self.children@ => self.children@[i as int]));
            }
            let c = self.children[i].visible_descendant_count();
            sum = sum + c;
            i = i + 1;
        }
        assert(f.take(i as int) =~= f);
        sum
    }
}

/// The line of the bar at the end of `path[k..]` under `node`.
fn index_below(node: &BarNode, path: &[usize], k: usize) -> (r: usize)
    requires
        k <= path@.len(),
        valid_path(*node, int_path(path@).skip(k as int)),
        descendants(*node) <= usize::MAX,
    ensures
        r == abs_index(*node, int_path(path@).skip(k as int)),
        r <= visible_descendants(*node),
    decreases path@.len() - k,
{
    let ghost p = int_path(path@).skip(k as int);
    proof {
        law_visible_within_descendants(*node);
    }
    if k == path.len() {
        assert(p.len() == 0);
        return 0;
    }
    let j = path[k];
    assert(p[0] == j as int);
    let ghost f = node.children@;
    let mut acc: usize = if node.hidden { 0 } else { 1 };
    let mut s: usize = 0;
    assert(f.take(0) =~= Seq::<BarNode>::empty());
    while s < j
        invariant
            s <= j,
            j < f.len(),
            f == node.children@,
            descendants(*node) <= usize::MAX,
            visible_descendants(*node) <= descendants(*node),
            acc == (if node.hidden { 0nat } else { 1nat }) + forest_visible(f.take(s as int)),
        decreases j - s,
    {
        proof {
            lemma_forest_prefix(f, s as int);
        }
        let c = node.children[s].visible_descendant_count();
        acc = acc + c;
        s = s + 1;
    }
    proof {
        lemma_forest_prefix(f, j as int);
        assert(int_path(path@).skip(k as int).skip(1) =~= int_path(path@).skip(k + 1));
    }
    let below = index_below(&node.children[j], path, k + 1);
    acc + below
}

/// The line on which the bar at the end of `path` is drawn, counted from the
/// first line of `top` (the topmost bar): 0 for `top` itself.
pub fn absolute_index(top: &BarNode, path: &[usize]) -> (r: usize)
    requires
        valid_path(*top, int_path(path@)),
        descendants(*top) <= usize::MAX,
    ensures
        r == abs_index(*top, int_path(path@)),
{
    assert(int_path(path@).skip(0) =~= int_path(path@));
    index_below(top, path, 0)
}

/// The place of a bar among its parent's children, counted from 1, found by
/// its id among the ids of the parent's children; 0 for a bar without a
/// parent (`None`), and `None` where no child has the id.
pub fn parent_index(sibling_ids: Option<&[usize]>, id: usize) -> (r: Option<usize>)
    ensures
        sibling_ids is None ==> r == Some(0usize),
        sibling_ids matches Some(ids) ==> match r {
            Some(k) => 1 <= k <= ids@.len() && ids@[k - 1] == id && forall|j: int| 0 <= j < k - 1 ==> ids@[j] != id,
            None => !ids@.contains(id),
        },
{
    let ids = match sibling_ids {
        None => {
            return Some(0);
        },
        Some(ids) => ids,
    };
    let mut i: usize = 0;
    while i < ids.len()
        invariant
            i <= ids@.len(),
            sibling_ids == Some(ids),
            forall|j: int| 0 <= j < i ==> ids@[j] != id,
        decreases ids@.len() - i,
    {
        if ids[i] == id {
            return Some(i + 1);
        }
        i = i + 1;
    }
    None
}


/// The paths as integer paths.
pub open spec fn paths_view(v: Seq<Vec<usize>>) -> Seq<Seq<int>> {
    v.map_values(|p: Vec<usize>| int_path(p@))
}

/// Each path with `q` put in front.
pub open spec fn prefixed(ls: Seq<Seq<int>>, q: Seq<int>) -> Seq<Seq<int>> {
    ls.map_values(|x: Seq<int>| q + x)
}

proof fn lemma_forest_lines_split(a: Seq<BarNode>, b: Seq<BarNode>, s: int)
    ensures
        forest_lines(a + b, s) == forest_lines(a, s) + forest_lines(b, s + a.len()),
    decreases a.len(),
{
    if a.len() == 0 {
        assert(a + b =~= b);
        assert(forest_lines(a, s) + forest_lines(b, s) =~= forest_lines(b, s));
    } else {
        assert((a + b)[0] == a[0]);
        assert((a + b).skip(1) =~= a.skip(1) + b);
        lemma_forest_lines_split(a.skip(1), b, s + 1);
    }
}

proof fn lemma_forest_lines_push(f: Seq<BarNode>, j: int)
    requires
        0 <= j < f.len(),
    ensures
        forest_lines(f.take(j + 1), 0) == forest_lines(f.take(j), 0) + prefixed(lines(f[j]), seq![j]),
{
    let one = seq![f[j]];
    assert(f.take(j + 1) =~= f.take(j) + one);
    lemma_forest_lines_split(f.take(j), one, 0);
    assert(one.skip(1) =~= Seq::<BarNode>::empty());
    assert(one[0] == f[j]);
    assert(forest_lines(one.skip(1), j + 1) == Seq::<Seq<int>>::empty());
    assert(forest_lines(one, j) == lines(f[j]).map_values(|x: Seq<int>| seq![j] + x) + forest_lines(one.skip(1), j + 1));
    assert(forest_lines(one, j) =~= prefixed(lines(f[j]), seq![j]));
}

fn copy_path(p: &Vec<usize>) -> (r: Vec<usize>)
    ensures
        r@ == p@,
{
    let mut r: Vec<usize> = Vec::new();
    let mut i: usize = 0;
    while i < p.len()
        invariant
            i <= p@.len(),
            r@ == p@.take(i as int),
        decreases p@.len() - i,
    {
        r.push(p[i]);
        i = i + 1;
        assert(r@ =~= p@.take(i as int));
    }
    assert(p@.take(i as int) =~= p@);
    r
}

/// Appends the paths of the drawn bars under `node` (at `prefix`), in the
/// order they are drawn.
fn push_drawn(node: &BarNode, prefix: &Vec<usize>, out: &mut Vec<Vec<usize>>)
    ensures
        paths_view(final(out)@) == paths_view(old(out)@) + prefixed(lines(*node), int_path(prefix@)),
    decreases node,
{
    let ghost q = int_path(prefix@);
    let ghost own = (if node.hidden { Seq::<Seq<int>>::empty() } else { seq![Seq::<int>::empty()] });
    let ghost f = node.children@;
    let ghost start = paths_view(out@);
    if !node.hidden {
        out.push(copy_path(prefix));
        assert(paths_view(out@) =~= start + prefixed(own, q));
    } else {
        assert(paths_view(out@) =~= start + prefixed(own, q));
    }
    let mut j: usize = 0;
    assert(f.take(0) =~= Seq::<BarNode>::empty());
    assert(prefixed(forest_lines(f.take(0), 0), q) =~= Seq::<Seq<int>>::empty());
    while j < node.children.len()
        invariant
            j <= f.len(),
            f == node.children@,
            q == int_path(prefix@),
            paths_view(out@) == start + prefixed(own, q) + prefixed(forest_lines(f.take(j as int), 0), q),
        decreases f.len() - j,
    {
        let mut p = copy_path(prefix);
        p.push(j);
        assert(int_path(p@) =~= q + seq![j as int]);
        proof {
            assert(decreases_to!(*node => node.children));
            assert(decreases_to!(node.children => node.children@));
            assert(decreases_to!(node.children@ => node.children@[j as int]));
        }
        let ghost before = paths_view(out@);
        push_drawn(&node.children[j], &p, out);
        proof {
            lemma_forest_lines_push(f, j as int);
            let l = lines(f[j as int]);
            assert(prefixed(l, q + seq![j as int]) =~= prefixed(prefixed(l, seq![j as int]), q)) by {
                assert forall|i: int| 0 <= i < l.len() implies (q + seq![j as int]) + l[i] == q + (seq![j as int] + l[i]) by {
                    assert((q + seq![j as int]) + l[i] =~= q + (seq![j as int] + l[i]));
                }
            }
            assert(prefixed(forest_lines(f.take(j + 1), 0), q) =~= prefixed(forest_lines(f.take(j as int), 0), q)
                + prefixed(prefixed(l, seq![j as int]), q));
        }
        j = j + 1;
    }
    proof {
        assert(f.take(j as int) =~= f);
        assert(lines(*node) == own + forest_lines(f, 0));
        assert(prefixed(own + forest_lines(f, 0), q) =~= prefixed(own, q) + prefixed(forest_lines(f, 0), q));
    }
}

/// The paths of the drawn bars under the topmost bar `top`, in the order
/// their lines are drawn: each bar's own line (unless it is hidden), then
/// the lines of its children.
pub fn drawn_paths(top: &BarNode) -> (r: Vec<Vec<usize>>)
    ensures
        paths_view(r@) == lines(*top),
{
    let mut out: Vec<Vec<usize>> = Vec::new();
    let root: Vec<usize> = Vec::new();
    assert(paths_view(out@) =~= Seq::<Seq<int>>::empty());
    push_drawn(top, &root, &mut out);
    proof {
        let l = lines(*top);
        assert(int_path(root@) =~= Seq::<int>::empty());
        assert(prefixed(l, Seq::<int>::empty()) =~= l) by {
            assert forall|i: int| 0 <= i < l.len() implies Seq::<int>::empty() + l[i] == l[i] by {
                assert(Seq::<int>::empty() + l[i] =~= l[i]);
            }
        }
    }
    out
}

} // verus!

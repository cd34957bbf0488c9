//! The split layout of a workspace: a binary tree of panes and the operations that rearrange
//! it. Each split carries the share of its space given to its first half, of whatever type the
//! caller keeps such shares in; these operations move shares along with their splits and never
//! look inside one.
use vstd::prelude::*;

verus! {

/// The direction a split divides its space in.
#[derive(Clone, Copy, Debug, PartialEq, Eq, Structural)]
pub enum SplitAxis {
    /// Side by side.
    Horizontal,
    /// One above the other.
    Vertical,
}

/// A binary tree of panes: a pane by id, or two subtrees laid out along `axis`, `ratio` being
/// the share given to `a`.
#[derive(Debug)]
pub enum SplitNode<R> {
    Leaf(u64),
    Split { axis: SplitAxis, ratio: R, a: Box<SplitNode<R>>, b: Box<SplitNode<R>> },
}

impl<R> SplitNode<R> {
    /// The panes, left to right and top to bottom.
    pub open spec fn leaves(self) -> Seq<u64>
        decreases self,
    {
        match self {
            SplitNode::Leaf(id) => seq![id],
            SplitNode::Split { a, b, .. } => a.leaves() + b.leaves(),
        }
    }

    /// The tree with every pane id replaced by `f` of it.
    pub open spec fn relabeled(self, f: spec_fn(u64) -> u64) -> SplitNode<R>
        decreases self,
    {
        match self {
            SplitNode::Leaf(id) => SplitNode::Leaf(f(id)),
            SplitNode::Split { axis, ratio, a, b } => SplitNode::Split {
                axis,
                ratio,
                a: Box::new(a.relabeled(f)),
                b: Box::new(b.relabeled(f)),
            },
        }
    }

    /// The tree after splitting the first leaf for `target` with `new_node` along `axis`, the
    /// new node first or second, the split's share `ratio`; and whether there was one.
    pub open spec fn split_spec(self, target: u64, new_node: SplitNode<R>, axis: SplitAxis, new_first: bool, ratio: R)
        -> (SplitNode<R>, bool)
        decreases self,
    {
        match self {
            SplitNode::Leaf(id) => if id == target {
                let existing = SplitNode::Leaf(id);
                let (a, b) = if new_first { (new_node, existing) } else { (existing, new_node) };
                (SplitNode::Split { axis, ratio, a: Box::new(a), b: Box::new(b) }, true)
            } else {
                (self, false)
            },
            SplitNode::Split { axis: own, ratio: share, a, b } => {
                let (a2, done) = a.split_spec(target, new_node, axis, new_first, ratio);
                if done {
                    (SplitNode::Split { axis: own, ratio: share, a: Box::new(a2), b }, true)
                } else {
                    let (b2, done2) = b.split_spec(target, new_node, axis, new_first, ratio);
                    (SplitNode::Split { axis: own, ratio: share, a, b: Box::new(b2) }, done2)
                }
            },
        }
    }

    /// The tree without `pane`'s leaves, each emptied split collapsed into its other half;
    /// `None` when nothing is left.
    pub open spec fn without_spec(self, pane: u64) -> Option<SplitNode<R>>
        decreases self,
    {
        match self {
            SplitNode::Leaf(id) => if id != pane { Some(self) } else { None },
            SplitNode::Split { axis, ratio, a, b } => match (a.without_spec(pane), b.without_spec(pane)) {
                (None, None) => None,
                (Some(only), None) => Some(only),
                (None, Some(only)) => Some(only),
                (Some(a2), Some(b2)) => Some(SplitNode::Split { axis, ratio, a: Box::new(a2), b: Box::new(b2) }),
            },
        }
    }

    /// How many panes sit side by side along `axis` in this subtree.
    pub open spec fn weight_spec(self, axis: SplitAxis) -> nat
        decreases self,
    {
        match self {
            SplitNode::Split { axis: own, a, b, .. } => if own == axis {
                a.weight_spec(axis) + b.weight_spec(axis)
            } else {
                1
            },
            _ => 1,
        }
    }
}

/// `first` and `second` exchanged, any other id kept.
pub open spec fn swapped(first: u64, second: u64) -> spec_fn(u64) -> u64 {
    |id: u64| if id == first { second } else if id == second { first } else { id }
}

/// `s` without `x`.
pub open spec fn without_id(s: Seq<u64>, x: u64) -> Seq<u64> {
    s.filter(|id: u64| id != x)
}

proof fn lemma_leaves_nonempty<R>(t: SplitNode<R>)
    ensures
        t.leaves().len() >= 1,
    decreases t,
{
    if let SplitNode::Split { a, b, .. } = t {
        lemma_leaves_nonempty(*a);
    }
}

impl<R: Copy> SplitNode<R> {
    /// A copy of this tree.
    pub fn duplicate(&self) -> (r: SplitNode<R>)
        ensures
            r == *self,
        decreases self,
    {
        match self {
            SplitNode::Leaf(id) => SplitNode::Leaf(*id),
            SplitNode::Split { axis, ratio, a, b } => SplitNode::Split {
                axis: *axis,
                ratio: *ratio,
                a: Box::new(a.duplicate()),
                b: Box::new(b.duplicate()),
            },
        }
    }

    /// Whether `pane` is one of the tree's panes.
    pub fn contains(&self, pane: u64) -> (r: bool)
        ensures
            r == self.leaves().contains(pane),
        decreases self,
    {
        match self {
            SplitNode::Leaf(id) => {
                proof {
                    assert(self.leaves() == seq![*id]);
                    if *id == pane {
                        assert(self.leaves()[0] == pane);
                    }
                }
                *id == pane
            },
            SplitNode::Split { a, b, .. } => {
                let r = a.contains(pane) || b.contains(pane);
                proof {
                    let l = a.leaves();
                    let m = b.leaves();
                    assert(self.leaves() == l + m);
                    if l.contains(pane) {
                        let i = choose|i: int| 0 <= i < l.len() && l[i] == pane;
                        assert((l + m)[i] == pane);
                    }
                    if m.contains(pane) {
                        let i = choose|i: int| 0 <= i < m.len() && m[i] == pane;
                        assert((l + m)[l.len() + i] == pane);
                    }
                    if (l + m).contains(pane) {
                        let i = choose|i: int| 0 <= i < (l + m).len() && (l + m)[i] == pane;
                        if i < l.len() {
                            assert(l[i] == pane);
                        } else {
                            assert(m[i - l.len()] == pane);
                        }
                    }
                }
                r
            },
        }
    }

    /// How many panes the tree has.
    pub fn leaf_count(&self) -> (r: usize)
        requires
            self.leaves().len() <= usize::MAX,
        ensures
            r == self.leaves().len(),
        decreases self,
    {
        match self {
            SplitNode::Leaf(_) => 1,
            SplitNode::Split { a, b, .. } => a.leaf_count() + b.leaf_count(),
        }
    }

    /// The first pane, left to right and top to bottom.
    pub fn first_leaf(&self) -> (r: u64)
        ensures
            r == self.leaves()[0],
        decreases self,
    {
        match self {
            SplitNode::Leaf(id) => *id,
            SplitNode::Split { a, b, .. } => {
                proof {
                    lemma_leaves_nonempty(**a);
                }
                a.first_leaf()
            },
        }
    }

    /// Appends the panes to `out`.
    pub fn collect_leaves(&self, out: &mut Vec<u64>)
        ensures
            final(out)@ == old(out)@ + self.leaves(),
        decreases self,
    {
        match self {
            SplitNode::Leaf(id) => {
                out.push(*id);
            },
            SplitNode::Split { a, b, .. } => {
                a.collect_leaves(out);
                b.collect_leaves(out);
            },
        }
        assert(final(out)@ =~= old(out)@ + self.leaves());
    }

    /// The panes, left to right and top to bottom.
    pub fn leaf_ids(&self) -> (r: Vec<u64>)
        ensures
            r@ == self.leaves(),
    {
        let mut out: Vec<u64> = Vec::new();
        self.collect_leaves(&mut out);
        assert(out@ =~= self.leaves());
        out
    }

    /// How many panes sit side by side along `axis` in this subtree.
    pub fn weight(&self, axis: SplitAxis) -> (r: usize)
        requires
            self.leaves().len() <= usize::MAX,
        ensures
            r == self.weight_spec(axis),
        decreases self,
    {
        proof {
            lemma_weight_bound(*self, axis);
        }
        match self {
            SplitNode::Split { axis: own, a, b, .. } => {
                if *own == axis {
                    a.weight(axis) + b.weight(axis)
                } else {
                    1
                }
            },
            _ => 1,
        }
    }

    fn split_owned(self, target: u64, new_node: &SplitNode<R>, axis: SplitAxis, new_first: bool, ratio: R)
        -> (r: (SplitNode<R>, bool))
        ensures
            r == self.split_spec(target, *new_node, axis, new_first, ratio),
        decreases self,
    {
        match self {
            SplitNode::Leaf(id) => {
                if id == target {
                    let existing = SplitNode::Leaf(id);
                    let (a, b) = if new_first { (new_node.duplicate(), existing) } else { (existing, new_node.duplicate()) };
                    (SplitNode::Split { axis, ratio, a: Box::new(a), b: Box::new(b) }, true)
                } else {
                    (SplitNode::Leaf(id), false)
                }
            },
            SplitNode::Split { axis: own, ratio: share, a, b } => {
                let ghost old_a = *a;
                let (a2, done) = (*a).split_owned(target, new_node, axis, new_first, ratio);
                proof {
                    lemma_split_unchanged(old_a, target, *new_node, axis, new_first, ratio);
                }
                if done {
                    (SplitNode::Split { axis: own, ratio: share, a: Box::new(a2), b }, true)
                } else {
                    let (b2, done2) = (*b).split_owned(target, new_node, axis, new_first, ratio);
                    (SplitNode::Split { axis: own, ratio: share, a: Box::new(a2), b: Box::new(b2) }, done2)
                }
            },
        }
    }

    /// Replaces the first leaf for `target` with a split of it and `new_node` along `axis`, the
    /// new node first or second, sharing the space by `ratio`. `false`, and the tree unchanged,
    /// when there is no such leaf.
    pub fn split_leaf(&mut self, target: u64, new_node: &SplitNode<R>, axis: SplitAxis, new_first: bool, ratio: R) -> (r: bool)
        ensures
            (*final(self), r) == old(self).split_spec(target, *new_node, axis, new_first, ratio),
    {
        let mut node = SplitNode::Leaf(0);
        std::mem::swap(&mut node, self);
        let (next, done) = node.split_owned(target, new_node, axis, new_first, ratio);
        *self = next;
        done
    }

    /// The tree without `pane`'s leaf, the parent split collapsed into its sibling; `None` when
    /// nothing is left.
    pub fn without_pane(self, pane: u64) -> (r: Option<SplitNode<R>>)
        ensures
            r == self.without_spec(pane),
        decreases self,
    {
        match self {
            SplitNode::Leaf(id) => if id != pane { Some(SplitNode::Leaf(id)) } else { None },
            SplitNode::Split { axis, ratio, a, b } => {
                match ((*a).without_pane(pane), (*b).without_pane(pane)) {
                    (None, None) => None,
                    (Some(only), None) => Some(only),
                    (None, Some(only)) => Some(only),
                    (Some(a2), Some(b2)) => Some(SplitNode::Split { axis, ratio, a: Box::new(a2), b: Box::new(b2) }),
                }
            },
        }
    }

    fn swap_owned(self, first: u64, second: u64) -> (r: SplitNode<R>)
        ensures
            r == self.relabeled(swapped(first, second)),
        decreases self,
    {
        match self {
            SplitNode::Leaf(id) => {
                if id == first {
                    SplitNode::Leaf(second)
                } else if id == second {
                    SplitNode::Leaf(first)
                } else {
                    SplitNode::Leaf(id)
                }
            },
            SplitNode::Split { axis, ratio, a, b } => {
                let a2 = (*a).swap_owned(first, second);
                let b2 = (*b).swap_owned(first, second);
                SplitNode::Split { axis, ratio, a: Box::new(a2), b: Box::new(b2) }
            },
        }
    }

    /// Exchanges the places of two panes, keeping every split and share. `false`, and the tree
    /// unchanged, when they are the same pane or either is missing.
    pub fn swap_leaves(&mut self, first: u64, second: u64) -> (r: bool)
        ensures
            r == (first != second && old(self).leaves().contains(first) && old(self).leaves().contains(second)),
            r ==> *final(self) == old(self).relabeled(swapped(first, second)),
            !r ==> *final(self) == *old(self),
    {
        if first == second || !self.contains(first) || !self.contains(second) {
            return false;
        }
        let mut node = SplitNode::Leaf(0);
        std::mem::swap(&mut node, self);
        *self = node.swap_owned(first, second);
        true
    }

    /// Takes `pane` out of the tree and splits `target` with it on `edge`. `false`, and the tree
    /// unchanged, when they are the same pane or either is missing.
    pub fn move_leaf(&mut self, pane: u64, target: u64, edge: SplitEdge, ratio: R) -> (r: bool)
        ensures
            ({
                let (axis, new_first) = edge_split(edge);
                let ok = pane != target && old(self).leaves().contains(pane) && old(self).leaves().contains(target);
                match old(self).without_spec(pane) {
                    Some(rest) => {
                        let (moved, done) = rest.split_spec(target, SplitNode::Leaf(pane), axis, new_first, ratio);
                        &&& r == (ok && done)
                        &&& r ==> *final(self) == moved
                        &&& !r ==> *final(self) == *old(self)
                    },
                    None => !r && *final(self) == *old(self),
                }
            }),
    {
        if pane == target || !self.contains(pane) || !self.contains(target) {
            proof {
                let (axis, new_first) = edge_split(edge);
                if let Some(rest) = self.without_spec(pane) {
                    let _ = rest.split_spec(target, SplitNode::Leaf(pane), axis, new_first, ratio);
                }
            }
            return false;
        }
        let rest = match self.duplicate().without_pane(pane) {
            Some(rest) => rest,
            None => return false,
        };
        let (axis, new_first) = edge.axis_and_order();
        let (moved, done) = rest.split_owned(target, &SplitNode::Leaf(pane), axis, new_first, ratio);
        if !done {
            return false;
        }
        *self = moved;
        true
    }
}

/// Where no leaf was split, the tree is as it was.
proof fn lemma_split_unchanged<R>(t: SplitNode<R>, target: u64, new_node: SplitNode<R>, axis: SplitAxis, new_first: bool, ratio: R)
    ensures
        !t.split_spec(target, new_node, axis, new_first, ratio).1 ==> t.split_spec(target, new_node, axis, new_first, ratio).0 == t,
    decreases t,
{
    if let SplitNode::Split { a, b, .. } = t {
        lemma_split_unchanged(*a, target, new_node, axis, new_first, ratio);
        lemma_split_unchanged(*b, target, new_node, axis, new_first, ratio);
    }
}

proof fn lemma_weight_bound<R>(t: SplitNode<R>, axis: SplitAxis)
    ensures
        1 <= t.weight_spec(axis) <= t.leaves().len(),
    decreases t,
{
    lemma_leaves_nonempty(t);
    if let SplitNode::Split { a, b, .. } = t {
        lemma_weight_bound(*a, axis);
        lemma_weight_bound(*b, axis);
        lemma_leaves_nonempty(*b);
    }
}

/// A right-leaning flat split tree along one axis, every split sharing its space by `ratio`;
/// `None` for no panes.
pub open spec fn flat_spec<R>(ids: Seq<u64>, axis: SplitAxis, ratio: R) -> Option<SplitNode<R>>
    decreases ids.len(),
{
    if ids.len() == 0 {
        None
    } else if ids.len() == 1 {
        Some(SplitNode::Leaf(ids[0]))
    } else {
        match flat_spec(ids.drop_last(), axis, ratio) {
            Some(node) => Some(SplitNode::Split { axis, ratio, a: Box::new(node), b: Box::new(SplitNode::Leaf(ids.last())) }),
            None => None,
        }
    }
}

/// A right-leaning flat split tree along one axis, as saved layouts from before nested splits
/// are rebuilt.
pub fn flat_split<R: Copy>(pane_ids: &[u64], axis: SplitAxis, ratio: R) -> (r: Option<SplitNode<R>>)
    ensures
        r == flat_spec(pane_ids@, axis, ratio),
{
    if pane_ids.len() == 0 {
        return None;
    }
    let mut node = SplitNode::Leaf(pane_ids[0]);
    let mut i: usize = 1;
    proof {
        assert(pane_ids@.take(1).len() == 1);
        assert(flat_spec(pane_ids@.take(1), axis, ratio) == Some(SplitNode::<R>::Leaf(pane_ids@[0])));
    }
    while i < pane_ids.len()
        invariant
            1 <= i <= pane_ids@.len(),
            flat_spec(pane_ids@.take(i as int), axis, ratio) == Some(node),
        decreases pane_ids@.len() - i,
    {
        proof {
            let t = pane_ids@.take(i + 1);
            assert(t.drop_last() =~= pane_ids@.take(i as int));
            assert(t.last() == pane_ids@[i as int]);
        }
        node = SplitNode::Split { axis, ratio, a: Box::new(node), b: Box::new(SplitNode::Leaf(pane_ids[i])) };
        i = i + 1;
    }
    assert(pane_ids@.take(pane_ids@.len() as int) =~= pane_ids@);
    Some(node)
}

/// The edge of a pane that another pane is placed against.
#[derive(Clone, Copy, Debug, PartialEq, Eq, Structural)]
pub enum SplitEdge {
    Left,
    Right,
    Top,
    Bottom,
}

/// The split axis an edge creates, and whether the incoming pane comes first.
pub open spec fn edge_split(edge: SplitEdge) -> (SplitAxis, bool) {
    match edge {
        SplitEdge::Left => (SplitAxis::Horizontal, true),
        SplitEdge::Right => (SplitAxis::Horizontal, false),
        SplitEdge::Top => (SplitAxis::Vertical, true),
        SplitEdge::Bottom => (SplitAxis::Vertical, false),
    }
}

impl SplitEdge {
    /// The split axis this edge creates, and whether the incoming pane comes first.
    pub fn axis_and_order(self) -> (r: (SplitAxis, bool))
        ensures
            r == edge_split(self),
    {
        match self {
            SplitEdge::Left => (SplitAxis::Horizontal, true),
            SplitEdge::Right => (SplitAxis::Horizontal, false),
            SplitEdge::Top => (SplitAxis::Vertical, true),
            SplitEdge::Bottom => (SplitAxis::Vertical, false),
        }
    }
}

/// A divider ratio that clicked into a third or a half while dragging.
#[derive(Clone, Copy, Debug, PartialEq, Eq, Structural)]
pub enum RatioMark {
    OneThird,
    Half,
    TwoThirds,
}

impl RatioMark {
    /// The fraction's own character: ⅓, ½ or ⅔.
    pub fn label(self) -> (r: &'static str)
        ensures
            r@ == match self {
                RatioMark::OneThird => "\u{2153}"@,
                RatioMark::Half => "\u{00bd}"@,
                RatioMark::TwoThirds => "\u{2154}"@,
            },
    {
        match self {
            RatioMark::OneThird => "\u{2153}",
            RatioMark::Half => "\u{00bd}",
            RatioMark::TwoThirds => "\u{2154}",
        }
    }
}

/// One-click split arrangements.
#[derive(Clone, Copy, Debug, PartialEq, Eq, Structural)]
pub enum SplitPreset {
    Single,
    Columns,
    Rows,
    MainAndStack,
    ThreeColumns,
    Grid,
    GridOfSix,
}

/// The shares the presets use: a half, the main pane's share, and a third.
#[derive(Clone, Copy, Debug)]
pub struct PresetShares<R> {
    pub half: R,
    pub main: R,
    pub third: R,
}

pub open spec fn preset_count(preset: SplitPreset) -> nat {
    match preset {
        SplitPreset::Single => 1,
        SplitPreset::Columns | SplitPreset::Rows => 2,
        SplitPreset::MainAndStack | SplitPreset::ThreeColumns => 3,
        SplitPreset::Grid => 4,
        SplitPreset::GridOfSix => 6,
    }
}

pub open spec fn leaf<R>(id: u64) -> SplitNode<R> {
    SplitNode::Leaf(id)
}

pub open spec fn split<R>(axis: SplitAxis, ratio: R, a: SplitNode<R>, b: SplitNode<R>) -> SplitNode<R> {
    SplitNode::Split { axis, ratio, a: Box::new(a), b: Box::new(b) }
}

/// The arrangement a preset builds from exactly its number of panes, the first in the main
/// position.
pub open spec fn preset_tree<R>(preset: SplitPreset, p: Seq<u64>, s: PresetShares<R>) -> SplitNode<R> {
    let across = SplitAxis::Horizontal;
    let down = SplitAxis::Vertical;
    match preset {
        SplitPreset::Single => leaf(p[0]),
        SplitPreset::Columns => split(across, s.half, leaf(p[0]), leaf(p[1])),
        SplitPreset::Rows => split(down, s.half, leaf(p[0]), leaf(p[1])),
        SplitPreset::MainAndStack => split(across, s.main, leaf(p[0]), split(down, s.half, leaf(p[1]), leaf(p[2]))),
        SplitPreset::ThreeColumns => split(across, s.third, leaf(p[0]), split(across, s.half, leaf(p[1]), leaf(p[2]))),
        SplitPreset::Grid => split(down, s.half, split(across, s.half, leaf(p[0]), leaf(p[1])),
            split(across, s.half, leaf(p[2]), leaf(p[3]))),
        SplitPreset::GridOfSix => split(down, s.half,
            split(across, s.third, leaf(p[0]), split(across, s.half, leaf(p[1]), leaf(p[2]))),
            split(across, s.third, leaf(p[3]), split(across, s.half, leaf(p[4]), leaf(p[5])))),
    }
}

fn mk_split<R>(axis: SplitAxis, ratio: R, a: SplitNode<R>, b: SplitNode<R>) -> (r: SplitNode<R>)
    ensures
        r == split(axis, ratio, a, b),
{
    SplitNode::Split { axis, ratio, a: Box::new(a), b: Box::new(b) }
}

impl SplitPreset {
    /// Every preset, in the order they are offered.
    pub fn all() -> (r: Vec<SplitPreset>)
        ensures
            r@ == seq![SplitPreset::Single, SplitPreset::Columns, SplitPreset::Rows, SplitPreset::MainAndStack,
                SplitPreset::ThreeColumns, SplitPreset::Grid, SplitPreset::GridOfSix],
    {
        let r = vec![SplitPreset::Single, SplitPreset::Columns, SplitPreset::Rows, SplitPreset::MainAndStack,
            SplitPreset::ThreeColumns, SplitPreset::Grid, SplitPreset::GridOfSix];
        assert(r@ =~= seq![SplitPreset::Single, SplitPreset::Columns, SplitPreset::Rows, SplitPreset::MainAndStack,
                SplitPreset::ThreeColumns, SplitPreset::Grid, SplitPreset::GridOfSix]);
        r
    }

    /// How many panes the preset arranges.
    pub fn pane_count(self) -> (r: usize)
        ensures
            r == preset_count(self),
    {
        match self {
            SplitPreset::Single => 1,
            SplitPreset::Columns | SplitPreset::Rows => 2,
            SplitPreset::MainAndStack | SplitPreset::ThreeColumns => 3,
            SplitPreset::Grid => 4,
            SplitPreset::GridOfSix => 6,
        }
    }

    /// Arranges exactly `pane_count()` panes, the first in the main position; `None` for any
    /// other number.
    pub fn build<R: Copy>(self, panes: &[u64], shares: PresetShares<R>) -> (r: Option<SplitNode<R>>)
        ensures
            panes@.len() == preset_count(self) ==> r == Some(preset_tree(self, panes@, shares)),
            panes@.len() != preset_count(self) ==> r is None,
    {
        if panes.len() != self.pane_count() {
            return None;
        }
        let across = SplitAxis::Horizontal;
        let down = SplitAxis::Vertical;
        let PresetShares { half, main, third } = shares;
        Some(match self {
            SplitPreset::Single => SplitNode::Leaf(panes[0]),
            SplitPreset::Columns => mk_split(across, half, SplitNode::Leaf(panes[0]), SplitNode::Leaf(panes[1])),
            SplitPreset::Rows => mk_split(down, half, SplitNode::Leaf(panes[0]), SplitNode::Leaf(panes[1])),
            SplitPreset::MainAndStack => mk_split(across, main, SplitNode::Leaf(panes[0]),
                mk_split(down, half, SplitNode::Leaf(panes[1]), SplitNode::Leaf(panes[2]))),
            SplitPreset::ThreeColumns => mk_split(across, third, SplitNode::Leaf(panes[0]),
                mk_split(across, half, SplitNode::Leaf(panes[1]), SplitNode::Leaf(panes[2]))),
            SplitPreset::Grid => mk_split(down, half,
                mk_split(across, half, SplitNode::Leaf(panes[0]), SplitNode::Leaf(panes[1])),
                mk_split(across, half, SplitNode::Leaf(panes[2]), SplitNode::Leaf(panes[3]))),
            SplitPreset::GridOfSix => mk_split(down, half,
                mk_split(across, third, SplitNode::Leaf(panes[0]),
                    mk_split(across, half, SplitNode::Leaf(panes[1]), SplitNode::Leaf(panes[2]))),
                mk_split(across, third, SplitNode::Leaf(panes[3]),
                    mk_split(across, half, SplitNode::Leaf(panes[4]), SplitNode::Leaf(panes[5])))),
        })
    }
}


// ---------------------------------------------------------------------------------------------
// Laws.

/// The tree's shape: its splits, axes and shares, with every pane id forgotten.
pub open spec fn shape<R>(t: SplitNode<R>) -> SplitNode<R> {
    t.relabeled(|id: u64| 0u64)
}

proof fn lemma_relabel_leaves<R>(t: SplitNode<R>, f: spec_fn(u64) -> u64)
    ensures
        t.relabeled(f).leaves() == t.leaves().map_values(f),
    decreases t,
{
    if let SplitNode::Split { a, b, .. } = t {
        lemma_relabel_leaves(*a, f);
        lemma_relabel_leaves(*b, f);
        assert((a.leaves() + b.leaves()).map_values(f) =~= a.leaves().map_values(f) + b.leaves().map_values(f));
    } else {
        assert(t.leaves().map_values(f) =~= seq![f(t->Leaf_0)]);
    }
}

proof fn lemma_relabel_shape<R>(t: SplitNode<R>, f: spec_fn(u64) -> u64)
    ensures
        shape(t.relabeled(f)) == shape(t),
    decreases t,
{
    if let SplitNode::Split { a, b, .. } = t {
        lemma_relabel_shape(*a, f);
        lemma_relabel_shape(*b, f);
    }
}

proof fn lemma_relabel_twice<R>(t: SplitNode<R>, first: u64, second: u64)
    ensures
        t.relabeled(swapped(first, second)).relabeled(swapped(first, second)) == t,
    decreases t,
{
    if let SplitNode::Split { a, b, .. } = t {
        lemma_relabel_twice(*a, first, second);
        lemma_relabel_twice(*b, first, second);
    }
}

/// Swapping two panes keeps the tree's shape and every share, exchanges the two panes' places
/// and nothing else, and swapping them back restores the tree.
pub proof fn swapping_keeps_the_shape<R>(t: SplitNode<R>, first: u64, second: u64)
    ensures
        shape(t.relabeled(swapped(first, second))) == shape(t),
        t.relabeled(swapped(first, second)).leaves() == t.leaves().map_values(swapped(first, second)),
        t.relabeled(swapped(first, second)).relabeled(swapped(first, second)) == t,
{
    lemma_relabel_shape(t, swapped(first, second));
    lemma_relabel_leaves(t, swapped(first, second));
    lemma_relabel_twice(t, first, second);
}

/// Taking a pane out leaves every other pane in its order, and leaves nothing only when every
/// pane was that one.
pub proof fn removing_a_pane_keeps_the_others_in_order<R>(t: SplitNode<R>, pane: u64)
    ensures
        match t.without_spec(pane) {
            Some(rest) => rest.leaves() == without_id(t.leaves(), pane) && rest.leaves().len() > 0,
            None => without_id(t.leaves(), pane).len() == 0,
        },
    decreases t,
{
    match t {
        SplitNode::Leaf(id) => {
            reveal_with_fuel(Seq::filter, 2);
            assert(t.leaves() =~= seq![id]);
            assert(seq![id].drop_last() =~= Seq::<u64>::empty());
        },
        SplitNode::Split { a, b, .. } => {
            removing_a_pane_keeps_the_others_in_order(*a, pane);
            removing_a_pane_keeps_the_others_in_order(*b, pane);
            Seq::filter_distributes_over_add(a.leaves(), b.leaves(), |id: u64| id != pane);
            assert(without_id(t.leaves(), pane) == without_id(a.leaves(), pane) + without_id(b.leaves(), pane));
            match (a.without_spec(pane), b.without_spec(pane)) {
                (None, None) => {},
                (Some(x), None) => {
                    assert(without_id(t.leaves(), pane) =~= without_id(a.leaves(), pane));
                },
                (None, Some(y)) => {
                    assert(without_id(t.leaves(), pane) =~= without_id(b.leaves(), pane));
                },
                (Some(x), Some(y)) => {},
            }
        },
    }
}

/// Taking out a pane the tree does not hold changes nothing: every split keeps its axis, its share
/// and its halves.
pub proof fn removing_an_absent_pane_changes_nothing<R>(t: SplitNode<R>, pane: u64)
    requires
        !t.leaves().contains(pane),
    ensures
        t.without_spec(pane) == Some(t),
    decreases t,
{
    match t {
        SplitNode::Leaf(id) => {
            assert(t.leaves()[0] == id);
        },
        SplitNode::Split { a, b, .. } => {
            assert(!a.leaves().contains(pane)) by {
                if a.leaves().contains(pane) {
                    let i = choose|i: int| 0 <= i < a.leaves().len() && a.leaves()[i] == pane;
                    assert(t.leaves()[i] == pane);
                }
            }
            assert(!b.leaves().contains(pane)) by {
                if b.leaves().contains(pane) {
                    let i = choose|i: int| 0 <= i < b.leaves().len() && b.leaves()[i] == pane;
                    assert(t.leaves()[a.leaves().len() + i] == pane);
                }
            }
            removing_an_absent_pane_changes_nothing(*a, pane);
            removing_an_absent_pane_changes_nothing(*b, pane);
        },
    }
}

proof fn lemma_kept(s: Seq<u64>, x: u64, y: u64)
    requires
        s.contains(y),
        y != x,
    ensures
        without_id(s, x).len() > 0,
    decreases s.len(),
{
    reveal(Seq::filter);
    let i = choose|i: int| 0 <= i < s.len() && s[i] == y;
    if i < s.len() - 1 {
        assert(s.drop_last()[i] == y);
        lemma_kept(s.drop_last(), x, y);
    }
}

/// A split both of whose halves keep some other pane survives the removal as a split along the
/// same axis with the same share, its halves holding what is left of each, in order.
pub proof fn a_split_that_keeps_both_halves_keeps_its_axis_and_share<R>(
    axis: SplitAxis,
    ratio: R,
    a: SplitNode<R>,
    b: SplitNode<R>,
    pane: u64,
    kept_in_a: u64,
    kept_in_b: u64,
)
    requires
        kept_in_a != pane,
        kept_in_b != pane,
        a.leaves().contains(kept_in_a),
        b.leaves().contains(kept_in_b),
    ensures
        ({
            let t = SplitNode::Split { axis, ratio, a: Box::new(a), b: Box::new(b) };
            &&& t.without_spec(pane) is Some
            &&& t.without_spec(pane)->Some_0 is Split
            &&& t.without_spec(pane)->Some_0->axis == axis
            &&& t.without_spec(pane)->Some_0->ratio == ratio
            &&& t.without_spec(pane)->Some_0->a.leaves() == without_id(a.leaves(), pane)
            &&& t.without_spec(pane)->Some_0->b.leaves() == without_id(b.leaves(), pane)
        }),
{
    lemma_kept(a.leaves(), pane, kept_in_a);
    lemma_kept(b.leaves(), pane, kept_in_b);
    removing_a_pane_keeps_the_others_in_order(a, pane);
    removing_a_pane_keeps_the_others_in_order(b, pane);
}

/// `x` occurs in `s` first at `k`.
pub open spec fn first_at(s: Seq<u64>, x: u64, k: int) -> bool {
    0 <= k < s.len() && s[k] == x && forall|j: int| 0 <= j < k ==> s[j] != x
}

/// Splitting a pane happens exactly when the tree has it, and puts the new panes right before
/// or right after its first occurrence, the rest in their order.
pub proof fn splitting_places_the_new_panes_beside_the_target<R>(
    t: SplitNode<R>,
    target: u64,
    new_node: SplitNode<R>,
    axis: SplitAxis,
    new_first: bool,
    ratio: R,
)
    ensures
        t.split_spec(target, new_node, axis, new_first, ratio).1 == t.leaves().contains(target),
        t.leaves().contains(target) ==> exists|k: int| #[trigger] first_at(t.leaves(), target, k)
            && t.split_spec(target, new_node, axis, new_first, ratio).0.leaves() == t.leaves().take(k)
                + (if new_first { new_node.leaves() + seq![target] } else { seq![target] + new_node.leaves() })
                + t.leaves().skip(k + 1),
    decreases t,
{
    let added = if new_first { new_node.leaves() + seq![target] } else { seq![target] + new_node.leaves() };
    match t {
        SplitNode::Leaf(id) => {
            if id == target {
                assert(first_at(t.leaves(), target, 0));
                assert(t.leaves().take(0) + added + t.leaves().skip(1) =~= added);
            } else {
                assert(!t.leaves().contains(target)) by {
                    if t.leaves().contains(target) {
                        let i = choose|i: int| 0 <= i < t.leaves().len() && t.leaves()[i] == target;
                        assert(t.leaves()[i] == id);
                    }
                }
            }
        },
        SplitNode::Split { a, b, .. } => {
            splitting_places_the_new_panes_beside_the_target(*a, target, new_node, axis, new_first, ratio);
            splitting_places_the_new_panes_beside_the_target(*b, target, new_node, axis, new_first, ratio);
            lemma_split_unchanged(*a, target, new_node, axis, new_first, ratio);
            lemma_split_unchanged(*b, target, new_node, axis, new_first, ratio);
            let l = a.leaves();
            let m = b.leaves();
            assert(t.leaves() == l + m);
            if l.contains(target) {
                let k = choose|k: int| #[trigger] first_at(l, target, k)
                    && a.split_spec(target, new_node, axis, new_first, ratio).0.leaves() == l.take(k) + added + l.skip(k + 1);
                assert(first_at(l + m, target, k));
                assert((l + m).take(k) + added + (l + m).skip(k + 1) =~= l.take(k) + added + l.skip(k + 1) + m);
                let i = choose|i: int| 0 <= i < l.len() && l[i] == target;
                assert((l + m)[i] == target);
            } else if m.contains(target) {
                let k = choose|k: int| #[trigger] first_at(m, target, k)
                    && b.split_spec(target, new_node, axis, new_first, ratio).0.leaves() == m.take(k) + added + m.skip(k + 1);
                assert forall|j: int| 0 <= j < l.len() implies (l + m)[j] != target by {
                    assert((l + m)[j] == l[j]);
                }
                assert(first_at(l + m, target, l.len() + k));
                assert((l + m).take(l.len() + k) + added + (l + m).skip(l.len() + k + 1)
                    =~= l + (m.take(k) + added + m.skip(k + 1)));
                let i = choose|i: int| 0 <= i < m.len() && m[i] == target;
                assert((l + m)[l.len() + i] == target);
            } else {
                assert(!(l + m).contains(target)) by {
                    if (l + m).contains(target) {
                        let i = choose|i: int| 0 <= i < (l + m).len() && (l + m)[i] == target;
                        if i < l.len() {
                            assert(l[i] == target);
                        } else {
                            assert(m[i - l.len()] == target);
                        }
                    }
                }
            }
        },
    }
}

/// What is left once every `x` is taken out: the rest of what was there.
proof fn lemma_without_id_contains(s: Seq<u64>, x: u64, y: u64)
    ensures
        without_id(s, x).contains(y) <==> (s.contains(y) && y != x),
{
    broadcast use vstd::seq_lib::group_filter_ensures;
    broadcast use vstd::seq::Seq::lemma_filter_contains_rev;
    if s.contains(y) && y != x {
        let i = choose|i: int| 0 <= i < s.len() && s[i] == y;
        assert(without_id(s, x).contains(s[i]));
    }
    if without_id(s, x).contains(y) {
        let i = choose|i: int| 0 <= i < without_id(s, x).len() && without_id(s, x)[i] == y;
        assert(without_id(s, x)[i] != x);
    }
}

/// Moving a pane keeps every pane of the tree: taken out of its place and split in beside the
/// target, the same panes are there afterwards.
pub proof fn moving_keeps_every_pane<R>(
    t: SplitNode<R>,
    pane: u64,
    target: u64,
    edge: SplitEdge,
    ratio: R,
)
    requires
        t.leaves().contains(pane),
        t.without_spec(pane) is Some,
        (t.without_spec(pane)->0).split_spec(target, SplitNode::Leaf(pane), edge_split(edge).0, edge_split(edge).1, ratio).1,
    ensures
        (t.without_spec(pane)->0).split_spec(target, SplitNode::Leaf(pane), edge_split(edge).0, edge_split(edge).1, ratio)
            .0.leaves().to_set() == t.leaves().to_set(),
{
    let rest = t.without_spec(pane)->0;
    let (axis, new_first) = edge_split(edge);
    removing_a_pane_keeps_the_others_in_order(t, pane);
    splitting_places_the_new_panes_beside_the_target(rest, target, SplitNode::Leaf(pane), axis, new_first, ratio);
    let l = rest.leaves();
    let k = choose|k: int| #[trigger] first_at(l, target, k)
        && rest.split_spec(target, SplitNode::Leaf(pane), axis, new_first, ratio).0.leaves() == l.take(k)
            + (if new_first { SplitNode::<R>::Leaf(pane).leaves() + seq![target] } else { seq![target] + SplitNode::<R>::Leaf(pane).leaves() })
            + l.skip(k + 1);
    let added = if new_first { seq![pane, target] } else { seq![target, pane] };
    assert(SplitNode::<R>::Leaf(pane).leaves() == seq![pane]);
    let moved = l.take(k) + added + l.skip(k + 1);
    assert(rest.split_spec(target, SplitNode::Leaf(pane), axis, new_first, ratio).0.leaves() =~= moved);
    let all = t.leaves();
    assert(l == without_id(all, pane));
    assert forall|x: u64| moved.to_set().contains(x) <==> all.to_set().contains(x) by {
        lemma_without_id_contains(all, pane, x);
        if moved.contains(x) {
            let i = choose|i: int| 0 <= i < moved.len() && moved[i] == x;
            if x != pane {
                let j = if i < k { i } else if i < k + 2 { k } else { i - 1 };
                assert(l[j] == x);
                assert(l.contains(x));
            }
        }
        if all.contains(x) {
            if x == pane {
                let i = if new_first { k } else { k + 1 };
                assert(moved[i] == pane);
            } else {
                let j = choose|j: int| 0 <= j < l.len() && l[j] == x;
                if j < k {
                    assert(moved[j] == x);
                } else if j == k {
                    assert(moved[if new_first { k + 1 } else { k }] == x);
                } else {
                    assert(moved[j + 1] == x);
                }
            }
        }
    }
    assert(moved.to_set() =~= all.to_set());
}

} // verus!

use vstd::prelude::*;
use crate::node::{FileNode, Row, forest_rows};

verus! {

/// Pre-order on trails of child positions: a trail comes before every trail
/// that extends it, and otherwise the first differing position decides.
pub open spec fn trail_before(a: Seq<int>, b: Seq<int>) -> bool
    decreases a.len(),
{
    if b.len() == 0 {
        false
    } else if a.len() == 0 {
        true
    } else if a[0] != b[0] {
        a[0] < b[0]
    } else {
        trail_before(a.drop_first(), b.drop_first())
    }
}

impl FileNode {
    /// The entry that a trail of child positions leads to from this one.
    pub open spec fn node_at(self, trail: Seq<int>) -> Option<FileNode>
        decreases trail.len(),
    {
        if trail.len() == 0 {
            Some(self)
        } else {
            match self.items {
                Some(items) => if 0 <= trail[0] < items.len() {
                    items[trail[0]].node_at(trail.drop_first())
                } else {
                    None
                },
                None => None,
            }
        }
    }

    /// The trail leads down from this entry through open directories only:
    /// this entry and every entry passed on the way, the last one excepted,
    /// is an open directory.
    pub open spec fn opens_to(self, trail: Seq<int>) -> bool
        decreases trail.len(),
    {
        trail.len() == 0 || (self.expanded() && 0 <= trail[0] < self.items.unwrap().len()
            && self.items.unwrap()[trail[0]].opens_to(trail.drop_first()))
    }

    /// The trail leads from this entry, taken as the root, to an entry below
    /// it, and every directory strictly between the two is open. Whether the
    /// root itself is open does not matter.
    pub open spec fn shows(self, trail: Seq<int>) -> bool {
        trail.len() > 0 && self.items.is_some() && 0 <= trail[0] < self.items.unwrap().len()
            && self.items.unwrap()[trail[0]].opens_to(trail.drop_first())
    }

    /// The place, among the rows of this entry, of the entry that the trail
    /// leads to: one for this entry, the rows of the siblings passed over,
    /// and the place among the rows of the child entered.
    pub open spec fn row_of(self, trail: Seq<int>) -> int
        decreases trail.len(),
    {
        if trail.len() == 0 {
            0
        } else {
            match self.items {
                Some(items) => 1 + forest_rows(items.subrange(0, trail[0]), 0).len()
                    + items[trail[0]].row_of(trail.drop_first()),
                None => 0,
            }
        }
    }

    /// The place in the flattened visible list of the entry that the trail
    /// leads to from this entry, taken as the root.
    pub open spec fn visible_index(self, trail: Seq<int>) -> int {
        match self.items {
            Some(items) => forest_rows(items.subrange(0, trail[0]), 0).len()
                + items[trail[0]].row_of(trail.drop_first()),
            None => 0,
        }
    }
}

/// The rows of two runs of siblings, one after the other, are the rows of the
/// first run followed by those of the second.
pub proof fn lemma_forest_rows_concat(a: Seq<FileNode>, b: Seq<FileNode>, depth: nat)
    ensures
        forest_rows(a + b, depth) == forest_rows(a, depth) + forest_rows(b, depth),
    decreases b.len(),
{
    if b.len() == 0 {
        assert(a + b =~= a);
        assert(forest_rows(a, depth) + forest_rows(b, depth) =~= forest_rows(a, depth));
    } else {
        lemma_forest_rows_concat(a, b.drop_last(), depth);
        assert((a + b).drop_last() =~= a + b.drop_last());
        assert((a + b).last() == b.last());
        assert((forest_rows(a, depth) + forest_rows(b.drop_last(), depth)) + b.last().rows_from(
            depth,
        ) =~= forest_rows(a, depth) + (forest_rows(b.drop_last(), depth) + b.last().rows_from(
            depth,
        )));
    }
}

/// The rows of siblings fall into three runs: those of the siblings before
/// the `i`-th, those of the `i`-th, and those of the siblings after it.
pub proof fn lemma_forest_rows_split(items: Seq<FileNode>, i: int, depth: nat)
    requires
        0 <= i < items.len(),
    ensures
        forest_rows(items, depth) == forest_rows(items.subrange(0, i), depth) + items[i].rows_from(
            depth,
        ) + forest_rows(items.subrange(i + 1, items.len() as int), depth),
        forest_rows(items.subrange(0, i + 1), depth) == forest_rows(items.subrange(0, i), depth)
            + items[i].rows_from(depth),
{
    let front = items.subrange(0, i);
    let upto = items.subrange(0, i + 1);
    let back = items.subrange(i + 1, items.len() as int);
    assert(upto.drop_last() =~= front);
    assert(upto.last() == items[i]);
    assert(items =~= upto + back);
    lemma_forest_rows_concat(upto, back, depth);
}

/// How many rows an entry takes up does not depend on how deep it sits.
pub proof fn lemma_rows_len_any_depth(node: FileNode, depth: nat, other: nat)
    ensures
        node.rows_from(depth).len() == node.rows_from(other).len(),
    decreases node,
{
    if node.expanded() {
        lemma_forest_len_any_depth(node.items.unwrap(), depth + 1, other + 1);
    }
}

/// The same for several siblings.
pub proof fn lemma_forest_len_any_depth(items: Seq<FileNode>, depth: nat, other: nat)
    ensures
        forest_rows(items, depth).len() == forest_rows(items, other).len(),
    decreases items,
{
    if items.len() > 0 {
        lemma_forest_len_any_depth(items.drop_last(), depth, other);
        lemma_rows_len_any_depth(items.last(), depth, other);
    }
}

/// An entry reached from `node` through open directories has a row among
/// the rows of `node`, at the place `row_of` gives, with the depth of `node`
/// plus the length of the trail.
pub proof fn lemma_reached_entry_has_row(node: FileNode, trail: Seq<int>, depth: nat)
    requires
        node.opens_to(trail),
    ensures
        node.node_at(trail).is_some(),
        0 <= node.row_of(trail) < node.rows_from(depth).len(),
        node.rows_from(depth)[node.row_of(trail)] == (Row {
            node: node.node_at(trail).unwrap(),
            depth: depth + trail.len(),
        }),
    decreases trail.len(),
{
    if trail.len() > 0 {
        let items = node.items.unwrap();
        let i = trail[0];
        let child = items[i];
        let rest = trail.drop_first();
        lemma_reached_entry_has_row(child, rest, depth + 1);
        lemma_forest_rows_split(items, i, depth + 1);
        lemma_forest_len_any_depth(items.subrange(0, i), depth + 1, 0);
        let before = forest_rows(items.subrange(0, i), depth + 1);
        let own = child.rows_from(depth + 1);
        let after = forest_rows(items.subrange(i + 1, items.len() as int), depth + 1);
        let all = seq![Row { node, depth }] + (before + own + after);
        assert(node.rows_from(depth) == all);
        assert(all[1 + before.len() + child.row_of(rest)] == own[child.row_of(rest)]);
    }
}

/// Every row of `node` belongs to an entry reached from `node` through open
/// directories; the trail to it is handed back.
pub proof fn lemma_row_has_reached_entry(node: FileNode, depth: nat, row: int) -> (trail: Seq<int>)
    requires
        0 <= row < node.rows_from(depth).len(),
    ensures
        node.opens_to(trail),
        node.row_of(trail) == row,
    decreases node,
{
    if row == 0 {
        Seq::empty()
    } else {
        let items = node.items.unwrap();
        let (i, rest) = lemma_forest_row_has_reached_entry(items, depth + 1, row - 1);
        lemma_forest_len_any_depth(items.subrange(0, i), depth + 1, 0);
        let trail = seq![i] + rest;
        assert(trail.drop_first() =~= rest);
        trail
    }
}

/// Every row of several siblings belongs to an entry reached from one of
/// them; which sibling and the trail from it are handed back.
pub proof fn lemma_forest_row_has_reached_entry(items: Seq<FileNode>, depth: nat, row: int) -> (found:
    (int, Seq<int>))
    requires
        0 <= row < forest_rows(items, depth).len(),
    ensures
        0 <= found.0 < items.len(),
        items[found.0].opens_to(found.1),
        forest_rows(items.subrange(0, found.0), depth).len() + items[found.0].row_of(found.1)
            == row,
    decreases items,
{
    let front = items.drop_last();
    let shown = forest_rows(front, depth).len();
    if row < shown {
        let found = lemma_forest_row_has_reached_entry(front, depth, row);
        assert(front.subrange(0, found.0) =~= items.subrange(0, found.0));
        found
    } else {
        let trail = lemma_row_has_reached_entry(items.last(), depth, row - shown);
        assert(items.subrange(0, items.len() - 1) =~= front);
        (items.len() - 1, trail)
    }
}

/// How many rows the siblings before a position take up grows with the
/// position.
pub proof fn lemma_forest_len_monotone(items: Seq<FileNode>, i: int, j: int)
    requires
        0 <= i <= j <= items.len(),
    ensures
        forest_rows(items.subrange(0, i), 0).len() <= forest_rows(items.subrange(0, j), 0).len(),
    decreases j - i,
{
    if i < j {
        lemma_forest_len_monotone(items, i, j - 1);
        lemma_forest_rows_split(items, j - 1, 0);
    }
}

/// Of two entries reached from `node`, the one whose trail comes first in
/// pre-order has the earlier row.
pub proof fn lemma_rows_in_pre_order(node: FileNode, a: Seq<int>, b: Seq<int>)
    requires
        node.opens_to(a),
        node.opens_to(b),
        trail_before(a, b),
    ensures
        node.row_of(a) < node.row_of(b),
    decreases a.len(),
{
    let items = node.items.unwrap();
    lemma_reached_entry_has_row(items[b[0]], b.drop_first(), 0);
    if a.len() > 0 {
        lemma_reached_entry_has_row(items[a[0]], a.drop_first(), 0);
        if a[0] == b[0] {
            lemma_rows_in_pre_order(items[a[0]], a.drop_first(), b.drop_first());
        } else {
            lemma_forest_rows_split(items, a[0], 0);
            lemma_forest_len_monotone(items, a[0] + 1, b[0]);
        }
    }
}

/// Every entry below the root that is reached through open directories only
/// is in the flattened visible list, at the place `visible_index` gives and
/// with its distance from the root's children as depth.
pub proof fn lemma_shown_entry_is_visible(root: FileNode, trail: Seq<int>)
    requires
        root.shows(trail),
    ensures
        root.node_at(trail).is_some(),
        0 <= root.visible_index(trail) < root.visible().len(),
        root.visible()[root.visible_index(trail)] == (Row {
            node: root.node_at(trail).unwrap(),
            depth: (trail.len() - 1) as nat,
        }),
{
    let items = root.items.unwrap();
    let i = trail[0];
    let rest = trail.drop_first();
    lemma_reached_entry_has_row(items[i], rest, 0);
    lemma_forest_rows_split(items, i, 0);
    let before = forest_rows(items.subrange(0, i), 0);
    let own = items[i].rows_from(0);
    let after = forest_rows(items.subrange(i + 1, items.len() as int), 0);
    assert((before + own + after)[before.len() + items[i].row_of(rest)] == own[items[i].row_of(
        rest,
    )]);
}

/// Every row of the flattened visible list belongs to an entry below the
/// root that is reached through open directories only: the list holds
/// nothing else, and not the root. The trail to the entry is handed back.
pub proof fn lemma_visible_row_is_shown(root: FileNode, row: int) -> (trail: Seq<int>)
    requires
        0 <= row < root.visible().len(),
    ensures
        root.shows(trail),
        root.visible_index(trail) == row,
        root.node_at(trail) == Some(root.visible()[row].node),
        root.visible()[row].depth + 1 == trail.len(),
{
    let items = root.items.unwrap();
    let (i, rest) = lemma_forest_row_has_reached_entry(items, 0, row);
    let trail = seq![i] + rest;
    assert(trail.drop_first() =~= rest);
    lemma_shown_entry_is_visible(root, trail);
    trail
}

/// The flattened visible list is in pre-order: an entry comes before what is
/// below it, and what is below a sibling comes before the next sibling.
pub proof fn lemma_visible_in_pre_order(root: FileNode, a: Seq<int>, b: Seq<int>)
    requires
        root.shows(a),
        root.shows(b),
        trail_before(a, b),
    ensures
        root.visible_index(a) < root.visible_index(b),
{
    let items = root.items.unwrap();
    lemma_reached_entry_has_row(items[a[0]], a.drop_first(), 0);
    lemma_reached_entry_has_row(items[b[0]], b.drop_first(), 0);
    if a[0] == b[0] {
        lemma_rows_in_pre_order(items[a[0]], a.drop_first(), b.drop_first());
    } else {
        lemma_forest_rows_split(items, a[0], 0);
        lemma_forest_len_monotone(items, a[0] + 1, b[0]);
    }
}

} // verus!

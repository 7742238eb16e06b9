use vstd::prelude::*;
use vstd::utf8::encode_utf8;
use crate::node::FileNode;

verus! {

/// Strict lexicographic order on byte strings: a proper prefix comes first,
/// otherwise the first differing byte decides.
pub open spec fn bytes_before(a: Seq<u8>, b: Seq<u8>) -> bool
    decreases a.len(),
{
    if b.len() == 0 {
        false
    } else if a.len() == 0 {
        true
    } else if a[0] != b[0] {
        a[0] < b[0]
    } else {
        bytes_before(a.drop_first(), b.drop_first())
    }
}

/// The listing order of a directory: directories before files, and within
/// each kind by the bytes of the name, ascending.
pub open spec fn sorts_before(a: FileNode, b: FileNode) -> bool {
    ||| a.is_dir() && !b.is_dir()
    ||| a.is_dir() == b.is_dir() && bytes_before(encode_utf8(a.name), encode_utf8(b.name))
}

/// `sorted` with `node` put behind every entry that does not sort after it.
pub open spec fn insert_sorted(sorted: Seq<FileNode>, node: FileNode) -> Seq<FileNode>
    decreases sorted.len(),
{
    if sorted.len() == 0 {
        seq![node]
    } else if sorts_before(node, sorted[0]) {
        seq![node] + sorted
    } else {
        seq![sorted[0]] + insert_sorted(sorted.drop_first(), node)
    }
}

/// The entries in listing order; entries that sort alike keep the order
/// they came in.
pub open spec fn sort_nodes(nodes: Seq<FileNode>) -> Seq<FileNode>
    decreases nodes.len(),
{
    if nodes.len() == 0 {
        Seq::empty()
    } else {
        insert_sorted(sort_nodes(nodes.drop_last()), nodes.last())
    }
}

/// No entry is followed, anywhere later, by one that sorts before it.
pub open spec fn in_listing_order(nodes: Seq<FileNode>) -> bool {
    forall|i: int, j: int| 0 <= i < j < nodes.len() ==> !sorts_before(nodes[j], nodes[i])
}

/// Decides `bytes_before` on two byte strings.
pub fn bytes_sort_before(a: &[u8], b: &[u8]) -> (before: bool)
    ensures
        before == bytes_before(a@, b@),
{
    let mut i: usize = 0;
    proof {
        assert(a@.skip(0) =~= a@);
        assert(b@.skip(0) =~= b@);
    }
    while i < a.len() && i < b.len()
        invariant
            i <= a.len(),
            i <= b.len(),
            bytes_before(a@, b@) == bytes_before(a@.skip(i as int), b@.skip(i as int)),
        decreases a.len() - i,
    {
        proof {
            assert(a@.skip(i as int).drop_first() =~= a@.skip(i + 1));
            assert(b@.skip(i as int).drop_first() =~= b@.skip(i + 1));
            assert(a@.skip(i as int)[0] == a@[i as int]);
            assert(b@.skip(i as int)[0] == b@[i as int]);
        }
        if a[i] != b[i] {
            return a[i] < b[i];
        }
        i += 1;
    }
    i < b.len()
}

/// Where `insert_sorted` puts `node`: in front of the first entry that
/// `node` sorts before, or at the end.
pub open spec fn insert_position(sorted: Seq<FileNode>, node: FileNode) -> int
    decreases sorted.len(),
{
    if sorted.len() == 0 {
        0
    } else if sorts_before(node, sorted[0]) {
        0
    } else {
        1 + insert_position(sorted.drop_first(), node)
    }
}

/// `insert_sorted` adds `node` at `insert_position` and moves nothing else.
pub proof fn lemma_insert_position(sorted: Seq<FileNode>, node: FileNode)
    ensures
        0 <= insert_position(sorted, node) <= sorted.len(),
        insert_sorted(sorted, node) == sorted.insert(insert_position(sorted, node), node),
        forall|k: int|
            0 <= k < insert_position(sorted, node) ==> !sorts_before(node, #[trigger] sorted[k]),
        insert_position(sorted, node) < sorted.len() ==> sorts_before(
            node,
            sorted[insert_position(sorted, node)],
        ),
    decreases sorted.len(),
{
    if sorted.len() == 0 {
        assert(seq![node] =~= sorted.insert(0, node));
    } else if sorts_before(node, sorted[0]) {
        assert(seq![node] + sorted =~= sorted.insert(0, node));
    } else {
        let rest = sorted.drop_first();
        let position = insert_position(rest, node);
        lemma_insert_position(rest, node);
        assert(seq![sorted[0]] + rest.insert(position, node) =~= sorted.insert(
            position + 1,
            node,
        ));
        assert forall|k: int| 0 <= k < position + 1 implies !sorts_before(
            node,
            #[trigger] sorted[k],
        ) by {
            if k > 0 {
                assert(sorted[k] == rest[k - 1]);
            }
        }
        if position < rest.len() {
            assert(sorted[position + 1] == rest[position]);
        }
    }
}

/// Of two byte strings at most one comes before the other.
pub proof fn lemma_bytes_before_asymmetric(a: Seq<u8>, b: Seq<u8>)
    ensures
        !(bytes_before(a, b) && bytes_before(b, a)),
    decreases a.len(),
{
    if a.len() > 0 && b.len() > 0 && a[0] == b[0] {
        lemma_bytes_before_asymmetric(a.drop_first(), b.drop_first());
    }
}

/// The order on byte strings is transitive.
pub proof fn lemma_bytes_before_transitive(a: Seq<u8>, b: Seq<u8>, c: Seq<u8>)
    requires
        bytes_before(a, b),
        bytes_before(b, c),
    ensures
        bytes_before(a, c),
    decreases a.len(),
{
    if a.len() > 0 && b.len() > 0 && c.len() > 0 && a[0] == b[0] && b[0] == c[0] {
        lemma_bytes_before_transitive(a.drop_first(), b.drop_first(), c.drop_first());
    }
}

/// Two byte strings of which neither comes before the other are the same.
pub proof fn lemma_bytes_before_total(a: Seq<u8>, b: Seq<u8>)
    requires
        !bytes_before(a, b),
        !bytes_before(b, a),
    ensures
        a == b,
    decreases a.len(),
{
    if a.len() > 0 && b.len() > 0 {
        lemma_bytes_before_total(a.drop_first(), b.drop_first());
        assert(a =~= seq![a[0]] + a.drop_first());
        assert(b =~= seq![b[0]] + b.drop_first());
    } else {
        assert(a =~= b);
    }
}

/// Of two entries at most one sorts before the other.
pub proof fn lemma_sorts_before_asymmetric(a: FileNode, b: FileNode)
    ensures
        !(sorts_before(a, b) && sorts_before(b, a)),
{
    lemma_bytes_before_asymmetric(encode_utf8(a.name), encode_utf8(b.name));
}

/// The listing order is transitive.
pub proof fn lemma_sorts_before_transitive(a: FileNode, b: FileNode, c: FileNode)
    requires
        sorts_before(a, b),
        sorts_before(b, c),
    ensures
        sorts_before(a, c),
{
    if a.is_dir() == b.is_dir() && b.is_dir() == c.is_dir() {
        lemma_bytes_before_transitive(
            encode_utf8(a.name),
            encode_utf8(b.name),
            encode_utf8(c.name),
        );
    }
}

/// Inserting into a listing that is in order leaves it in order.
pub proof fn lemma_insert_keeps_order(sorted: Seq<FileNode>, node: FileNode)
    requires
        in_listing_order(sorted),
    ensures
        in_listing_order(insert_sorted(sorted, node)),
{
    lemma_insert_position(sorted, node);
    let position = insert_position(sorted, node);
    let longer = sorted.insert(position, node);
    assert forall|i: int, j: int| 0 <= i < j < longer.len() implies !sorts_before(
        longer[j],
        longer[i],
    ) by {
        if j == position {
            assert(longer[i] == sorted[i]);
        } else if i == position {
            assert(longer[j] == sorted[j - 1]);
            lemma_sorts_before_asymmetric(node, sorted[position]);
            if j - 1 > position {
                if sorts_before(sorted[j - 1], node) {
                    lemma_sorts_before_transitive(sorted[j - 1], node, sorted[position]);
                }
            }
        } else {
            let from = if i < position { i } else { i - 1 };
            let to = if j < position { j } else { j - 1 };
            assert(longer[i] == sorted[from]);
            assert(longer[j] == sorted[to]);
        }
    }
}

/// A sorted listing is in order: directories come first, and within each
/// kind the names ascend.
pub proof fn lemma_sort_in_listing_order(nodes: Seq<FileNode>)
    ensures
        in_listing_order(sort_nodes(nodes)),
    decreases nodes.len(),
{
    if nodes.len() > 0 {
        lemma_sort_in_listing_order(nodes.drop_last());
        lemma_insert_keeps_order(sort_nodes(nodes.drop_last()), nodes.last());
    }
}

/// Sorting neither drops nor adds nor repeats an entry.
pub proof fn lemma_sort_is_permutation(nodes: Seq<FileNode>)
    ensures
        sort_nodes(nodes).to_multiset() == nodes.to_multiset(),
        sort_nodes(nodes).len() == nodes.len(),
    decreases nodes.len(),
{
    if nodes.len() > 0 {
        let front = nodes.drop_last();
        lemma_sort_is_permutation(front);
        lemma_insert_position(sort_nodes(front), nodes.last());
        vstd::seq_lib::to_multiset_insert(
            sort_nodes(front),
            insert_position(sort_nodes(front), nodes.last()),
            nodes.last(),
        );
        assert(nodes =~= front.push(nodes.last()));
        vstd::seq_lib::to_multiset_build(front, nodes.last());
    } else {
        assert(sort_nodes(nodes) =~= nodes);
    }
}

} // verus!

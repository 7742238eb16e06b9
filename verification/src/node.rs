use vstd::prelude::*;

verus! {

/// The mathematical value of one filesystem entry and everything below it.
///
/// An entry is a directory exactly when `items` is present; `is_open` tells
/// whether a directory shows its children.
pub struct FileNode {
    pub name: Seq<char>,
    pub path: Seq<char>,
    pub items: Option<Seq<FileNode>>,
    pub is_open: Option<bool>,
}

/// One line of the flattened tree: an entry and how deep it sits below the
/// root's children.
pub struct Row {
    pub node: FileNode,
    pub depth: nat,
}

/// `n` blanks.
pub open spec fn spaces(n: nat) -> Seq<char> {
    Seq::new(n, |i: int| ' ')
}

/// The rendered text of a sequence of rows, in order.
pub open spec fn row_texts(rows: Seq<Row>) -> Seq<Seq<char>> {
    rows.map_values(|row: Row| row.text())
}

impl Row {
    /// The rendered line: indentation, icon, a blank, the entry's name.
    pub open spec fn text(self) -> Seq<char> {
        spaces(self.depth) + self.node.icon() + " "@ + self.node.name
    }
}

impl FileNode {
    pub open spec fn is_dir(self) -> bool {
        self.items.is_some()
    }

    /// A directory whose children are shown.
    pub open spec fn expanded(self) -> bool {
        self.items.is_some() && self.is_open == Some(true)
    }

    /// Every entry of the subtree carries `is_open` exactly when it is a
    /// directory.
    pub open spec fn wf(self) -> bool
        decreases self,
    {
        &&& self.items.is_some() == self.is_open.is_some()
        &&& match self.items {
            Some(items) => forall|i: int| 0 <= i < items.len() ==> (#[trigger] items[i]).wf(),
            None => true,
        }
    }

    pub open spec fn icon(self) -> Seq<char> {
        if self.items.is_some() {
            if self.is_open == Some(true) {
                "\u{1F4C2}"@
            } else {
                "\u{1F4C1}"@
            }
        } else {
            "\u{1F4C4}"@
        }
    }

    /// This entry at `depth`, followed in pre-order by what it shows below it.
    pub open spec fn rows_from(self, depth: nat) -> Seq<Row>
        decreases self,
    {
        seq![Row { node: self, depth }] + (if self.expanded() {
            forest_rows(self.items.unwrap(), depth + 1)
        } else {
            Seq::empty()
        })
    }

    /// The flattened visible list: the children of this entry and, below each
    /// open directory, its children in turn. The entry itself is left out.
    pub open spec fn visible(self) -> Seq<Row> {
        match self.items {
            Some(items) => forest_rows(items, 0),
            None => Seq::empty(),
        }
    }

    /// The first entry with the given path, searching this entry and then its
    /// children in order, open or not.
    pub open spec fn find(self, path: Seq<char>) -> Option<FileNode>
        decreases self,
    {
        if self.path == path {
            Some(self)
        } else {
            match self.items {
                Some(items) => find_in(items, path),
                None => None,
            }
        }
    }

    /// This subtree with the entry that `find` returns exchanged for
    /// `new_node`.
    pub open spec fn replaced(self, path: Seq<char>, new_node: FileNode) -> FileNode
        decreases self,
    {
        if self.path == path {
            new_node
        } else {
            match self.items {
                Some(items) => FileNode {
                    items: Some(replaced_in(items, path, new_node)),
                    ..self
                },
                None => self,
            }
        }
    }

    /// A directory with its open flag flipped; a file as it was.
    pub open spec fn toggled(self) -> FileNode {
        if self.items.is_some() {
            match self.is_open {
                Some(open) => FileNode { is_open: Some(!open), ..self },
                None => self,
            }
        } else {
            self
        }
    }

    /// This subtree after toggling the entry that `find` returns for `path`.
    pub open spec fn toggled_at(self, path: Seq<char>) -> FileNode {
        match self.find(path) {
            Some(node) => self.replaced(path, node.toggled()),
            None => self,
        }
    }

    /// This directory with one more child at the end; a file as it was.
    pub open spec fn with_item(self, item: FileNode) -> FileNode {
        match self.items {
            Some(items) => FileNode { items: Some(items.push(item)), ..self },
            None => self,
        }
    }
}

/// The rows of several sibling entries at `depth`, one subtree after another.
pub open spec fn forest_rows(items: Seq<FileNode>, depth: nat) -> Seq<Row>
    decreases items,
{
    if items.len() == 0 {
        Seq::empty()
    } else {
        forest_rows(items.drop_last(), depth) + items.last().rows_from(depth)
    }
}

/// The first entry with the given path among several subtrees.
pub open spec fn find_in(items: Seq<FileNode>, path: Seq<char>) -> Option<FileNode>
    decreases items,
{
    if items.len() == 0 {
        None
    } else {
        match items[0].find(path) {
            Some(node) => Some(node),
            None => find_in(items.drop_first(), path),
        }
    }
}

/// Several subtrees with the entry that `find_in` returns exchanged for
/// `new_node`.
pub open spec fn replaced_in(items: Seq<FileNode>, path: Seq<char>, new_node: FileNode) -> Seq<
    FileNode,
>
    decreases items,
{
    if items.len() == 0 {
        items
    } else if items[0].find(path).is_some() {
        seq![items[0].replaced(path, new_node)] + items.drop_first()
    } else {
        seq![items[0]] + replaced_in(items.drop_first(), path, new_node)
    }
}

/// Where the `i`-th of several subtrees is the first that holds `path`, the
/// search ends in it, and an exchange touches that subtree alone.
pub proof fn lemma_first_holder(nodes: Seq<FileNode>, i: int, path: Seq<char>, new_node: FileNode)
    requires
        0 <= i < nodes.len(),
        nodes[i].find(path).is_some(),
        forall|j: int| 0 <= j < i ==> (#[trigger] nodes[j]).find(path).is_none(),
    ensures
        find_in(nodes, path) == nodes[i].find(path),
        replaced_in(nodes, path, new_node) == nodes.update(i, nodes[i].replaced(path, new_node)),
    decreases i,
{
    if i == 0 {
        assert(seq![nodes[0].replaced(path, new_node)] + nodes.drop_first() =~= nodes.update(
            0,
            nodes[0].replaced(path, new_node),
        ));
    } else {
        let rest = nodes.drop_first();
        assert forall|j: int| 0 <= j < i - 1 implies (#[trigger] rest[j]).find(path).is_none() by {
            assert(rest[j] == nodes[j + 1]);
        }
        assert(nodes[0].find(path).is_none());
        lemma_first_holder(rest, i - 1, path, new_node);
        assert(seq![nodes[0]] + rest.update(i - 1, nodes[i].replaced(path, new_node))
            =~= nodes.update(i, nodes[i].replaced(path, new_node)));
    }
}

/// Where none of several subtrees holds `path`, the search finds nothing and
/// an exchange changes nothing.
pub proof fn lemma_no_holder(nodes: Seq<FileNode>, path: Seq<char>, new_node: FileNode)
    requires
        forall|j: int| 0 <= j < nodes.len() ==> (#[trigger] nodes[j]).find(path).is_none(),
    ensures
        find_in(nodes, path).is_none(),
        replaced_in(nodes, path, new_node) == nodes,
    decreases nodes.len(),
{
    if nodes.len() > 0 {
        let rest = nodes.drop_first();
        assert forall|j: int| 0 <= j < rest.len() implies (#[trigger] rest[j]).find(path).is_none() by {
            assert(rest[j] == nodes[j + 1]);
        }
        assert(nodes[0].find(path).is_none());
        lemma_no_holder(rest, path, new_node);
        assert(seq![nodes[0]] + rest =~= nodes);
    }
}

} // verus!

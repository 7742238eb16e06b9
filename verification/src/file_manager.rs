use vstd::prelude::*;
use vstd::string::StringExecFns;
use crate::laws::{lemma_found_wf, lemma_replaced_wf, lemma_tree_wf};
use crate::order::{bytes_sort_before, insert_sorted, sort_nodes, sorts_before};
use crate::scan::{ScanEntry, ScanError, forest, scan_nodes};
use crate::node::{
    FileNode, Row, forest_rows, lemma_first_holder, lemma_no_holder, row_texts, spaces,
};

verus! {

/// One filesystem entry, file or directory, owning the entries below it.
#[derive(Debug)]
pub struct FileItem {
    name: String,
    path: String,
    items: Option<Vec<FileItem>>,
    is_open: Option<bool>,
}

impl View for FileItem {
    type V = FileNode;

    closed spec fn view(&self) -> FileNode
        decreases self,
    {
        FileNode {
            name: self.name@,
            path: self.path@,
            items: match self.items {
                Some(items) => Some(nodes_of(items@)),
                None => None,
            },
            is_open: self.is_open,
        }
    }
}

/// The values of a sequence of entries, built up from the front.
spec fn nodes_of(items: Seq<FileItem>) -> Seq<FileNode>
    decreases items,
{
    if items.len() == 0 {
        Seq::empty()
    } else {
        nodes_of(items.drop_last()).push(items.last()@)
    }
}

proof fn nodes_of_is_map(items: Seq<FileItem>)
    ensures
        nodes_of(items) == item_nodes(items),
    decreases items.len(),
{
    if items.len() > 0 {
        let front = items.drop_last();
        nodes_of_is_map(front);
        assert(nodes_of(items) == nodes_of(front).push(items.last()@));
        assert(item_nodes(front).len() == front.len());
        assert forall|i: int| 0 <= i < items.len() implies nodes_of(items)[i] == item_nodes(
            items,
        )[i] by {
            if i < front.len() {
                assert(item_nodes(front)[i] == front[i]@);
                assert(front[i] == items[i]);
            }
        }
        assert(nodes_of(items) =~= item_nodes(items));
    } else {
        assert(nodes_of(items) =~= item_nodes(items));
    }
}

/// The rows of the first `i + 1` siblings are those of the first `i`
/// followed by the rows of the next one.
proof fn lemma_forest_step(nodes: Seq<FileNode>, i: int, depth: nat)
    requires
        0 <= i < nodes.len(),
    ensures
        forest_rows(nodes.subrange(0, i + 1), depth) == forest_rows(nodes.subrange(0, i), depth)
            + nodes[i].rows_from(depth),
{
    assert(nodes.subrange(0, i + 1).drop_last() =~= nodes.subrange(0, i));
}

proof fn lemma_row_texts_concat(a: Seq<Row>, b: Seq<Row>)
    ensures
        row_texts(a + b) == row_texts(a) + row_texts(b),
{
    assert(row_texts(a + b) =~= row_texts(a) + row_texts(b));
}

/// In a well-formed tree what is found is well formed, and exchanging it for
/// a well-formed entry leaves the tree well formed.
proof fn lemma_exchange_wf(node: FileNode, path: Seq<char>, new_node: FileNode)
    ensures
        node.wf() && node.find(path).is_some() ==> node.find(path).unwrap().wf(),
        node.wf() && new_node.wf() ==> node.replaced(path, new_node).wf(),
{
    if node.wf() {
        lemma_found_wf(node, path);
        if new_node.wf() {
            lemma_replaced_wf(node, path, new_node);
        }
    }
}

/// The values of a sequence of entries.
pub open spec fn item_nodes(items: Seq<FileItem>) -> Seq<FileNode> {
    items.map_values(|item: FileItem| item@)
}

/// The rows that a sequence of borrowed entries with their depths stands for.
pub open spec fn ref_rows(items: Seq<(&FileItem, usize)>) -> Seq<Row> {
    items.map_values(|item: (&FileItem, usize)| Row { node: item.0@, depth: item.1 as nat })
}

/// A string of `count` blanks.
fn blanks(count: usize) -> (indent: String)
    ensures
        indent@ == spaces(count as nat),
{
    let mut indent = String::new();
    let mut i: usize = 0;
    assert(indent@ =~= spaces(0));
    while i < count
        invariant
            i <= count,
            indent@ == spaces(i as nat),
        decreases count - i,
    {
        indent.append(" ");
        proof {
            reveal_strlit(" ");
            assert(indent@ =~= spaces((i + 1) as nat));
        }
        i += 1;
    }
    indent
}

/// The contents of a sequence of strings.
pub open spec fn texts(lines: Seq<String>) -> Seq<Seq<char>> {
    lines.map_values(|line: String| line@)
}

impl FileItem {
    /// A childless entry: a closed directory when `is_dir`, else a file.
    pub fn new(name: &str, path: &str, is_dir: bool) -> (item: Self)
        ensures
            item@ == (FileNode {
                name: name@,
                path: path@,
                items: if is_dir {
                    Some(Seq::empty())
                } else {
                    None
                },
                is_open: if is_dir {
                    Some(false)
                } else {
                    None
                },
            }),
            item@.wf(),
    {
        let item = if is_dir {
            FileItem {
                name: name.to_owned(),
                path: path.to_owned(),
                items: Some(Vec::new()),
                is_open: Some(false),
            }
        } else {
            FileItem { name: name.to_owned(), path: path.to_owned(), items: None, is_open: None }
        };
        proof {
            if is_dir {
                assert(item@.items.unwrap() =~= Seq::empty());
            }
        }
        item
    }

    pub fn get_name(&self) -> (name: &str)
        ensures
            name@ == self@.name,
    {
        self.name.as_str()
    }

    pub fn get_path(&self) -> (path: &str)
        ensures
            path@ == self@.path,
    {
        self.path.as_str()
    }

    /// The children of a directory; nothing for a file.
    pub fn get_items(&self) -> (items: Option<&Vec<Self>>)
        ensures
            match items {
                Some(children) => self@.items == Some(item_nodes(children@)),
                None => self@.items.is_none(),
            },
    {
        proof {
            self.items_view();
        }
        self.items.as_ref()
    }

    /// What the view of a directory holds, child by child.
    proof fn items_view(&self)
        ensures
            match self.items {
                Some(children) => self@.items == Some(item_nodes(children@)),
                None => self@.items.is_none(),
            },
            self@.name == self.name@,
            self@.path == self.path@,
            self@.is_open == self.is_open,
    {
        match self.items {
            Some(children) => {
                nodes_of_is_map(children@);
            },
            None => {},
        }
    }

    /// Appends `item` to a directory's children; does nothing to a file.
    pub fn add_item(&mut self, item: FileItem)
        ensures
            final(self)@ == old(self)@.with_item(item@),
            old(self)@.wf() && item@.wf() ==> final(self)@.wf(),
    {
        proof {
            self.items_view();
        }
        if let Some(items) = &mut self.items {
            items.push(item);
        }
        proof {
            self.items_view();
            if old(self).items.is_some() {
                assert(item_nodes(self.items.unwrap()@) =~= item_nodes(
                    old(self).items.unwrap()@,
                ).push(item@));
            }
        }
    }

    /// Opens a closed directory and closes an open one; does nothing to a
    /// file.
    pub fn toggle_open(&mut self)
        ensures
            final(self)@ == old(self)@.toggled(),
            old(self)@.wf() ==> final(self)@.wf(),
    {
        proof {
            self.items_view();
        }
        if self.items.is_some() {
            if let Some(open) = self.is_open {
                self.is_open = Some(!open);
            }
        }
        proof {
            self.items_view();
        }
    }

    /// The rendered lines of the flattened visible list, the root left out.
    pub fn tree_to_string_without_root(&self) -> (lines: Vec<String>)
        ensures
            texts(lines@) == row_texts(self@.visible()),
    {
        let mut result: Vec<String> = Vec::new();
        proof {
            self.items_view();
            assert(texts(result@) =~= Seq::empty());
            assert(row_texts(Seq::<Row>::empty()) =~= Seq::empty());
        }
        if let Some(items) = &self.items {
            let ghost nodes = item_nodes(items@);
            let mut i: usize = 0;
            assert(nodes.subrange(0, 0) =~= Seq::empty());
            while i < items.len()
                invariant
                    i <= items.len(),
                    nodes == item_nodes(items@),
                    texts(result@) == row_texts(forest_rows(nodes.subrange(0, i as int), 0)),
                decreases items.len() - i,
            {
                items[i].flatten_tree_str(&mut result, 0);
                proof {
                    lemma_forest_step(nodes, i as int, 0);
                    lemma_row_texts_concat(
                        forest_rows(nodes.subrange(0, i as int), 0),
                        items@[i as int]@.rows_from(0),
                    );
                }
                i += 1;
            }
            assert(nodes.subrange(0, i as int) =~= nodes);
        }
        result
    }

    /// Appends the line of this entry, indented by `level` blanks, and the
    /// lines of what it shows below it, each level one blank further in.
    fn flatten_tree_str(&self, result: &mut Vec<String>, level: usize)
        requires
            level <= old(result)@.len(),
        ensures
            texts(final(result)@) == texts(old(result)@) + row_texts(
                self@.rows_from(level as nat),
            ),
        decreases self@,
    {
        proof {
            self.items_view();
        }
        let ghost depth = level as nat;
        let open = match self.is_open {
            Some(flag) => flag,
            None => false,
        };
        let icon = if self.items.is_some() {
            if open {
                "\u{1F4C2}"
            } else {
                "\u{1F4C1}"
            }
        } else {
            "\u{1F4C4}"
        };
        let mut line = blanks(level);
        line.append(icon);
        line.append(" ");
        line.append(self.name.as_str());
        let ghost row = Row { node: self@, depth };
        assert(line@ == row.text());
        result.push(line);
        assert(texts(result@) =~= texts(old(result)@) + row_texts(seq![row]));
        if let Some(items) = &self.items {
            if open {
                let ghost nodes = item_nodes(items@);
                let mut i: usize = 0;
                assert(nodes.subrange(0, 0) =~= Seq::empty());
                assert(row_texts(seq![row] + Seq::empty()) =~= row_texts(seq![row]));
                while i < items.len()
                    invariant
                        i <= items.len(),
                        level < result@.len(),
                        depth == level,
                        self@.items == Some(nodes),
                        nodes == item_nodes(items@),
                        texts(result@) == texts(old(result)@) + row_texts(
                            seq![row] + forest_rows(nodes.subrange(0, i as int), depth + 1),
                        ),
                    decreases items.len() - i,
                {
                    assert(nodes[i as int] == items@[i as int]@);
                    assert(decreases_to!(self@ => self@.items.unwrap()[i as int]));
                    assert(result@.len() == result.len());
                    let ghost before = result@;
                    items[i].flatten_tree_str(result, level + 1);
                    proof {
                        lemma_forest_step(nodes, i as int, depth + 1);
                        let shown = forest_rows(nodes.subrange(0, i as int), depth + 1);
                        let more = items@[i as int]@.rows_from(depth + 1);
                        lemma_row_texts_concat(seq![row] + shown, more);
                        assert((seq![row] + shown) + more =~= seq![row] + (shown + more));
                        assert(texts(result@).len() == result@.len());
                        assert(texts(before).len() == before.len());
                    }
                    i += 1;
                }
                assert(nodes.subrange(0, i as int) =~= nodes);
            }
        }
        proof {
            assert(row_texts(seq![row] + Seq::empty()) =~= row_texts(seq![row]));
        }
    }

    /// The flattened visible list: the entries below the root that are shown,
    /// in pre-order, each with its depth below the root's children.
    pub fn flatten_visible(&self) -> (flat_list: Vec<(&Self, usize)>)
        ensures
            ref_rows(flat_list@) == self@.visible(),
    {
        let mut flat_list: Vec<(&FileItem, usize)> = Vec::new();
        proof {
            self.items_view();
            assert(ref_rows(flat_list@) =~= Seq::empty());
        }
        if let Some(items) = &self.items {
            let ghost nodes = item_nodes(items@);
            let mut i: usize = 0;
            assert(nodes.subrange(0, 0) =~= Seq::empty());
            while i < items.len()
                invariant
                    i <= items.len(),
                    nodes == item_nodes(items@),
                    ref_rows(flat_list@) == forest_rows(nodes.subrange(0, i as int), 0),
                decreases items.len() - i,
            {
                items[i].flatten_to_vec(&mut flat_list, 0);
                proof {
                    lemma_forest_step(nodes, i as int, 0);
                }
                i += 1;
            }
            assert(nodes.subrange(0, i as int) =~= nodes);
        }
        flat_list
    }

    /// The entry at `index` of the flattened visible list, if there is one.
    pub fn get_item_from_flat_index(&self, index: usize) -> (found: Option<&Self>)
        ensures
            match found {
                Some(item) => index < self@.visible().len() && item@ == self@.visible()[
                    index as int
                ].node,
                None => index >= self@.visible().len(),
            },
    {
        let flat_list = self.flatten_visible();
        assert(ref_rows(flat_list@).len() == flat_list@.len());
        if index < flat_list.len() {
            let item = flat_list[index].0;
            assert(ref_rows(flat_list@)[index as int].node == item@);
            Some(item)
        } else {
            None
        }
    }

    /// Appends this entry at depth `level` and, in pre-order, what it shows
    /// below it, each level one deeper.
    fn flatten_to_vec<'a>(&'a self, vec: &mut Vec<(&'a Self, usize)>, level: usize)
        requires
            level <= old(vec)@.len(),
        ensures
            ref_rows(final(vec)@) == ref_rows(old(vec)@) + self@.rows_from(level as nat),
        decreases self@,
    {
        proof {
            self.items_view();
        }
        let ghost depth = level as nat;
        let ghost row = Row { node: self@, depth };
        vec.push((self, level));
        assert(ref_rows(vec@) =~= ref_rows(old(vec)@) + seq![row]);
        let open = match self.is_open {
            Some(flag) => flag,
            None => false,
        };
        if open {
            if let Some(items) = &self.items {
                let ghost nodes = item_nodes(items@);
                let mut i: usize = 0;
                assert(nodes.subrange(0, 0) =~= Seq::empty());
                assert(seq![row] + Seq::empty() =~= seq![row]);
                while i < items.len()
                    invariant
                        i <= items.len(),
                        level < vec@.len(),
                        depth == level,
                        self@.items == Some(nodes),
                        nodes == item_nodes(items@),
                        ref_rows(vec@) == ref_rows(old(vec)@) + (seq![row] + forest_rows(
                            nodes.subrange(0, i as int),
                            depth + 1,
                        )),
                    decreases items.len() - i,
                {
                    assert(nodes[i as int] == items@[i as int]@);
                    assert(decreases_to!(self@ => self@.items.unwrap()[i as int]));
                    let ghost before = vec@;
                    assert(vec@.len() == vec.len());
                    items[i].flatten_to_vec(vec, level + 1);
                    proof {
                        lemma_forest_step(nodes, i as int, depth + 1);
                        let shown = forest_rows(nodes.subrange(0, i as int), depth + 1);
                        let more = items@[i as int]@.rows_from(depth + 1);
                        assert((ref_rows(old(vec)@) + (seq![row] + shown)) + more =~= ref_rows(
                            old(vec)@,
                        ) + (seq![row] + (shown + more)));
                        assert(ref_rows(vec@).len() == vec@.len());
                        assert(ref_rows(before).len() == before.len());
                    }
                    i += 1;
                }
                assert(nodes.subrange(0, i as int) =~= nodes);
            }
        }
        proof {
            assert(seq![row] + Seq::empty() =~= seq![row]);
        }
    }

    /// Whether this entry or one below it, shown or not, has the given path.
    fn holds_path(&self, path: &String) -> (held: bool)
        ensures
            held == self@.find(path@).is_some(),
        decreases self@, 1nat,
    {
        proof {
            self.items_view();
        }
        if self.path == *path {
            return true;
        }
        let first = self.first_holding_child(path);
        proof {
            if self@.items.is_some() {
                let nodes = self@.items.unwrap();
                match first {
                    Some(i) => lemma_first_holder(nodes, i as int, path@, self@),
                    None => lemma_no_holder(nodes, path@, self@),
                }
            }
        }
        first.is_some()
    }

    /// The position of the first child whose subtree holds the given path.
    fn first_holding_child(&self, path: &String) -> (first: Option<usize>)
        ensures
            match first {
                Some(i) => {
                    &&& self@.items.is_some()
                    &&& i < self@.items.unwrap().len()
                    &&& self@.items.unwrap()[i as int].find(path@).is_some()
                    &&& forall|j: int|
                        0 <= j < i ==> (#[trigger] self@.items.unwrap()[j]).find(path@).is_none()
                },
                None => self@.items.is_some() ==> forall|j: int|
                    0 <= j < self@.items.unwrap().len() ==> (#[trigger] self@.items.unwrap()[
                        j
                    ]).find(path@).is_none(),
            },
        decreases self@, 0nat,
    {
        proof {
            self.items_view();
        }
        if let Some(items) = &self.items {
            let ghost nodes = item_nodes(items@);
            let mut i: usize = 0;
            while i < items.len()
                invariant
                    i <= items.len(),
                    self@.items == Some(nodes),
                    nodes == item_nodes(items@),
                    forall|j: int| 0 <= j < i ==> (#[trigger] nodes[j]).find(path@).is_none(),
                decreases items.len() - i,
            {
                assert(nodes[i as int] == items@[i as int]@);
                assert(decreases_to!(self@ => self@.items.unwrap()[i as int]));
                if items[i].holds_path(path) {
                    return Some(i);
                }
                i += 1;
            }
        }
        None
    }

    /// The first entry with the given path, searching this entry and then its
    /// children in order, open or not, for the caller to change in place.
    pub fn find_item_by_path_mut<'a>(&'a mut self, path: &str) -> (found: Option<&'a mut Self>)
        ensures
            match found {
                Some(item) => {
                    &&& old(self)@.find(path@) == Some(item@)
                    &&& final(self)@ == old(self)@.replaced(path@, final(item)@)
                    &&& old(self)@.wf() ==> item@.wf()
                    &&& old(self)@.wf() && final(item)@.wf() ==> final(self)@.wf()
                },
                None => old(self)@.find(path@).is_none() && final(self)@ == old(self)@,
            },
    {
        let owned = path.to_owned();
        let found = self.find_owned_mut(&owned);
        proof {
            lemma_exchange_wf(old(self)@, path@, final(found.unwrap())@);
        }
        found
    }

    /// The search behind `find_item_by_path_mut`, on an owned copy of the
    /// path: it looks for the first child that holds the path before it
    /// borrows that child, so that only one entry is ever borrowed.
    fn find_owned_mut<'a>(&'a mut self, path: &String) -> (found: Option<&'a mut Self>)
        ensures
            match found {
                Some(item) => old(self)@.find(path@) == Some(item@) && final(self)@ == old(
                    self,
                )@.replaced(path@, final(item)@),
                None => old(self)@.find(path@).is_none() && final(self)@ == old(self)@,
            },
        decreases old(self)@,
    {
        proof {
            self.items_view();
        }
        if self.path == *path {
            return Some(self);
        }
        let first = self.first_holding_child(path);
        let ghost self_after = *final(self);
        match first {
            Some(i) => {
                match &mut self.items {
                    Some(items) => {
                        let ghost nodes = item_nodes(items@);
                        let ghost items_after = *final(items);
                        assert(nodes[i as int] == items@[i as int]@);
                        assert(decreases_to!(old(self)@ => old(self)@.items.unwrap()[i as int]));
                        let child = &mut items[i];
                        let ghost child_after = *final(child);
                        let found = child.find_owned_mut(path);
                        proof {
                            let new_node = final(found.unwrap())@;
                            lemma_first_holder(nodes, i as int, path@, new_node);
                            self_after.items_view();
                            assert(item_nodes(items_after@) =~= nodes.update(
                                i as int,
                                child_after@,
                            ));
                        }
                        found
                    },
                    None => None,
                }
            },
            None => {
                proof {
                    if self@.items.is_some() {
                        lemma_no_holder(self@.items.unwrap(), path@, self@);
                    }
                }
                None
            },
        }
    }

    /// Whether this entry comes before `other` in a directory's listing.
    fn listed_before(&self, other: &FileItem) -> (before: bool)
        ensures
            before == sorts_before(self@, other@),
    {
        proof {
            self.items_view();
            other.items_view();
        }
        let self_dir = self.items.is_some();
        let other_dir = other.items.is_some();
        if self_dir != other_dir {
            self_dir
        } else {
            bytes_sort_before(self.name.as_str().as_bytes(), other.name.as_str().as_bytes())
        }
    }

    /// Puts `item` into a listing behind every entry that does not sort
    /// after it.
    fn insert_in_order(sorted: &mut Vec<FileItem>, item: FileItem)
        ensures
            item_nodes(final(sorted)@) == insert_sorted(item_nodes(old(sorted)@), item@),
    {
        let ghost nodes = item_nodes(sorted@);
        let ghost len = nodes.len() as int;
        let mut j: usize = 0;
        proof {
            assert(nodes.subrange(0, 0) + insert_sorted(nodes.subrange(0, len), item@)
                =~= insert_sorted(nodes.subrange(0, len), item@));
            assert(nodes.subrange(0, len) =~= nodes);
        }
        while j < sorted.len() && !item.listed_before(&sorted[j])
            invariant
                j <= sorted.len(),
                sorted@ == old(sorted)@,
                nodes == item_nodes(sorted@),
                len == nodes.len(),
                insert_sorted(nodes, item@) == nodes.subrange(0, j as int) + insert_sorted(
                    nodes.subrange(j as int, len),
                    item@,
                ),
            decreases sorted.len() - j,
        {
            proof {
                let rest = nodes.subrange(j as int, len);
                assert(rest[0] == sorted@[j as int]@);
                assert(rest.drop_first() =~= nodes.subrange(j + 1, len));
                assert(nodes.subrange(0, j as int) + (seq![rest[0]] + insert_sorted(
                    nodes.subrange(j + 1, len),
                    item@,
                )) =~= nodes.subrange(0, j + 1) + insert_sorted(nodes.subrange(j + 1, len), item@));
            }
            j += 1;
        }
        proof {
            let rest = nodes.subrange(j as int, len);
            if j < sorted.len() {
                assert(rest[0] == sorted@[j as int]@);
                assert(nodes.subrange(0, j as int) + (seq![item@] + rest) =~= nodes.insert(
                    j as int,
                    item@,
                ));
            } else {
                assert(nodes.subrange(0, j as int) + seq![item@] =~= nodes.insert(j as int, item@));
            }
            assert(item_nodes(sorted@.insert(j as int, item)) =~= nodes.insert(j as int, item@));
        }
        sorted.insert(j, item);
    }

    /// Builds the tree of a scan: every directory closed, its entries in
    /// listing order. Fails when a listing anywhere in the scan is missing.
    pub fn read_tree(scan: &ScanEntry) -> (built: Result<FileItem, ScanError>)
        ensures
            match built {
                Ok(tree) => scan@.readable() && tree@ == scan@.tree() && tree@.wf(),
                Err(error) => !scan@.readable() && error == ScanError::Unreadable,
            },
        decreases scan@,
    {
        proof {
            lemma_tree_wf(scan@);
        }
        if scan.is_file() {
            return Ok(FileItem::new(scan.get_name(), scan.get_path(), false));
        }
        match scan.get_entries() {
            None => Err(ScanError::Unreadable),
            Some(entries) => {
                let ghost scans = scan_nodes(entries@);
                let mut sorted: Vec<FileItem> = Vec::new();
                let mut i: usize = 0;
                proof {
                    assert(scans.subrange(0, 0) =~= Seq::empty());
                    assert(item_nodes(sorted@) =~= Seq::empty());
                }
                while i < entries.len()
                    invariant
                        i <= entries.len(),
                        !scan@.is_file,
                        scan@.entries == Some(scans),
                        scans == scan_nodes(entries@),
                        forall|k: int| 0 <= k < i ==> (#[trigger] scans[k]).readable(),
                        item_nodes(sorted@) == sort_nodes(forest(scans.subrange(0, i as int))),
                    decreases entries.len() - i,
                {
                    proof {
                        assert(scans[i as int] == entries@[i as int]@);
                        assert(decreases_to!(scan@ => scan@.entries.unwrap()[i as int]));
                        let upto = scans.subrange(0, i + 1);
                        assert(upto.drop_last() =~= scans.subrange(0, i as int));
                        assert(forest(upto).drop_last() =~= forest(scans.subrange(0, i as int)));
                    }
                    match FileItem::read_tree(&entries[i]) {
                        Ok(child) => {
                            FileItem::insert_in_order(&mut sorted, child);
                        },
                        Err(error) => {
                            assert(!scans[i as int].readable());
                            return Err(error);
                        },
                    }
                    i += 1;
                }
                proof {
                    assert(scans.subrange(0, i as int) =~= scans);
                }
                let tree = FileItem {
                    name: scan.get_name().to_owned(),
                    path: scan.get_path().to_owned(),
                    items: Some(sorted),
                    is_open: Some(false),
                };
                proof {
                    tree.items_view();
                }
                Ok(tree)
            },
        }
    }
}

impl Default for FileItem {
    /// A file without a name and without a path.
    fn default() -> (item: Self)
        ensures
            item@ == (FileNode {
                name: Seq::empty(),
                path: Seq::empty(),
                items: None,
                is_open: None,
            }),
    {
        FileItem { name: String::new(), path: String::new(), items: None, is_open: None }
    }
}

impl Clone for FileItem {
    /// A copy of the whole subtree.
    fn clone(&self) -> (copy: Self)
        ensures
            copy@ == self@,
        decreases self@,
    {
        proof {
            self.items_view();
        }
        let items = match &self.items {
            Some(children) => {
                let ghost nodes = item_nodes(children@);
                let mut copies: Vec<FileItem> = Vec::new();
                let mut i: usize = 0;
                while i < children.len()
                    invariant
                        i <= children.len(),
                        self@.items == Some(nodes),
                        nodes == item_nodes(children@),
                        item_nodes(copies@) == nodes.subrange(0, i as int),
                    decreases children.len() - i,
                {
                    assert(nodes[i as int] == children@[i as int]@);
                    assert(decreases_to!(self@ => self@.items.unwrap()[i as int]));
                    let child = children[i].clone();
                    let ghost copied = copies@;
                    copies.push(child);
                    assert(item_nodes(copies@) =~= item_nodes(copied).push(child@));
                    assert(nodes.subrange(0, i as int).push(nodes[i as int]) =~= nodes.subrange(
                        0,
                        i + 1,
                    ));
                    i += 1;
                }
                assert(nodes.subrange(0, i as int) =~= nodes);
                Some(copies)
            },
            None => None,
        };
        let copy = FileItem {
            name: self.name.clone(),
            path: self.path.clone(),
            items,
            is_open: self.is_open,
        };
        proof {
            copy.items_view();
        }
        copy
    }
}

} // verus!

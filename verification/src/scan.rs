use vstd::prelude::*;
use crate::node::FileNode;
use crate::order::sort_nodes;

verus! {

/// Why a scan cannot be turned into a tree.
#[derive(Clone, Copy, PartialEq, Eq, Structural, Debug)]
pub enum ScanError {
    /// Some listing at or below the root could not be read.
    Unreadable,
}

/// What a recursive scan of the disk found at one path, before any ordering:
/// a regular file, or something else whose listing was read (`entries`
/// present) or could not be read (`entries` absent).
#[derive(Debug)]
pub struct ScanEntry {
    name: String,
    path: String,
    is_file: bool,
    entries: Option<Vec<ScanEntry>>,
}

/// The mathematical value of a [`ScanEntry`].
pub struct ScanNode {
    pub name: Seq<char>,
    pub path: Seq<char>,
    pub is_file: bool,
    pub entries: Option<Seq<ScanNode>>,
}

impl ScanNode {
    /// Every listing at or below this path was read.
    pub open spec fn readable(self) -> bool
        decreases self,
    {
        self.is_file || match self.entries {
            Some(entries) => forall|i: int|
                0 <= i < entries.len() ==> (#[trigger] entries[i]).readable(),
            None => false,
        }
    }

    /// The tree that a readable scan stands for: a file stays a file, and a
    /// listing becomes a closed directory with its entries in listing order.
    pub open spec fn tree(self) -> FileNode
        decreases self,
    {
        if self.is_file {
            FileNode { name: self.name, path: self.path, items: None, is_open: None }
        } else {
            FileNode {
                name: self.name,
                path: self.path,
                items: Some(
                    sort_nodes(
                        match self.entries {
                            Some(entries) => forest(entries),
                            None => Seq::empty(),
                        },
                    ),
                ),
                is_open: Some(false),
            }
        }
    }
}

/// The trees of several scanned entries, in the order scanned.
pub open spec fn forest(entries: Seq<ScanNode>) -> Seq<FileNode>
    decreases entries,
{
    if entries.len() == 0 {
        Seq::empty()
    } else {
        forest(entries.drop_last()).push(entries.last().tree())
    }
}

spec fn scans_of(entries: Seq<ScanEntry>) -> Seq<ScanNode>
    decreases entries,
{
    if entries.len() == 0 {
        Seq::empty()
    } else {
        scans_of(entries.drop_last()).push(entries.last()@)
    }
}

/// The values of a sequence of scanned entries.
pub open spec fn scan_nodes(entries: Seq<ScanEntry>) -> Seq<ScanNode> {
    entries.map_values(|entry: ScanEntry| entry@)
}

proof fn scans_of_is_map(entries: Seq<ScanEntry>)
    ensures
        scans_of(entries) == scan_nodes(entries),
    decreases entries.len(),
{
    if entries.len() > 0 {
        let front = entries.drop_last();
        scans_of_is_map(front);
        assert(scans_of(entries) == scans_of(front).push(entries.last()@));
        assert(scan_nodes(front).len() == front.len());
        assert forall|i: int| 0 <= i < entries.len() implies scans_of(entries)[i] == scan_nodes(
            entries,
        )[i] by {
            if i < front.len() {
                assert(scan_nodes(front)[i] == front[i]@);
                assert(front[i] == entries[i]);
            }
        }
    }
    assert(scans_of(entries) =~= scan_nodes(entries));
}

impl View for ScanEntry {
    type V = ScanNode;

    closed spec fn view(&self) -> ScanNode
        decreases self,
    {
        ScanNode {
            name: self.name@,
            path: self.path@,
            is_file: self.is_file,
            entries: match self.entries {
                Some(entries) => Some(scans_of(entries@)),
                None => None,
            },
        }
    }
}

impl ScanEntry {
    /// A regular file.
    pub fn file(name: &str, path: &str) -> (entry: Self)
        ensures
            entry@ == (ScanNode { name: name@, path: path@, is_file: true, entries: None }),
    {
        ScanEntry { name: name.to_owned(), path: path.to_owned(), is_file: true, entries: None }
    }

    /// A directory whose listing was read.
    pub fn directory(name: &str, path: &str, entries: Vec<ScanEntry>) -> (entry: Self)
        ensures
            entry@ == (ScanNode {
                name: name@,
                path: path@,
                is_file: false,
                entries: Some(scan_nodes(entries@)),
            }),
    {
        proof {
            scans_of_is_map(entries@);
        }
        ScanEntry {
            name: name.to_owned(),
            path: path.to_owned(),
            is_file: false,
            entries: Some(entries),
        }
    }

    /// A path that is no regular file and whose listing could not be read.
    pub fn unreadable(name: &str, path: &str) -> (entry: Self)
        ensures
            entry@ == (ScanNode { name: name@, path: path@, is_file: false, entries: None }),
    {
        ScanEntry { name: name.to_owned(), path: path.to_owned(), is_file: false, entries: None }
    }

    pub fn get_name(&self) -> (name: &str)
        ensures
            name@ == self@.name,
    {
        self.name.as_str()
    }

    pub fn get_path(&self) -> (path: &str)
        ensures
            path@ == self@.path,
    {
        self.path.as_str()
    }

    pub fn is_file(&self) -> (is_file: bool)
        ensures
            is_file == self@.is_file,
    {
        self.is_file
    }

    /// The listing that was read, if one was.
    pub fn get_entries(&self) -> (entries: Option<&Vec<ScanEntry>>)
        ensures
            match entries {
                Some(listing) => self@.entries == Some(scan_nodes(listing@)),
                None => self@.entries.is_none(),
            },
    {
        proof {
            if self.entries.is_some() {
                scans_of_is_map(self.entries.unwrap()@);
            }
        }
        self.entries.as_ref()
    }
}

} // verus!

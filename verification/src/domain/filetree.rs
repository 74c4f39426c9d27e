//! A directory listing and the lines it is printed as.
use vstd::prelude::*;

verus! {

/// An entry of a directory listing.
pub enum FileTree {
    FileNode(File),
    DirectoryNode(Directory),
}

/// A file, by its path relative to the listed root.
pub struct File {
    pub name: String,
}

/// A directory, by its path relative to the listed root (empty for the root
/// itself), with its entries.
pub struct Directory {
    pub name: String,
    pub children: Vec<FileTree>,
}

/// The lines a directory is printed as: its name unless it is empty, then
/// each entry in order, a file as its name and a directory as its lines.
pub open spec fn directory_lines(d: Directory) -> Seq<Seq<char>>
    decreases d, 0int,
{
    (if d.name@.len() > 0 {
        seq![d.name@]
    } else {
        Seq::<Seq<char>>::empty()
    }) + entries_lines(d.children@, d.children@.len() as int)
}

/// The lines of the first `i` entries.
pub open spec fn entries_lines(cs: Seq<FileTree>, i: int) -> Seq<Seq<char>>
    decreases cs, i,
{
    if i <= 0 || i > cs.len() {
        Seq::<Seq<char>>::empty()
    } else {
        entries_lines(cs, i - 1) + match cs[i - 1] {
            FileTree::FileNode(f) => seq![f.name@],
            FileTree::DirectoryNode(d) => directory_lines(d),
        }
    }
}

pub open spec fn strings_seq(v: Seq<String>) -> Seq<Seq<char>> {
    v.map_values(|s: String| s@)
}

impl Directory {
    fn push_lines(&self, out: &mut Vec<String>)
        ensures
            strings_seq(final(out)@) == strings_seq(old(out)@) + directory_lines(*self),
        decreases *self,
    {
        let ghost start = strings_seq(out@);
        if self.name.as_str().is_empty() {
            assert(start + Seq::<Seq<char>>::empty() == start);
        } else {
            out.push(self.name.clone());
            assert(strings_seq(out@) == start + seq![self.name@]);
        }
        let ghost mid = strings_seq(out@);
        assert(mid + Seq::<Seq<char>>::empty() == mid);
        for i in 0..self.children.len()
            invariant
                strings_seq(out@) == mid + entries_lines(self.children@, i as int),
        {
            let ghost before = strings_seq(out@);
            match &self.children[i] {
                FileTree::FileNode(f) => {
                    out.push(f.name.clone());
                    assert(strings_seq(out@) == before + seq![f.name@]);
                },
                FileTree::DirectoryNode(d) => {
                    assert(decreases_to!(*self => *d));
                    d.push_lines(out);
                },
            }
            assert(mid + entries_lines(self.children@, i as int) + match self.children@[i as int] {
                FileTree::FileNode(f) => seq![f.name@],
                FileTree::DirectoryNode(d) => directory_lines(d),
            } == mid + entries_lines(self.children@, i + 1));
        }
        assert(start + (if self.name@.len() > 0 {
            seq![self.name@]
        } else {
            Seq::<Seq<char>>::empty()
        }) + entries_lines(self.children@, self.children@.len() as int) == start + directory_lines(
            *self,
        ));
    }

    /// The lines the directory is printed as, one string a line.
    pub fn lines(&self) -> (r: Vec<String>)
        ensures
            strings_seq(r@) == directory_lines(*self),
    {
        let mut out: Vec<String> = Vec::new();
        self.push_lines(&mut out);
        assert(strings_seq(Seq::<String>::empty()) + directory_lines(*self) == directory_lines(*self));
        out
    }
}

} // verus!

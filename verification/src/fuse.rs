//! What the mounted file system decides: attributes, directory handles and what it refuses.
use vstd::prelude::*;

use crate::daemon::paths;
use crate::idmap::IdMap;

verus! {

/// No such file.
pub const ENOENT: i32 = 2;

/// No such handle.
pub const EBADF: i32 = 9;

/// Not a directory.
pub const ENOTDIR: i32 = 20;

/// An argument that cannot be.
pub const EINVAL: i32 = 22;

/// The reply does not fit.
pub const ERANGE: i32 = 34;

/// Not supported.
pub const EOPNOTSUPP: i32 = 95;

/// What was looked up is no longer there.
pub const ESTALE: i32 = 116;

/// The flag of an exclusive creation.
pub const O_EXCL: i32 = 0x80;

/// What a node of the file system is.
#[derive(Debug, Clone, Copy, PartialEq, Eq, Structural)]
pub enum NodeKind {
    Directory,
    File,
    Symlink,
}

/// What is known of a node.
#[derive(Debug, Clone, Copy, PartialEq, Eq, Structural)]
pub struct Attr {
    pub ino: u64,
    pub size: u64,
    pub is_dir: bool,
    pub is_symlink: bool,
}

/// What the kernel is told of a node.
#[derive(Debug, Clone, Copy, PartialEq, Eq, Structural)]
pub struct FileAttr {
    pub ino: u64,
    pub size: u64,
    /// In units of 512 bytes.
    pub blocks: u64,
    pub kind: NodeKind,
    pub perm: u16,
    pub nlink: u32,
    pub blksize: u32,
}

impl Attr {
    /// The kind of the node.
    pub open spec fn kind(self) -> NodeKind {
        if self.is_symlink {
            NodeKind::Symlink
        } else if self.is_dir {
            NodeKind::Directory
        } else {
            NodeKind::File
        }
    }

    /// What the kernel is told of the node.
    pub fn file_attr(&self) -> (r: FileAttr)
        ensures
            r.ino == self.ino,
            r.size == self.size,
            512 * r.blocks >= self.size,
            512 * r.blocks < self.size + 512,
            r.kind == self.kind(),
            r.perm == match self.kind() {
                NodeKind::Symlink => 0x1ffu16,
                NodeKind::Directory => 0x1edu16,
                NodeKind::File => 0x1a4u16,
            },
            r.nlink == if self.is_dir {
                2u32
            } else {
                1u32
            },
            r.blksize == 4096,
    {
        let kind = if self.is_symlink {
            NodeKind::Symlink
        } else if self.is_dir {
            NodeKind::Directory
        } else {
            NodeKind::File
        };
        let perm: u16 = match kind {
            NodeKind::Symlink => 0x1ff,
            NodeKind::Directory => 0x1ed,
            NodeKind::File => 0x1a4,
        };
        let whole: u64 = self.size / 512;
        let blocks: u64 = if self.size % 512 > 0 {
            whole + 1
        } else {
            whole
        };
        let nlink: u32 = if self.is_dir {
            2
        } else {
            1
        };
        FileAttr { ino: self.ino, size: self.size, blocks, kind, perm, nlink, blksize: 4096 }
    }
}

/// The reply to a question after an attribute.
#[derive(Debug, Clone)]
pub enum XattrReply {
    Size(u32),
    Data(Vec<u8>),
    Error(i32),
}

/// Answers a question after an attribute: without room for it, its size; with too little, an
/// error.
pub fn xattr_reply(size: u32, result: Result<Vec<u8>, i32>) -> (r: XattrReply)
    ensures
        match result {
            Err(e) => r == XattrReply::Error(e),
            Ok(v) => if size == 0 {
                r == XattrReply::Size(v@.len() as u32)
            } else if v@.len() <= size {
                r == XattrReply::Data(v)
            } else {
                r == XattrReply::Error(ERANGE)
            },
        },
{
    match result {
        Err(e) => XattrReply::Error(e),
        Ok(v) => {
            let n = v.len();
            if size == 0 {
                XattrReply::Size(n as u32)
            } else if n <= size as usize {
                XattrReply::Data(v)
            } else {
                XattrReply::Error(ERANGE)
            }
        },
    }
}

/// What a change of attributes comes to.
#[derive(Debug, Clone, Copy, PartialEq, Eq, Structural)]
pub enum AttrStep {
    Look,
    Truncate(u64),
}

/// A size can be set, and nothing else.
pub fn plan_setattr(anything_else: bool, size: Option<u64>) -> (r: Result<AttrStep, i32>)
    ensures
        r == if anything_else {
            Err::<AttrStep, i32>(EOPNOTSUPP)
        } else {
            match size {
                Some(n) => Ok(AttrStep::Truncate(n)),
                None => Ok(AttrStep::Look),
            }
        },
{
    if anything_else {
        Err(EOPNOTSUPP)
    } else {
        match size {
            Some(n) => Ok(AttrStep::Truncate(n)),
            None => Ok(AttrStep::Look),
        }
    }
}

/// Whether a file must not exist yet when it is created.
pub fn is_exclusive(flags: i32) -> (r: bool)
    ensures
        r == (flags & O_EXCL != 0),
{
    flags & O_EXCL != 0
}

/// The flags of a renaming: whether the target must not exist. No other flag is supported.
pub fn rename_flags(bits: u32) -> (r: Result<bool, i32>)
    ensures
        r == if bits >= 2 {
            Err::<bool, i32>(EOPNOTSUPP)
        } else {
            Ok(bits == 1)
        },
{
    if bits >= 2 {
        Err(EOPNOTSUPP)
    } else {
        Ok(bits == 1)
    }
}

/// The flags of a change of an attribute, which is set as a whole.
pub fn setxattr_flags(flags: i32, position: u32) -> (r: Result<u32, i32>)
    ensures
        r == if position != 0 || flags < 0 {
            Err::<u32, i32>(EINVAL)
        } else {
            Ok(flags as u32)
        },
{
    if position != 0 || flags < 0 {
        Err(EINVAL)
    } else {
        Ok(flags as u32)
    }
}

/// The directory above `path`; the root lies above itself.
pub open spec fn above(path: Seq<char>) -> Seq<char> {
    if paths::parent_path(path).len() == 0 {
        "/"@
    } else {
        paths::parent_path(path)
    }
}

/// The directory above `path`, which is in normal form.
pub fn parent_directory(path: &str) -> (r: String)
    ensures
        r@ == above(path@),
{
    let p = paths::parent_of(path);
    if p.as_str().is_empty() {
        "/".to_owned()
    } else {
        p
    }
}

/// An entry of a directory.
#[derive(Debug)]
pub struct DirEntry {
    pub name: String,
    pub kind: NodeKind,
    pub ino: u64,
}

#[verifier::ext_equal]
pub struct DirEntryView {
    pub name: Seq<char>,
    pub kind: NodeKind,
    pub ino: u64,
}

impl View for DirEntry {
    type V = DirEntryView;

    open spec fn view(&self) -> DirEntryView {
        DirEntryView { name: self.name@, kind: self.kind, ino: self.ino }
    }
}

impl DirEntry {
    fn copy(&self) -> (r: DirEntry)
        ensures
            r@ == self@,
    {
        DirEntry { name: self.name.as_str().to_owned(), kind: self.kind, ino: self.ino }
    }
}

/// What a directory held when it was opened.
#[derive(Debug)]
pub struct Listing {
    pub entries: Vec<DirEntry>,
}

/// Entries as values.
pub open spec fn entry_views(v: Seq<DirEntry>) -> Seq<DirEntryView> {
    v.map_values(|e: DirEntry| e@)
}

impl View for Listing {
    type V = Seq<DirEntryView>;

    open spec fn view(&self) -> Seq<DirEntryView> {
        entry_views(self.entries@)
    }
}

/// A child of a directory, with what looking at it gave.
#[derive(Debug)]
pub struct Child {
    pub name: String,
    pub is_dir: bool,
    pub ino: u64,
    /// Whether it is a symbolic link, or the error. Not asked of a directory.
    pub link: Result<bool, i32>,
}

#[verifier::ext_equal]
pub struct ChildView {
    pub name: Seq<char>,
    pub is_dir: bool,
    pub ino: u64,
    pub link: Result<bool, i32>,
}

impl View for Child {
    type V = ChildView;

    open spec fn view(&self) -> ChildView {
        ChildView { name: self.name@, is_dir: self.is_dir, ino: self.ino, link: self.link }
    }
}

/// Children as values.
pub open spec fn child_views(v: Seq<Child>) -> Seq<ChildView> {
    v.map_values(|c: Child| c@)
}

/// What a listing is, once the children have been looked at: one that has gone since is left out,
/// any other failure is reported.
pub open spec fn listed(ino: u64, parent: u64, children: Seq<ChildView>) -> Result<
    Seq<DirEntryView>,
    i32,
>
    decreases children.len(),
{
    if children.len() == 0 {
        Ok(
            seq![
                DirEntryView { name: "."@, kind: NodeKind::Directory, ino },
                DirEntryView { name: ".."@, kind: NodeKind::Directory, ino: parent },
            ],
        )
    } else {
        match listed(ino, parent, children.drop_last()) {
            Err(e) => Err(e),
            Ok(v) => {
                let c = children.last();
                if c.is_dir {
                    Ok(v.push(DirEntryView { name: c.name, kind: NodeKind::Directory, ino: c.ino }))
                } else {
                    match c.link {
                        Ok(link) => Ok(
                            v.push(
                                DirEntryView {
                                    name: c.name,
                                    kind: if link {
                                        NodeKind::Symlink
                                    } else {
                                        NodeKind::File
                                    },
                                    ino: c.ino,
                                },
                            ),
                        ),
                        Err(e) => if e == ENOENT || e == ESTALE {
                            Ok(v)
                        } else {
                            Err(e)
                        },
                    }
                }
            },
        }
    }
}

proof fn lemma_failure_stays(ino: u64, parent: u64, c: Seq<ChildView>, k: int)
    requires
        0 <= k <= c.len(),
        listed(ino, parent, c.take(k)) is Err,
    ensures
        listed(ino, parent, c) == listed(ino, parent, c.take(k)),
    decreases c.len(),
{
    if k < c.len() {
        assert(c.drop_last().take(k) =~= c.take(k));
        lemma_failure_stays(ino, parent, c.drop_last(), k);
    } else {
        assert(c.take(k) =~= c);
    }
}

/// Makes the listing of a directory.
pub fn list(is_dir: bool, ino: u64, parent: u64, children: &Vec<Child>) -> (r: Result<Listing, i32>)
    ensures
        if !is_dir {
            r == Err::<Listing, i32>(ENOTDIR)
        } else {
            match listed(ino, parent, child_views(children@)) {
                Ok(v) => r is Ok && r->Ok_0@ == v,
                Err(e) => r == Err::<Listing, i32>(e),
            }
        },
{
    if !is_dir {
        return Err(ENOTDIR);
    }
    let ghost all = child_views(children@);
    let n = children.len();
    let mut entries: Vec<DirEntry> = Vec::new();
    entries.push(DirEntry { name: ".".to_owned(), kind: NodeKind::Directory, ino });
    entries.push(DirEntry { name: "..".to_owned(), kind: NodeKind::Directory, ino: parent });
    let mut i: usize = 0;
    assert(entry_views(entries@) =~= listed(ino, parent, all.take(0))->Ok_0);
    while i < n
        invariant
            is_dir,
            i <= n == children@.len(),
            all == child_views(children@),
            listed(ino, parent, all.take(i as int)) is Ok,
            entry_views(entries@) == listed(ino, parent, all.take(i as int))->Ok_0,
        decreases n - i,
    {
        let c = &children[i];
        let ghost was = entry_views(entries@);
        proof {
            assert(all.take(i + 1).drop_last() =~= all.take(i as int));
            assert(all.take(i + 1).last() == c@);
        }
        let name = c.name.as_str().to_owned();
        let mut kind: Option<NodeKind> = None;
        if c.is_dir {
            kind = Some(NodeKind::Directory);
        } else {
            match c.link {
                Ok(link) => {
                    kind = Some(
                        if link {
                            NodeKind::Symlink
                        } else {
                            NodeKind::File
                        },
                    );
                },
                Err(e) => {
                    if e != ENOENT && e != ESTALE {
                        proof {
                            lemma_failure_stays(ino, parent, all, i + 1);
                        }
                        return Err(e);
                    }
                },
            }
        }
        match kind {
            Some(kind) => {
                let e = DirEntry { name, kind, ino: c.ino };
                let ghost v = e@;
                entries.push(e);
                assert(entry_views(entries@) =~= was.push(v));
            },
            None => {},
        }
        i += 1;
    }
    assert(all.take(n as int) =~= all);
    Ok(Listing { entries })
}

/// The directories that are open.
pub struct OpenDirectories {
    pub open: IdMap<Listing>,
    pub next: u64,
}

#[verifier::ext_equal]
pub struct OpenView {
    pub open: Map<u64, Seq<DirEntryView>>,
    pub next: u64,
}

impl View for OpenDirectories {
    type V = OpenView;

    open spec fn view(&self) -> OpenView {
        OpenView { open: self.open@, next: self.next }
    }
}

/// The entries of a listing from `offset`, each with the offset behind it.
pub open spec fn page(l: Seq<DirEntryView>, offset: nat) -> Seq<(DirEntryView, nat)> {
    if offset < l.len() {
        Seq::new((l.len() - offset) as nat, |i: int| (l[offset + i], (offset + i + 1) as nat))
    } else {
        Seq::empty()
    }
}

impl OpenView {
    /// With a directory opened.
    pub open spec fn opened(self, l: Seq<DirEntryView>) -> OpenView {
        OpenView {
            open: self.open.insert(self.next, l),
            next: if self.next == u64::MAX {
                0
            } else {
                (self.next + 1) as u64
            },
        }
    }

    /// With a directory closed.
    pub open spec fn closed(self, fh: u64) -> OpenView {
        OpenView { open: self.open.remove(fh), ..self }
    }
}

impl OpenDirectories {
    /// None is open.
    pub fn new() -> (r: OpenDirectories)
        ensures
            r@ == (OpenView { open: Map::empty(), next: 1 }),
    {
        OpenDirectories { open: IdMap::new(), next: 1 }
    }

    /// Opens a directory: keeps what it held and gives the handle.
    pub fn opendir(&mut self, l: Listing) -> (fh: u64)
        ensures
            fh == old(self)@.next,
            final(self)@ == old(self)@.opened(l@),
    {
        let fh = self.next;
        let _ = self.open.insert(fh, l);
        self.next = if fh == u64::MAX {
            0
        } else {
            fh + 1
        };
        fh
    }

    /// The entries of an open directory from an offset, each with the offset behind it.
    pub fn readdir(&self, fh: u64, offset: u64) -> (r: Result<Vec<(DirEntry, u64)>, i32>)
        ensures
            if self@.open.contains_key(fh) {
                r is Ok && r->Ok_0@.map_values(|e: (DirEntry, u64)| (e.0@, e.1 as nat)) == page(
                    self@.open[fh],
                    offset as nat,
                )
            } else {
                r == Err::<Vec<(DirEntry, u64)>, i32>(EBADF)
            },
    {
        match self.open.get(fh) {
            None => Err(EBADF),
            Some(l) => {
                let ghost all = l@;
                let ghost seen = |e: (DirEntry, u64)| (e.0@, e.1 as nat);
                let n = l.entries.len();
                let mut out: Vec<(DirEntry, u64)> = Vec::new();
                if offset < n as u64 {
                    let from = offset as usize;
                    let mut i: usize = from;
                    while i < n
                        invariant
                            from <= i <= n == l.entries@.len(),
                            all == l@,
                            out@.len() == i - from,
                            seen == (|e: (DirEntry, u64)| (e.0@, e.1 as nat)),
                            forall|j: int|
                                0 <= j < i - from ==> #[trigger] out@[j].0@ == all[from + j]
                                    && out@[j].1 == from + j + 1,
                        decreases n - i,
                    {
                        out.push((l.entries[i].copy(), i as u64 + 1));
                        i += 1;
                    }
                }
                proof {
                    let got = out@.map_values(seen);
                    let want = page(all, offset as nat);
                    assert(got =~= want);
                }
                Ok(out)
            },
        }
    }

    /// Closes a directory.
    pub fn releasedir(&mut self, fh: u64)
        ensures
            final(self)@ == old(self)@.closed(fh),
    {
        let _ = self.open.remove(fh);
    }
}

/// What an open directory lists does not change while it is open: opening and closing others
/// leaves it as it was.
pub proof fn law_open_directory_keeps_its_listing(
    s: OpenView,
    fh: u64,
    other: u64,
    l: Seq<DirEntryView>,
)
    requires
        s.open.contains_key(fh),
        fh != other,
        fh != s.next,
    ensures
        s.opened(l).open.contains_key(fh),
        s.opened(l).open[fh] == s.open[fh],
        s.closed(other).open.contains_key(fh),
        s.closed(other).open[fh] == s.open[fh],
{
}

/// Reading on from the offset behind an entry gives what follows that entry: no entry is skipped,
/// none comes twice.
pub proof fn law_pages_join(l: Seq<DirEntryView>, offset: nat, k: int)
    requires
        0 <= k < page(l, offset).len(),
    ensures
        page(l, offset) == page(l, offset).take(k + 1) + page(l, page(l, offset)[k].1),
{
    assert(page(l, offset) =~= page(l, offset).take(k + 1) + page(l, page(l, offset)[k].1));
}

/// Every listing starts with the directory itself and the one above it.
pub proof fn law_listing_has_both_dots(ino: u64, parent: u64, children: Seq<ChildView>)
    requires
        listed(ino, parent, children) is Ok,
    ensures
        listed(ino, parent, children)->Ok_0.len() >= 2,
        listed(ino, parent, children)->Ok_0[0] == (DirEntryView {
            name: "."@,
            kind: NodeKind::Directory,
            ino,
        }),
        listed(ino, parent, children)->Ok_0[1] == (DirEntryView {
            name: ".."@,
            kind: NodeKind::Directory,
            ino: parent,
        }),
    decreases children.len(),
{
    if children.len() > 0 {
        law_listing_has_both_dots(ino, parent, children.drop_last());
    }
}

} // verus!

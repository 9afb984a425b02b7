use vstd::prelude::*;

use crate::catalog::Catalog;
use crate::catalog::FileEntry;
use crate::catalog::ROOT_INO;
use crate::catalog::entry_at;
use crate::catalog::has_ino;
use crate::file_handles::FileHandleInfo;
use crate::file_handles::FileHandles;
use crate::file_handles::handles_after_close;
use crate::file_handles::has_handle;
use crate::file_handles::info_at;

verus! {

/// How long a caller may cache an entry or attribute answer, in seconds.
pub const ATTR_TTL_SECS: u64 = 1;

/// Per-call failure of one filesystem operation. A failure never changes
/// shared state and never brings the mount down.
#[derive(Clone, Copy, PartialEq, Eq, Structural, Debug)]
pub enum FsError {
    /// Unknown inode or name.
    NotFound,
    /// Stale or unknown file handle.
    InvalidHandle,
    /// Network or shared-state fault while serving the call.
    IoFailure,
}

/// The kind of a directory item: this namespace holds only the root
/// directory and regular files.
#[derive(Clone, Copy, PartialEq, Eq, Structural, Debug)]
pub enum FileKind {
    Directory,
    RegularFile,
}

/// The time-independent part of a file's attributes. Timestamps are
/// wall-clock time at call time and owner ids come from the process
/// environment, so the caller fills those in.
#[derive(Clone, Copy, PartialEq, Eq, Structural, Debug)]
pub struct FileAttr {
    pub ino: u64,
    pub size: u64,
    pub blocks: u64,
    pub kind: FileKind,
    pub perm: u16,
    pub nlink: u32,
    pub blksize: u32,
}

/// Size in 512-byte blocks, rounded up.
pub open spec fn blocks_of(size: u64) -> int {
    size as int / 512 + if size as int % 512 == 0 {
        0int
    } else {
        1int
    }
}

/// The attributes reported for inode `ino` with byte size `size`: the root
/// is a directory with permission bits 0755 and link count 2; every other
/// inode is a read-only regular file (0444, link count 1).
pub open spec fn attr_for(ino: u64, size: u64) -> FileAttr {
    FileAttr {
        ino,
        size,
        blocks: blocks_of(size) as u64,
        kind: if ino == ROOT_INO {
            FileKind::Directory
        } else {
            FileKind::RegularFile
        },
        perm: if ino == ROOT_INO {
            0o755
        } else {
            0o444
        },
        nlink: if ino == ROOT_INO {
            2
        } else {
            1
        },
        blksize: 4096,
    }
}

/// One emitted directory item. `cookie` is the positional offset to resume
/// from after this item, for a follow-up listing call.
#[derive(Debug)]
pub struct DirEntry {
    pub ino: u64,
    pub cookie: u64,
    pub kind: FileKind,
    pub name: String,
}

/// What the listing of the root holds at flat position `k`: the self and
/// parent items at positions 0 and 1, then the catalog's children.
pub open spec fn dir_entry_matches(
    children: Seq<(u64, FileEntry)>,
    k: int,
    e: DirEntry,
) -> bool {
    if k == 0 {
        e.ino == ROOT_INO && e.cookie == 1 && e.kind == FileKind::Directory && e.name@ == "."@
    } else if k == 1 {
        e.ino == ROOT_INO && e.cookie == 2 && e.kind == FileKind::Directory && e.name@ == ".."@
    } else {
        e.ino == children[k - 2].0 && e.cookie == k + 1 && e.kind == FileKind::RegularFile
            && e.name == children[k - 2].1.name
    }
}

/// The flat listing position a resume offset stands for, clamped to the
/// listing's end; a negative offset resumes past everything.
pub open spec fn listing_start(offset: i64, total: int) -> int {
    if offset < 0 {
        total
    } else if offset as int > total {
        total
    } else {
        offset as int
    }
}

/// What a data read must do: nothing (the offset is at or past the end of
/// the file), or fetch one byte range of the entry's backend object.
#[derive(Debug)]
pub enum ReadPlan {
    /// End of file: answer with an empty buffer, not an error.
    Empty,
    /// Fetch `length` bytes of the object at `url` starting at `offset`.
    Fetch { url: String, offset: u64, length: u64 },
}

/// The synchronous filesystem operation surface: one flat root directory of
/// regular files, read from the catalog and the handle table. Data reads
/// are planned here and fetched by the caller over the network.
pub struct StreamingFS {
    pub catalog: Catalog,
    pub handles: FileHandles,
}

impl StreamingFS {
    /// Adapter invariant: both tables are well-formed.
    pub open spec fn wf(self) -> bool {
        self.catalog.wf() && self.handles.wf()
    }

    /// Whether `ino` names the root or a catalogued file.
    pub open spec fn ino_known(self, ino: u64) -> bool {
        ino == ROOT_INO || has_ino(self.catalog.children_seq(), ino)
    }

    /// The entry behind a known inode.
    pub open spec fn entry_of(self, ino: u64) -> FileEntry {
        if ino == ROOT_INO {
            self.catalog.root()
        } else {
            entry_at(self.catalog.children_seq(), ino)
        }
    }

    /// An adapter over a catalog, with no handle open yet.
    pub fn new(catalog: Catalog) -> (r: Self)
        requires
            catalog.wf(),
        ensures
            r.wf(),
            r.catalog == catalog,
            r.handles.handles_seq() == Seq::<(u64, FileHandleInfo)>::empty(),
            r.handles.next_handle() == 0,
    {
        StreamingFS { catalog, handles: FileHandles::new() }
    }

    /// Attributes for `ino` carrying `entry`: kind, permissions and link
    /// count by inode role, size and block count from the entry.
    pub fn file_attr(&self, ino: u64, entry: &FileEntry) -> (r: FileAttr)
        ensures
            r == attr_for(ino, entry.size),
    {
        let size = entry.size;
        let blocks = size / 512 + (if size % 512 != 0 {
            1
        } else {
            0
        });
        FileAttr {
            ino,
            size,
            blocks,
            kind: if ino == ROOT_INO {
                FileKind::Directory
            } else {
                FileKind::RegularFile
            },
            perm: if ino == ROOT_INO {
                0o755
            } else {
                0o444
            },
            nlink: if ino == ROOT_INO {
                2
            } else {
                1
            },
            blksize: 4096,
        }
    }

    /// Name lookup in the root directory: fails unless the parent is the
    /// root, then returns the inode and attributes of the first catalogued
    /// child with exactly that name.
    pub fn lookup(&self, parent: u64, name: &String) -> (r: Result<(u64, FileAttr), FsError>)
        requires
            self.wf(),
        ensures
            match r {
                Ok(pair) => parent == ROOT_INO && exists|i: int|
                    0 <= i < self.catalog.children_seq().len() && (#[trigger] self.catalog.children_seq()[i]).0
                        == pair.0 && self.catalog.children_seq()[i].1.name@ == name@ && pair.1
                        == attr_for(pair.0, self.catalog.children_seq()[i].1.size) && (forall|j: int|
                        0 <= j < i ==> (#[trigger] self.catalog.children_seq()[j]).1.name@
                            != name@),
                Err(e) => e == FsError::NotFound && (parent != ROOT_INO || forall|i: int|
                    0 <= i < self.catalog.children_seq().len()
                        ==> (#[trigger] self.catalog.children_seq()[i]).1.name@ != name@),
            },
    {
        if parent != ROOT_INO {
            return Err(FsError::NotFound);
        }
        let children = self.catalog.list_children();
        let n = children.len();
        let mut i: usize = 0;
        while i < n
            invariant
                parent == ROOT_INO,
                n == children@.len(),
                i <= n,
                children@.len() == self.catalog.children_seq().len(),
                forall|j: int|
                    0 <= j < n ==> (#[trigger] children@[j]).0 == self.catalog.children_seq()[j].0
                        && children@[j].1 == self.catalog.children_seq()[j].1,
                forall|j: int|
                    0 <= j < i ==> (#[trigger] self.catalog.children_seq()[j]).1.name@ != name@,
                self.wf(),
            decreases n - i,
        {
            let pair: &(u64, FileEntry) = &children[i];
            if pair.1.name == *name {
                let attr = self.file_attr(pair.0, &pair.1);
                proof {
                    let k = i as int;
                    assert(exists|ii: int|
                        0 <= ii < self.catalog.children_seq().len()
                            && (#[trigger] self.catalog.children_seq()[ii]).0 == pair.0
                            && self.catalog.children_seq()[ii].1.name@ == name@ && attr
                            == attr_for(pair.0, self.catalog.children_seq()[ii].1.size) && (
                        forall|j: int|
                            0 <= j < ii ==> (#[trigger] self.catalog.children_seq()[j]).1.name@
                                != name@)) by {
                        assert(0 <= k < self.catalog.children_seq().len()
                            && (self.catalog.children_seq()[k]).0 == pair.0
                            && self.catalog.children_seq()[k].1.name@ == name@ && attr
                            == attr_for(pair.0, self.catalog.children_seq()[k].1.size));
                    }
                }
                return Ok((pair.0, attr));
            }
            i += 1;
        }
        Err(FsError::NotFound)
    }

    /// Attribute lookup: the catalogued entry's attributes, or absent.
    pub fn getattr(&self, ino: u64) -> (r: Result<FileAttr, FsError>)
        requires
            self.wf(),
        ensures
            match r {
                Ok(attr) => self.ino_known(ino) && attr == attr_for(ino, self.entry_of(ino).size),
                Err(e) => e == FsError::NotFound && !self.ino_known(ino),
            },
    {
        match self.catalog.get(ino) {
            Some(entry) => Ok(self.file_attr(ino, &entry)),
            None => Err(FsError::NotFound),
        }
    }

    /// Root directory listing, resumed from flat position `offset`: the
    /// self and parent items first, then every catalogued child, each with
    /// the cookie a follow-up call passes to resume after it. The caller
    /// emits the items in order and may stop early when its sink is full.
    pub fn readdir(&self, ino: u64, offset: i64) -> (r: Result<Vec<DirEntry>, FsError>)
        requires
            self.wf(),
        ensures
            match r {
                Ok(v) => {
                    let cs = self.catalog.children_seq();
                    let total = cs.len() + 2;
                    let start = listing_start(offset, total as int);
                    &&& ino == ROOT_INO
                    &&& v@.len() == total - start
                    &&& forall|m: int|
                        0 <= m < v@.len() ==> dir_entry_matches(cs, start + m, #[trigger] v@[m])
                },
                Err(e) => e == FsError::NotFound && ino != ROOT_INO,
            },
    {
        if ino != ROOT_INO {
            return Err(FsError::NotFound);
        }
        let mut out: Vec<DirEntry> = Vec::new();
        if offset < 0 {
            return Ok(out);
        }
        let off: u64 = offset as u64;
        let children = self.catalog.list_children();
        let n = children.len();
        proof {
            assert(self.catalog.children_seq().len() + 2 <= u64::MAX);
        }
        if off <= 0 {
            out.push(
                DirEntry {
                    ino: ROOT_INO,
                    cookie: 1,
                    kind: FileKind::Directory,
                    name: ".".to_owned(),
                },
            );
        }
        if off <= 1 {
            out.push(
                DirEntry {
                    ino: ROOT_INO,
                    cookie: 2,
                    kind: FileKind::Directory,
                    name: "..".to_owned(),
                },
            );
        }
        let start_child: usize = if off <= 2 {
            0
        } else if off - 2 >= n as u64 {
            n
        } else {
            (off - 2) as usize
        };
        let ghost cs = self.catalog.children_seq();
        let ghost total: int = cs.len() as int + 2;
        let ghost start: int = listing_start(offset, total);
        let mut j: usize = start_child;
        while j < n
            invariant
                n == children@.len(),
                cs == self.catalog.children_seq(),
                total == cs.len() + 2,
                start == listing_start(offset, total),
                n as int + 2 <= u64::MAX,
                start_child <= j <= n,
                start_child as int + 2 >= start,
                start + out@.len() == j + 2,
                forall|k: int|
                    0 <= k < n ==> (#[trigger] children@[k]).0 == cs[k].0 && children@[k].1
                        == cs[k].1,
                forall|m: int|
                    0 <= m < out@.len() ==> dir_entry_matches(cs, start + m, #[trigger] out@[m]),
            decreases n - j,
        {
            let pair: &(u64, FileEntry) = &children[j];
            let cookie: u64 = j as u64 + 3;
            out.push(
                DirEntry {
                    ino: pair.0,
                    cookie,
                    kind: FileKind::RegularFile,
                    name: pair.1.name.clone(),
                },
            );
            j += 1;
        }
        Ok(out)
    }

    /// Opens a known inode: allocates a fresh handle unconditionally — no
    /// exclusivity and no limit on concurrent opens of one inode. An
    /// unknown inode is refused before any handle is allocated.
    pub fn open(&mut self, ino: u64) -> (r: Result<u64, FsError>)
        requires
            old(self).wf(),
            old(self).handles.next_handle() < u64::MAX,
        ensures
            final(self).wf(),
            final(self).catalog == old(self).catalog,
            match r {
                Ok(h) => {
                    &&& old(self).ino_known(ino)
                    &&& h == old(self).handles.next_handle()
                    &&& final(self).handles.handles_seq() == old(self).handles.handles_seq().push(
                        (h, FileHandleInfo { ino }),
                    )
                    &&& final(self).handles.next_handle() == old(self).handles.next_handle() + 1
                },
                Err(e) => {
                    &&& e == FsError::NotFound
                    &&& !old(self).ino_known(ino)
                    &&& *final(self) == *old(self)
                },
            },
    {
        let exists_in_catalog = self.catalog.get(ino).is_some();
        if !exists_in_catalog {
            return Err(FsError::NotFound);
        }
        let fh = self.handles.open(ino);
        Ok(fh)
    }

    /// Plans a data read: validates the handle and its inode, answers end
    /// of file with an empty read, and otherwise clamps the request to the
    /// entry's size and names the byte range to fetch from the backend.
    pub fn read_plan(&self, fh: u64, offset: i64, size: u32) -> (r: Result<ReadPlan, FsError>)
        requires
            self.wf(),
        ensures
            match r {
                Ok(plan) => has_handle(self.handles.handles_seq(), fh) && {
                    let ino = info_at(self.handles.handles_seq(), fh).ino;
                    let esize = self.entry_of(ino).size;
                    &&& self.ino_known(ino)
                    &&& (offset as u64 >= esize ==> plan is Empty)
                    &&& ((offset as u64) < esize ==> ({
                        &&& plan matches ReadPlan::Fetch { url, offset: o, length }
                        &&& url == self.entry_of(ino).url
                        &&& o == offset as u64
                        &&& length == (if size as u64 <= esize - (offset as u64) {
                            size as u64
                        } else {
                            (esize - (offset as u64)) as u64
                        })
                    }))
                },
                Err(e) => match e {
                    FsError::InvalidHandle => !has_handle(self.handles.handles_seq(), fh),
                    FsError::NotFound => has_handle(self.handles.handles_seq(), fh) && !self.ino_known(
                        info_at(self.handles.handles_seq(), fh).ino,
                    ),
                    FsError::IoFailure => false,
                },
            },
    {
        let info = match self.handles.get(fh) {
            Some(info) => info,
            None => {
                return Err(FsError::InvalidHandle);
            },
        };
        let entry = match self.catalog.get(info.ino) {
            Some(e) => e,
            None => {
                return Err(FsError::NotFound);
            },
        };
        let offset_u64 = offset as u64;
        if offset_u64 >= entry.size {
            return Ok(ReadPlan::Empty);
        }
        let remaining = entry.size - offset_u64;
        let length = if size as u64 <= remaining {
            size as u64
        } else {
            remaining
        };
        Ok(ReadPlan::Fetch { url: entry.url, offset: offset_u64, length })
    }

    /// Releases a handle; always succeeds and is idempotent.
    pub fn release(&mut self, fh: u64)
        requires
            old(self).wf(),
        ensures
            final(self).wf(),
            final(self).catalog == old(self).catalog,
            final(self).handles.handles_seq() == handles_after_close(
                old(self).handles.handles_seq(),
                fh,
            ),
            final(self).handles.next_handle() == old(self).handles.next_handle(),
            !has_handle(final(self).handles.handles_seq(), fh),
    {
        self.handles.close(fh);
    }
}

} // verus!

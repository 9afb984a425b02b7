use vstd::prelude::*;

verus! {

/// Inode number reserved for the root directory. It is present from
/// construction on, never removed and never handed out to a file.
pub const ROOT_INO: u64 = 1;

/// One catalog entry: a remote file known to the daemon.
///
/// `mime_type` and `modified_time` are placeholders carried for the wire
/// schema's sake; nothing reads them yet, and adds install them as `None`
/// and `0`.
#[derive(Debug)]
pub struct FileEntry {
    /// File name as shown in the directory listing.
    pub name: String,
    /// Opaque backend address used to fetch the file's bytes.
    pub url: String,
    /// File size in bytes.
    pub size: u64,
    /// Stable backend identity of the file.
    pub id: u64,
    /// Unused placeholder.
    pub mime_type: Option<String>,
    /// Unused placeholder.
    pub modified_time: u64,
}

impl Clone for FileEntry {
    fn clone(&self) -> (res: Self)
        ensures
            res == *self,
    {
        FileEntry {
            name: self.name.clone(),
            url: self.url.clone(),
            size: self.size,
            id: self.id,
            mime_type: match &self.mime_type {
                Some(m) => Some(m.clone()),
                None => None,
            },
            modified_time: self.modified_time,
        }
    }
}

/// The entry that an add with these arguments installs.
pub open spec fn entry_made(id: u64, name: String, url: String, size: u64) -> FileEntry {
    FileEntry { name, url, size, id, mime_type: None, modified_time: 0 }
}

/// Whether some child carries source id `id`.
pub open spec fn has_id(children: Seq<(u64, FileEntry)>, id: u64) -> bool {
    exists|i: int| 0 <= i < children.len() && (#[trigger] children[i]).1.id == id
}

/// The index of the child carrying source id `id` (unique under
/// `children_wf`; meaningful only when `has_id` holds).
pub open spec fn idx_of_id(children: Seq<(u64, FileEntry)>, id: u64) -> int {
    choose|i: int| 0 <= i < children.len() && (#[trigger] children[i]).1.id == id
}

/// Whether some child is registered under inode `ino`.
pub open spec fn has_ino(children: Seq<(u64, FileEntry)>, ino: u64) -> bool {
    exists|i: int| 0 <= i < children.len() && (#[trigger] children[i]).0 == ino
}

/// The index of the child registered under inode `ino` (unique under
/// `children_wf`; meaningful only when `has_ino` holds).
pub open spec fn idx_of_ino(children: Seq<(u64, FileEntry)>, ino: u64) -> int {
    choose|i: int| 0 <= i < children.len() && (#[trigger] children[i]).0 == ino
}

/// The entry registered under inode `ino` (meaningful only when `has_ino`).
pub open spec fn entry_at(children: Seq<(u64, FileEntry)>, ino: u64) -> FileEntry {
    children[idx_of_ino(children, ino)].1
}

/// The children after removing the entry for `id`: unchanged when the id is
/// absent, else with that one entry dropped.
pub open spec fn children_after_remove(children: Seq<(u64, FileEntry)>, id: u64) -> Seq<
    (u64, FileEntry),
> {
    if has_id(children, id) {
        children.remove(idx_of_id(children, id))
    } else {
        children
    }
}

/// The inode freed by removing `id` (meaningful only when `has_id`).
pub open spec fn removed_ino(children: Seq<(u64, FileEntry)>, id: u64) -> u64 {
    children[idx_of_id(children, id)].0
}

/// The children after an add under allocation counter `counter`: any older
/// entry with the same source id is dropped, then the fresh entry is
/// appended under inode `counter`.
pub open spec fn children_after_add(
    children: Seq<(u64, FileEntry)>,
    counter: u64,
    id: u64,
    name: String,
    url: String,
    size: u64,
) -> Seq<(u64, FileEntry)> {
    children_after_remove(children, id).push((counter, entry_made(id, name, url, size)))
}

/// Well-formedness of the non-root children relative to the allocation
/// counter: inodes are distinct and drawn from [2, counter), source ids are
/// distinct, and the counter bounds the population.
pub open spec fn children_wf(children: Seq<(u64, FileEntry)>, counter: u64) -> bool {
    &&& 2 <= counter
    &&& forall|i: int| 0 <= i < children.len() ==> 2 <= (#[trigger] children[i]).0 < counter
    &&& forall|i: int, j: int|
        0 <= i < j < children.len() ==> children[i].0 != children[j].0
    &&& forall|i: int, j: int|
        0 <= i < j < children.len() ==> children[i].1.id != children[j].1.id
    &&& children.len() + 2 <= counter
}

/// Under `children_wf`, the child at index `k` is the only one with its
/// inode, so the chosen index is `k` itself.
pub proof fn lemma_ino_index_unique(children: Seq<(u64, FileEntry)>, counter: u64, k: int)
    requires
        children_wf(children, counter),
        0 <= k < children.len(),
    ensures
        idx_of_ino(children, children[k].0) == k,
{
    let ino = children[k].0;
    assert(has_ino(children, ino));
    let j = idx_of_ino(children, ino);
    if j < k {
        assert(children[j].0 != children[k].0);
    } else if j > k {
        assert(children[k].0 != children[j].0);
    }
}

/// Under `children_wf`, the child at index `k` is the only one with its
/// source id, so the chosen index is `k` itself.
pub proof fn lemma_id_index_unique(children: Seq<(u64, FileEntry)>, counter: u64, k: int)
    requires
        children_wf(children, counter),
        0 <= k < children.len(),
    ensures
        idx_of_id(children, children[k].1.id) == k,
{
    let id = children[k].1.id;
    assert(has_id(children, id));
    let j = idx_of_id(children, id);
    if j < k {
        assert(children[j].1.id != children[k].1.id);
    } else if j > k {
        assert(children[k].1.id != children[j].1.id);
    }
}

/// Removing the one child with source id `id` keeps well-formedness and
/// leaves no child with that id; every surviving child is one of the old
/// children, shifted past the removal point.
pub proof fn lemma_remove_id(children: Seq<(u64, FileEntry)>, counter: u64, k: int)
    requires
        children_wf(children, counter),
        0 <= k < children.len(),
    ensures
        children.remove(k).len() == children.len() - 1,
        forall|j: int|
            0 <= j < children.len() - 1 ==> #[trigger] children.remove(k)[j] == (if j < k {
                children[j]
            } else {
                children[j + 1]
            }),
        children_wf(children.remove(k), counter),
        !has_id(children.remove(k), children[k].1.id),
{
    let r = children.remove(k);
    assert forall|j: int| 0 <= j < children.len() - 1 implies #[trigger] r[j] == (if j < k {
        children[j]
    } else {
        children[j + 1]
    }) by {
        assert(r == children.subrange(0, k) + children.subrange(k + 1, children.len() as int));
    }
    assert forall|j: int| 0 <= j < r.len() implies !((#[trigger] r[j]).1.id == children[k].1.id) by {
        if j < k {
            assert(children[j].1.id != children[k].1.id);
        } else {
            assert(children[k].1.id != children[j + 1].1.id);
        }
    }
}

/// Every child of the trimmed-and-extended sequence of an add comes from
/// the old children or is the fresh pair, so an add under a live counter
/// keeps well-formedness, and the new entry is present afterwards.
pub proof fn lemma_add_preserves_wf(
    children: Seq<(u64, FileEntry)>,
    counter: u64,
    id: u64,
    name: String,
    url: String,
    size: u64,
)
    requires
        children_wf(children, counter),
        counter < u64::MAX,
    ensures
        children_wf(children_after_add(children, counter, id, name, url, size), (counter + 1) as u64),
        !has_id(children_after_remove(children, id), id),
        children_wf(children_after_remove(children, id), counter),
{
    let t = children_after_remove(children, id);
    if has_id(children, id) {
        let k = idx_of_id(children, id);
        lemma_remove_id(children, counter, k);
    } else {
        assert forall|i: int| 0 <= i < t.len() implies !((#[trigger] t[i]).1.id == id) by {
            if t[i].1.id == id {
                assert(has_id(children, id));
            }
        }
    }
    let p = children_after_add(children, counter, id, name, url, size);
    assert(p == t.push((counter, entry_made(id, name, url, size))));
    assert forall|i: int, j: int| 0 <= i < j < p.len() implies p[i].1.id != p[j].1.id by {
        if j == p.len() - 1 && t[i].1.id == id {
            assert(has_id(t, id));
        }
    }
}

/// Removal never introduces a source id: whatever id is present after a
/// remove was present before.
pub proof fn lemma_remove_no_new_id(children: Seq<(u64, FileEntry)>, counter: u64, rid: u64, id: u64)
    requires
        children_wf(children, counter),
    ensures
        has_id(children_after_remove(children, rid), id) ==> has_id(children, id),
        !has_id(children, id) ==> !has_id(children_after_remove(children, rid), id),
{
    let t = children_after_remove(children, rid);
    if has_id(children, rid) {
        let k = idx_of_id(children, rid);
        lemma_remove_id(children, counter, k);
        if has_id(t, id) {
            let w = idx_of_id(t, id);
            if w < k {
                assert(children[w].1.id == id);
            } else {
                assert(children[w + 1].1.id == id);
            }
        }
    }
}

/// One catalog mutation, as the update feed performs them.
pub enum CatalogOp {
    AddOp { id: u64, name: String, url: String, size: u64 },
    RemoveOp { id: u64 },
}

/// The children and allocation counter after one mutation.
pub open spec fn op_applied(
    children: Seq<(u64, FileEntry)>,
    counter: u64,
    op: CatalogOp,
) -> (Seq<(u64, FileEntry)>, u64) {
    match op {
        CatalogOp::AddOp { id, name, url, size } => (
            children_after_add(children, counter, id, name, url, size),
            (counter + 1) as u64,
        ),
        CatalogOp::RemoveOp { id } => (children_after_remove(children, id), counter),
    }
}

/// The children and allocation counter after a whole sequence of
/// mutations, applied in order.
pub open spec fn ops_applied(
    children: Seq<(u64, FileEntry)>,
    counter: u64,
    ops: Seq<CatalogOp>,
) -> (Seq<(u64, FileEntry)>, u64)
    decreases ops.len(),
{
    if ops.len() == 0 {
        (children, counter)
    } else {
        let prev = ops_applied(children, counter, ops.drop_last());
        op_applied(prev.0, prev.1, ops.last())
    }
}

/// The inode that the add standing at position `k` of `ops` returns: the
/// allocation counter as it stands when that mutation runs.
pub open spec fn ino_returned_at(
    children: Seq<(u64, FileEntry)>,
    counter: u64,
    ops: Seq<CatalogOp>,
    k: int,
) -> u64 {
    ops_applied(children, counter, ops.take(k)).1
}

/// The allocation counter never decreases over a mutation sequence, and
/// grows by at most one per mutation.
pub proof fn lemma_ops_counter_bounds(children: Seq<(u64, FileEntry)>, counter: u64, ops: Seq<CatalogOp>)
    requires
        counter + ops.len() <= u64::MAX,
    ensures
        counter <= ops_applied(children, counter, ops).1 <= counter + ops.len(),
    decreases ops.len(),
{
    if ops.len() > 0 {
        lemma_ops_counter_bounds(children, counter, ops.drop_last());
    }
}

/// Inodes returned by adds are strictly increasing over any sequence of
/// adds and removes (within the counter's range), and are never the root
/// inode: the counter starts past the root and only grows.
pub proof fn lemma_add_inos_strictly_increasing(
    children: Seq<(u64, FileEntry)>,
    counter: u64,
    ops: Seq<CatalogOp>,
    k1: int,
    k2: int,
)
    requires
        2 <= counter,
        counter + ops.len() <= u64::MAX,
        0 <= k1 < k2 < ops.len(),
        ops[k1] is AddOp,
        ops[k2] is AddOp,
    ensures
        ino_returned_at(children, counter, ops, k1) < ino_returned_at(children, counter, ops, k2),
        ino_returned_at(children, counter, ops, k1) != ROOT_INO,
        ino_returned_at(children, counter, ops, k2) != ROOT_INO,
{
    let s1 = ops_applied(children, counter, ops.take(k1));
    lemma_ops_counter_bounds(children, counter, ops.take(k1));
    assert(ops.take(k1 + 1).drop_last() =~= ops.take(k1));
    assert(ops.take(k1 + 1).last() == ops[k1]);
    let s1p = ops_applied(children, counter, ops.take(k1 + 1));
    assert(s1p.1 == s1.1 + 1);
    assert(ops.take(k2) =~= ops.take(k1 + 1) + ops.subrange(k1 + 1, k2));
    lemma_ops_applied_append(children, counter, ops.take(k1 + 1), ops.subrange(k1 + 1, k2));
    lemma_ops_counter_bounds(s1p.0, s1p.1, ops.subrange(k1 + 1, k2));
    lemma_ops_counter_bounds(children, counter, ops.take(k2));
}

/// Applying a concatenation of mutation sequences is applying the first,
/// then the second from the state the first left.
pub proof fn lemma_ops_applied_append(
    children: Seq<(u64, FileEntry)>,
    counter: u64,
    a: Seq<CatalogOp>,
    b: Seq<CatalogOp>,
)
    ensures
        ops_applied(children, counter, a + b) == ({
            let p = ops_applied(children, counter, a);
            ops_applied(p.0, p.1, b)
        }),
    decreases b.len(),
{
    if b.len() == 0 {
        assert(a + b =~= a);
    } else {
        assert((a + b).drop_last() =~= a + b.drop_last());
        assert((a + b).last() == b.last());
        lemma_ops_applied_append(children, counter, a, b.drop_last());
    }
}

/// Immediately after an add, a lookup of the returned inode finds exactly
/// the supplied name, locator, size and source id, and that inode is not
/// the root.
pub proof fn lemma_get_after_add(
    children: Seq<(u64, FileEntry)>,
    counter: u64,
    id: u64,
    name: String,
    url: String,
    size: u64,
)
    requires
        children_wf(children, counter),
        counter < u64::MAX,
    ensures
        ({
            let after = children_after_add(children, counter, id, name, url, size);
            &&& has_ino(after, counter)
            &&& entry_at(after, counter) == entry_made(id, name, url, size)
            &&& counter != ROOT_INO
        }),
{
    lemma_add_preserves_wf(children, counter, id, name, url, size);
    let after = children_after_add(children, counter, id, name, url, size);
    let last = after.len() - 1;
    assert(after[last] == (counter, entry_made(id, name, url, size)));
    assert(has_ino(after, counter));
    lemma_ino_index_unique(after, (counter + 1) as u64, last);
}

/// Removing a source id frees its inode — a lookup of that inode then
/// finds nothing — and removing the same id again changes nothing and
/// reports absence.
pub proof fn lemma_remove_then_absent(children: Seq<(u64, FileEntry)>, counter: u64, id: u64)
    requires
        children_wf(children, counter),
    ensures
        ({
            let after = children_after_remove(children, id);
            &&& !has_id(after, id)
            &&& children_after_remove(after, id) == after
            &&& (has_id(children, id) ==> !has_ino(after, removed_ino(children, id)))
        }),
{
    let after = children_after_remove(children, id);
    if has_id(children, id) {
        let k = idx_of_id(children, id);
        lemma_remove_id(children, counter, k);
        let ino = children[k].0;
        assert forall|j: int| 0 <= j < after.len() implies !((#[trigger] after[j]).0 == ino) by {
            if j < k {
                assert(children[j].0 != children[k].0);
            } else {
                assert(children[k].0 != children[j + 1].0);
            }
        }
        if has_ino(after, ino) {
            let w = idx_of_ino(after, ino);
            assert(after[w].0 != ino);
        }
    } else {
        assert forall|i: int| 0 <= i < after.len() implies !((#[trigger] after[i]).1.id == id) by {
            if after[i].1.id == id {
                assert(has_id(children, id));
            }
        }
    }
    if has_id(after, id) {
        let w = idx_of_id(after, id);
        assert(after[w].1.id != id);
    }
}

/// The in-memory directory: the root entry plus all non-root files, with a
/// monotonic inode allocator. One structure owns both the inode->entry and
/// the source-id->inode association, so every add or remove updates the two
/// as a single unit and no reader ever sees one without the other.
pub struct Catalog {
    root_entry: FileEntry,
    children: Vec<(u64, FileEntry)>,
    ino_counter: u64,
}

impl Catalog {
    /// The non-root entries, each under its inode.
    pub closed spec fn children_seq(self) -> Seq<(u64, FileEntry)> {
        self.children@
    }

    /// The inode the next add will allocate.
    pub closed spec fn next_ino(self) -> u64 {
        self.ino_counter
    }

    /// The entry registered under the root inode.
    pub closed spec fn root(self) -> FileEntry {
        self.root_entry
    }

    /// Catalog invariant: the children are well-formed against the
    /// allocation counter.
    pub open spec fn wf(self) -> bool {
        children_wf(self.children_seq(), self.next_ino())
    }

    /// A catalog holding only the root entry (name "/", size 0), with the
    /// inode allocator at 2.
    pub fn new() -> (r: Self)
        ensures
            r.wf(),
            r.children_seq() == Seq::<(u64, FileEntry)>::empty(),
            r.next_ino() == 2,
            r.root().name@ == "/"@,
            r.root().url@ == Seq::<char>::empty(),
            r.root().size == 0,
            r.root().id == 0,
    {
        let root_entry = FileEntry {
            name: "/".to_owned(),
            url: String::new(),
            size: 0,
            id: 0,
            mime_type: None,
            modified_time: 0,
        };
        Catalog { root_entry, children: Vec::new(), ino_counter: 2 }
    }

    /// The inode the next add will allocate; callers use it to test that
    /// the allocator has room before asking for an add.
    pub fn next_inode(&self) -> (r: u64)
        ensures
            r == self.next_ino(),
    {
        self.ino_counter
    }

    /// Installs a file under a fresh inode and indexes it by its source id,
    /// as one unit. An older entry carrying the same source id is replaced,
    /// so a redelivered add stays safe. Always succeeds; the freed inode
    /// counter is the machine limit that forces the one precondition.
    pub fn add_file(&mut self, file_id: u64, name: String, url: String, size: u64) -> (r: Option<
        u64,
    >)
        requires
            old(self).wf(),
            old(self).next_ino() < u64::MAX,
        ensures
            final(self).wf(),
            r == Some(old(self).next_ino()),
            final(self).next_ino() == old(self).next_ino() + 1,
            final(self).children_seq() == children_after_add(
                old(self).children_seq(),
                old(self).next_ino(),
                file_id,
                name,
                url,
                size,
            ),
            final(self).root() == old(self).root(),
    {
        let new_ino = self.ino_counter;
        let _ = self.remove_file(file_id);
        let entry = FileEntry {
            name,
            url,
            size,
            id: file_id,
            mime_type: None,
            modified_time: 0,
        };
        self.children.push((new_ino, entry));
        self.ino_counter = new_ino + 1;
        proof {
            let t = children_after_remove(old(self).children_seq(), file_id);
            let p = self.children@;
            assert forall|i: int| 0 <= i < p.len() implies 2 <= (#[trigger] p[i]).0
                < self.ino_counter by {
            }
            assert forall|i: int, j: int| 0 <= i < j < p.len() implies p[i].1.id != p[j].1.id by {
                if j == p.len() - 1 && t[i].1.id == file_id {
                    assert(has_id(t, file_id));
                }
            }
        }
        Some(new_ino)
    }

    /// Removes the entry registered under `file_id`, dropping the
    /// inode->entry and the source-id association together and returning the
    /// freed inode. An unknown id returns `None` and changes nothing, so a
    /// repeated remove is a no-op, not a fault.
    pub fn remove_file(&mut self, file_id: u64) -> (r: Option<u64>)
        requires
            old(self).wf(),
        ensures
            final(self).wf(),
            final(self).children_seq() == children_after_remove(
                old(self).children_seq(),
                file_id,
            ),
            final(self).next_ino() == old(self).next_ino(),
            final(self).root() == old(self).root(),
            r == (if has_id(old(self).children_seq(), file_id) {
                Some(removed_ino(old(self).children_seq(), file_id))
            } else {
                None::<u64>
            }),
            !has_id(final(self).children_seq(), file_id),
    {
        let n = self.children.len();
        let mut i: usize = 0;
        while i < n
            invariant
                n == self.children@.len(),
                i <= n,
                forall|j: int| 0 <= j < i ==> (#[trigger] self.children@[j]).1.id != file_id,
                *self == *old(self),
                old(self).wf(),
            decreases n - i,
        {
            if self.children[i].1.id == file_id {
                let ino = self.children[i].0;
                proof {
                    lemma_id_index_unique(self.children@, self.ino_counter, i as int);
                    lemma_remove_id(self.children@, self.ino_counter, i as int);
                }
                let _ = self.children.remove(i);
                return Some(ino);
            }
            i += 1;
        }
        proof {
            if has_id(self.children@, file_id) {
                let w = idx_of_id(self.children@, file_id);
                assert(self.children@[w].1.id != file_id);
            }
        }
        None
    }

    /// Point lookup by inode: the root entry for the root inode, the
    /// registered entry for a known child inode, absent otherwise.
    pub fn get(&self, ino: u64) -> (r: Option<FileEntry>)
        requires
            self.wf(),
        ensures
            match r {
                Some(e) => (ino == ROOT_INO && e == self.root()) || (ino != ROOT_INO && has_ino(
                    self.children_seq(),
                    ino,
                ) && e == entry_at(self.children_seq(), ino)),
                None => ino != ROOT_INO && !has_ino(self.children_seq(), ino),
            },
    {
        if ino == ROOT_INO {
            return Some(self.root_entry.clone());
        }
        let n = self.children.len();
        let mut i: usize = 0;
        while i < n
            invariant
                n == self.children@.len(),
                i <= n,
                forall|j: int| 0 <= j < i ==> (#[trigger] self.children@[j]).0 != ino,
                self.wf(),
            decreases n - i,
        {
            if self.children[i].0 == ino {
                proof {
                    lemma_ino_index_unique(self.children@, self.ino_counter, i as int);
                }
                let e = self.children[i].1.clone();
                return Some(e);
            }
            i += 1;
        }
        proof {
            if has_ino(self.children@, ino) {
                let w = idx_of_ino(self.children@, ino);
                assert(self.children@[w].0 != ino);
            }
        }
        None
    }

    /// All non-root entries as one consistent snapshot, each under its
    /// inode. The root inode never appears in the result.
    pub fn list_children(&self) -> (r: Vec<(u64, FileEntry)>)
        requires
            self.wf(),
        ensures
            r@.len() == self.children_seq().len(),
            forall|i: int|
                0 <= i < r@.len() ==> (#[trigger] r@[i]).0 == self.children_seq()[i].0 && r@[i].1
                    == self.children_seq()[i].1,
            forall|i: int| 0 <= i < r@.len() ==> (#[trigger] r@[i]).0 != ROOT_INO,
    {
        let n = self.children.len();
        let mut out: Vec<(u64, FileEntry)> = Vec::new();
        let mut i: usize = 0;
        while i < n
            invariant
                n == self.children@.len(),
                i <= n,
                out@.len() == i,
                forall|j: int|
                    0 <= j < i ==> (#[trigger] out@[j]).0 == self.children@[j].0 && out@[j].1
                        == self.children@[j].1,
                self.wf(),
            decreases n - i,
        {
            let pair: &(u64, FileEntry) = &self.children[i];
            let entry = pair.1.clone();
            out.push((pair.0, entry));
            i += 1;
        }
        out
    }
}

} // verus!

use vstd::prelude::*;

verus! {

/// What one open handle records: the inode it was opened for. Several
/// concurrent handles may reference the same inode.
#[derive(Clone, Copy, PartialEq, Eq, Structural, Debug)]
pub struct FileHandleInfo {
    pub ino: u64,
}

/// Whether some open handle has id `h`.
pub open spec fn has_handle(handles: Seq<(u64, FileHandleInfo)>, h: u64) -> bool {
    exists|i: int| 0 <= i < handles.len() && (#[trigger] handles[i]).0 == h
}

/// The index of the open handle with id `h` (unique under `handles_wf`;
/// meaningful only when `has_handle` holds).
pub open spec fn idx_of_handle(handles: Seq<(u64, FileHandleInfo)>, h: u64) -> int {
    choose|i: int| 0 <= i < handles.len() && (#[trigger] handles[i]).0 == h
}

/// The record behind handle `h` (meaningful only when `has_handle`).
pub open spec fn info_at(handles: Seq<(u64, FileHandleInfo)>, h: u64) -> FileHandleInfo {
    handles[idx_of_handle(handles, h)].1
}

/// The table after closing handle `h`: unchanged when the handle is
/// unknown, else with that one record dropped.
pub open spec fn handles_after_close(handles: Seq<(u64, FileHandleInfo)>, h: u64) -> Seq<
    (u64, FileHandleInfo),
> {
    if has_handle(handles, h) {
        handles.remove(idx_of_handle(handles, h))
    } else {
        handles
    }
}

/// Well-formedness of the table against the handle allocator: every open
/// handle id was allocated (is below the counter) and ids are distinct.
pub open spec fn handles_wf(handles: Seq<(u64, FileHandleInfo)>, counter: u64) -> bool {
    &&& forall|i: int| 0 <= i < handles.len() ==> (#[trigger] handles[i]).0 < counter
    &&& forall|i: int, j: int| 0 <= i < j < handles.len() ==> handles[i].0 != handles[j].0
}

/// Under `handles_wf`, the record at index `k` is the only one with its
/// handle id, so the chosen index is `k` itself.
pub proof fn lemma_handle_index_unique(handles: Seq<(u64, FileHandleInfo)>, counter: u64, k: int)
    requires
        handles_wf(handles, counter),
        0 <= k < handles.len(),
    ensures
        idx_of_handle(handles, handles[k].0) == k,
{
    let h = handles[k].0;
    assert(has_handle(handles, h));
    let j = idx_of_handle(handles, h);
    if j < k {
        assert(handles[j].0 != handles[k].0);
    } else if j > k {
        assert(handles[k].0 != handles[j].0);
    }
}

/// Removing the one record with handle id `h` keeps well-formedness and
/// leaves no record with that id.
pub proof fn lemma_close_handle(handles: Seq<(u64, FileHandleInfo)>, counter: u64, k: int)
    requires
        handles_wf(handles, counter),
        0 <= k < handles.len(),
    ensures
        handles.remove(k).len() == handles.len() - 1,
        forall|j: int|
            0 <= j < handles.len() - 1 ==> #[trigger] handles.remove(k)[j] == (if j < k {
                handles[j]
            } else {
                handles[j + 1]
            }),
        handles_wf(handles.remove(k), counter),
        !has_handle(handles.remove(k), handles[k].0),
{
    let r = handles.remove(k);
    assert forall|j: int| 0 <= j < handles.len() - 1 implies #[trigger] r[j] == (if j < k {
        handles[j]
    } else {
        handles[j + 1]
    }) by {
        assert(r == handles.subrange(0, k) + handles.subrange(k + 1, handles.len() as int));
    }
    assert forall|j: int| 0 <= j < r.len() implies !((#[trigger] r[j]).0 == handles[k].0) by {
        if j < k {
            assert(handles[j].0 != handles[k].0);
        } else {
            assert(handles[k].0 != handles[j + 1].0);
        }
    }
}

/// The open-session table: open handles with their records, and a monotonic
/// handle allocator starting at 0. Handle ids are never reused.
pub struct FileHandles {
    handles: Vec<(u64, FileHandleInfo)>,
    handle_counter: u64,
}

impl FileHandles {
    /// The open handles, each under its id.
    pub closed spec fn handles_seq(self) -> Seq<(u64, FileHandleInfo)> {
        self.handles@
    }

    /// The id the next open will allocate.
    pub closed spec fn next_handle(self) -> u64 {
        self.handle_counter
    }

    /// Table invariant: the records are well-formed against the allocator.
    pub open spec fn wf(self) -> bool {
        handles_wf(self.handles_seq(), self.next_handle())
    }

    /// An empty table with the allocator at 0.
    pub fn new() -> (r: Self)
        ensures
            r.wf(),
            r.handles_seq() == Seq::<(u64, FileHandleInfo)>::empty(),
            r.next_handle() == 0,
    {
        FileHandles { handles: Vec::new(), handle_counter: 0 }
    }

    /// The id the next open will allocate; callers use it to test that the
    /// allocator has room before asking for an open.
    pub fn next_handle_id(&self) -> (h: u64)
        ensures
            h == self.next_handle(),
    {
        self.handle_counter
    }

    /// Opens a new handle for `ino` and returns its id. Always succeeds and
    /// allocates a strictly increasing id; the inode is not validated here
    /// (the adapter does that before calling).
    pub fn open(&mut self, ino: u64) -> (h: u64)
        requires
            old(self).wf(),
            old(self).next_handle() < u64::MAX,
        ensures
            final(self).wf(),
            h == old(self).next_handle(),
            final(self).next_handle() == old(self).next_handle() + 1,
            final(self).handles_seq() == old(self).handles_seq().push(
                (h, FileHandleInfo { ino }),
            ),
    {
        let handle = self.handle_counter;
        self.handles.push((handle, FileHandleInfo { ino }));
        self.handle_counter = handle + 1;
        handle
    }

    /// Point lookup by handle id.
    pub fn get(&self, handle: u64) -> (r: Option<FileHandleInfo>)
        requires
            self.wf(),
        ensures
            match r {
                Some(info) => has_handle(self.handles_seq(), handle) && info == info_at(
                    self.handles_seq(),
                    handle,
                ),
                None => !has_handle(self.handles_seq(), handle),
            },
    {
        let n = self.handles.len();
        let mut i: usize = 0;
        while i < n
            invariant
                n == self.handles@.len(),
                i <= n,
                forall|j: int| 0 <= j < i ==> (#[trigger] self.handles@[j]).0 != handle,
                self.wf(),
            decreases n - i,
        {
            if self.handles[i].0 == handle {
                proof {
                    lemma_handle_index_unique(self.handles@, self.handle_counter, i as int);
                }
                return Some(self.handles[i].1);
            }
            i += 1;
        }
        proof {
            if has_handle(self.handles@, handle) {
                let w = idx_of_handle(self.handles@, handle);
                assert(self.handles@[w].0 != handle);
            }
        }
        None
    }

    /// Closes a handle: removes its record if present. Closing an unknown
    /// or already-closed handle is a no-op, not a fault.
    pub fn close(&mut self, handle: u64)
        requires
            old(self).wf(),
        ensures
            final(self).wf(),
            final(self).handles_seq() == handles_after_close(old(self).handles_seq(), handle),
            final(self).next_handle() == old(self).next_handle(),
            !has_handle(final(self).handles_seq(), handle),
    {
        let n = self.handles.len();
        let mut i: usize = 0;
        while i < n
            invariant
                n == self.handles@.len(),
                i <= n,
                forall|j: int| 0 <= j < i ==> (#[trigger] self.handles@[j]).0 != handle,
                *self == *old(self),
                old(self).wf(),
            decreases n - i,
        {
            if self.handles[i].0 == handle {
                proof {
                    lemma_handle_index_unique(self.handles@, self.handle_counter, i as int);
                    lemma_close_handle(self.handles@, self.handle_counter, i as int);
                }
                let _ = self.handles.remove(i);
                return ;
            }
            i += 1;
        }
        proof {
            if has_handle(self.handles@, handle) {
                let w = idx_of_handle(self.handles@, handle);
                assert(self.handles@[w].0 != handle);
            }
        }
    }
}

} // verus!

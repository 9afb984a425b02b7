use vstd::prelude::*;

use crate::catalog::Catalog;
use crate::catalog::FileEntry;
use crate::catalog::children_after_add;
use crate::catalog::children_after_remove;
use crate::catalog::children_wf;
use crate::catalog::has_id;
use crate::catalog::idx_of_id;
use crate::catalog::lemma_add_preserves_wf;
use crate::catalog::lemma_remove_id;
use crate::catalog::lemma_remove_no_new_id;

verus! {

/// Fixed reconnect backoff, in milliseconds (5 s).
pub const BACKOFF_MILLIS: u64 = 5000;

/// The base version every subscription requests: 0 asks the server to
/// replay the full catalog, so convergence after a reconnect relies on
/// add/remove idempotence rather than protocol-level resumption.
pub const BASE_VERSION: u64 = 0;

/// The kind of one inbound catalog delta.
#[derive(Clone, Copy, PartialEq, Eq, Structural, Debug)]
pub enum UpdateKind {
    Add,
    Remove,
}

/// One file named by a catalog update.
#[derive(Debug)]
pub struct FileDescriptor {
    pub id: u64,
    pub name: String,
    pub url: String,
    pub size: u64,
}

impl Clone for FileDescriptor {
    fn clone(&self) -> (res: Self)
        ensures
            res == *self,
    {
        FileDescriptor {
            id: self.id,
            name: self.name.clone(),
            url: self.url.clone(),
            size: self.size,
        }
    }
}

/// One inbound protocol message of the catalog-watch stream: a delta to
/// apply, tagged with the sequence number to acknowledge.
#[derive(Debug)]
pub struct CatalogUpdate {
    pub kind: UpdateKind,
    pub update_id: u64,
    pub files: Vec<FileDescriptor>,
}

/// Connection state of the catalog-sync session. There is no terminal
/// state: an error only detours through `Disconnected`.
#[derive(Clone, Copy, PartialEq, Eq, Structural, Debug)]
pub enum SyncState {
    Disconnected,
    Connecting,
    Subscribed,
}

/// What the session loop observed since its last step.
pub enum SyncEvent {
    /// The loop starts, or resumes after a backoff pause.
    Start,
    /// The transport connection came up.
    ConnectSucceeded,
    /// The backend was unreachable.
    ConnectFailed,
    /// One update arrived on the inbound stream.
    UpdateReceived(CatalogUpdate),
    /// The inbound stream failed or was closed cleanly.
    StreamEnded,
}

/// What the session loop must do next.
#[derive(Clone, Copy, PartialEq, Eq, Structural, Debug)]
pub enum SyncAction {
    /// Establish the transport connection.
    Connect,
    /// Send the subscribe message with this base version.
    SendSubscribe { base_version: u64 },
    /// Acknowledge the update just applied.
    SendAck { update_id: u64 },
    /// Wait this many milliseconds, then feed `Start`.
    Sleep { millis: u64 },
    /// The event did not fit the state; nothing to do.
    Idle,
}

/// The session state after one step.
pub open spec fn next_state(state: SyncState, event: SyncEvent) -> SyncState {
    match (state, event) {
        (SyncState::Disconnected, SyncEvent::Start) => SyncState::Connecting,
        (SyncState::Connecting, SyncEvent::ConnectSucceeded) => SyncState::Subscribed,
        (SyncState::Connecting, SyncEvent::ConnectFailed) => SyncState::Disconnected,
        (SyncState::Subscribed, SyncEvent::UpdateReceived(_)) => SyncState::Subscribed,
        (SyncState::Subscribed, SyncEvent::StreamEnded) => SyncState::Disconnected,
        _ => state,
    }
}

/// The action one step demands.
pub open spec fn action_of(state: SyncState, event: SyncEvent) -> SyncAction {
    match (state, event) {
        (SyncState::Disconnected, SyncEvent::Start) => SyncAction::Connect,
        (SyncState::Connecting, SyncEvent::ConnectSucceeded) => SyncAction::SendSubscribe {
            base_version: BASE_VERSION,
        },
        (SyncState::Connecting, SyncEvent::ConnectFailed) => SyncAction::Sleep {
            millis: BACKOFF_MILLIS,
        },
        (SyncState::Subscribed, SyncEvent::UpdateReceived(u)) => SyncAction::SendAck {
            update_id: u.update_id,
        },
        (SyncState::Subscribed, SyncEvent::StreamEnded) => SyncAction::Sleep {
            millis: BACKOFF_MILLIS,
        },
        _ => SyncAction::Idle,
    }
}

/// The children and allocation counter after the adds in `files`, applied
/// in order.
pub open spec fn children_after_adds(
    children: Seq<(u64, FileEntry)>,
    counter: u64,
    files: Seq<FileDescriptor>,
) -> (Seq<(u64, FileEntry)>, u64)
    decreases files.len(),
{
    if files.len() == 0 {
        (children, counter)
    } else {
        let prev = children_after_adds(children, counter, files.drop_last());
        let d = files.last();
        (children_after_add(prev.0, prev.1, d.id, d.name, d.url, d.size), (prev.1 + 1) as u64)
    }
}

/// The children after the removes in `files`, applied in order; unknown
/// ids are skipped, never a fault.
pub open spec fn children_after_removes(
    children: Seq<(u64, FileEntry)>,
    files: Seq<FileDescriptor>,
) -> Seq<(u64, FileEntry)>
    decreases files.len(),
{
    if files.len() == 0 {
        children
    } else {
        children_after_remove(children_after_removes(children, files.drop_last()), files.last().id)
    }
}

/// The catalog contents after one update is fully applied.
pub open spec fn children_after_update(
    children: Seq<(u64, FileEntry)>,
    counter: u64,
    kind: UpdateKind,
    files: Seq<FileDescriptor>,
) -> (Seq<(u64, FileEntry)>, u64) {
    match kind {
        UpdateKind::Add => children_after_adds(children, counter, files),
        UpdateKind::Remove => (children_after_removes(children, files), counter),
    }
}

/// The catalog contents after one session step: only an update received
/// while subscribed mutates the catalog.
pub open spec fn catalog_after_step(
    children: Seq<(u64, FileEntry)>,
    counter: u64,
    state: SyncState,
    event: SyncEvent,
) -> (Seq<(u64, FileEntry)>, u64) {
    match event {
        SyncEvent::UpdateReceived(u) => if state is Subscribed {
            children_after_update(children, counter, u.kind, u.files@)
        } else {
            (children, counter)
        },
        _ => (children, counter),
    }
}

/// Applies one inbound delta to the catalog — every listed file added, or
/// every listed source id removed, unknown ids skipped — and returns the
/// sequence number to acknowledge. The ack id is handed back only together
/// with the fully applied catalog, so the acknowledgement follows the
/// application.
pub fn apply_update(catalog: &mut Catalog, update: &CatalogUpdate) -> (ack: u64)
    requires
        old(catalog).wf(),
        update.kind is Add ==> old(catalog).next_ino() + update.files@.len() <= u64::MAX,
    ensures
        final(catalog).wf(),
        ack == update.update_id,
        (final(catalog).children_seq(), final(catalog).next_ino()) == children_after_update(
            old(catalog).children_seq(),
            old(catalog).next_ino(),
            update.kind,
            update.files@,
        ),
        final(catalog).root() == old(catalog).root(),
{
    let n = update.files.len();
    let mut i: usize = 0;
    match update.kind {
        UpdateKind::Add => {
            while i < n
                invariant
                    n == update.files@.len(),
                    i <= n,
                    old(catalog).wf(),
                    old(catalog).next_ino() + n <= u64::MAX,
                    catalog.wf(),
                    catalog.root() == old(catalog).root(),
                    (catalog.children_seq(), catalog.next_ino()) == children_after_adds(
                        old(catalog).children_seq(),
                        old(catalog).next_ino(),
                        update.files@.take(i as int),
                    ),
                    catalog.next_ino() == old(catalog).next_ino() + i,
                decreases n - i,
            {
                let d = &update.files[i];
                let name = d.name.clone();
                let url = d.url.clone();
                let _ = catalog.add_file(d.id, name, url, d.size);
                proof {
                    let files = update.files@;
                    assert(files.take(i as int + 1).drop_last() =~= files.take(i as int));
                    assert(files.take(i as int + 1).last() == files[i as int]);
                }
                i += 1;
            }
            proof {
                assert(update.files@.take(n as int) =~= update.files@);
            }
        },
        UpdateKind::Remove => {
            while i < n
                invariant
                    n == update.files@.len(),
                    i <= n,
                    old(catalog).wf(),
                    catalog.wf(),
                    catalog.root() == old(catalog).root(),
                    catalog.next_ino() == old(catalog).next_ino(),
                    catalog.children_seq() == children_after_removes(
                        old(catalog).children_seq(),
                        update.files@.take(i as int),
                    ),
                decreases n - i,
            {
                let d = &update.files[i];
                let _ = catalog.remove_file(d.id);
                proof {
                    let files = update.files@;
                    assert(files.take(i as int + 1).drop_last() =~= files.take(i as int));
                    assert(files.take(i as int + 1).last() == files[i as int]);
                }
                i += 1;
            }
            proof {
                assert(update.files@.take(n as int) =~= update.files@);
            }
        },
    }
    update.update_id
}

/// One step of the catalog-sync session: consumes the observed event in
/// the current state, applies a received update to the shared catalog,
/// and names the next state together with the action the driving loop
/// must perform (connect, subscribe, acknowledge, or back off and retry).
/// A remote fault never ends the session; it only detours through
/// `Disconnected`.
pub fn sync_step(state: SyncState, event: SyncEvent, catalog: &mut Catalog) -> (r: (
    SyncState,
    SyncAction,
))
    requires
        old(catalog).wf(),
        event matches SyncEvent::UpdateReceived(u) ==> ((state is Subscribed && u.kind is Add)
            ==> old(catalog).next_ino() + u.files@.len() <= u64::MAX),
    ensures
        final(catalog).wf(),
        r.0 == next_state(state, event),
        r.1 == action_of(state, event),
        (final(catalog).children_seq(), final(catalog).next_ino()) == catalog_after_step(
            old(catalog).children_seq(),
            old(catalog).next_ino(),
            state,
            event,
        ),
        final(catalog).root() == old(catalog).root(),
{
    match (state, event) {
        (SyncState::Disconnected, SyncEvent::Start) => (SyncState::Connecting, SyncAction::Connect),
        (SyncState::Connecting, SyncEvent::ConnectSucceeded) => (
            SyncState::Subscribed,
            SyncAction::SendSubscribe { base_version: BASE_VERSION },
        ),
        (SyncState::Connecting, SyncEvent::ConnectFailed) => (
            SyncState::Disconnected,
            SyncAction::Sleep { millis: BACKOFF_MILLIS },
        ),
        (SyncState::Subscribed, SyncEvent::UpdateReceived(u)) => {
            let ack = apply_update(catalog, &u);
            (SyncState::Subscribed, SyncAction::SendAck { update_id: ack })
        },
        (SyncState::Subscribed, SyncEvent::StreamEnded) => (
            SyncState::Disconnected,
            SyncAction::Sleep { millis: BACKOFF_MILLIS },
        ),
        (s, _) => (s, SyncAction::Idle),
    }
}

/// Applying adds keeps the children well-formed and moves the counter by
/// exactly one per file.
pub proof fn lemma_adds_preserve_wf(
    children: Seq<(u64, FileEntry)>,
    counter: u64,
    files: Seq<FileDescriptor>,
)
    requires
        children_wf(children, counter),
        counter + files.len() <= u64::MAX,
    ensures
        ({
            let s = children_after_adds(children, counter, files);
            children_wf(s.0, s.1) && s.1 == counter + files.len()
        }),
    decreases files.len(),
{
    if files.len() > 0 {
        lemma_adds_preserve_wf(children, counter, files.drop_last());
        let prev = children_after_adds(children, counter, files.drop_last());
        let d = files.last();
        lemma_add_preserves_wf(prev.0, prev.1, d.id, d.name, d.url, d.size);
    }
}

/// Applying removes keeps the children well-formed, never introduces a
/// source id, and leaves every listed id absent.
pub proof fn lemma_removes_remove_all(
    children: Seq<(u64, FileEntry)>,
    counter: u64,
    files: Seq<FileDescriptor>,
)
    requires
        children_wf(children, counter),
    ensures
        children_wf(children_after_removes(children, files), counter),
        forall|id: u64|
            !has_id(children, id) ==> !(#[trigger] has_id(
                children_after_removes(children, files),
                id,
            )),
        forall|i: int|
            0 <= i < files.len() ==> !has_id(
                children_after_removes(children, files),
                (#[trigger] files[i]).id,
            ),
    decreases files.len(),
{
    if files.len() > 0 {
        lemma_removes_remove_all(children, counter, files.drop_last());
        let prev = children_after_removes(children, files.drop_last());
        let last_id = files.last().id;
        let after = children_after_remove(prev, last_id);
        if has_id(prev, last_id) {
            lemma_remove_id(prev, counter, idx_of_id(prev, last_id));
        } else {
            assert forall|j: int| 0 <= j < after.len() implies !((#[trigger] after[j]).1.id
                == last_id) by {
                if after[j].1.id == last_id {
                    assert(has_id(prev, last_id));
                }
            }
        }
        assert forall|id: u64| !has_id(prev, id) implies !(#[trigger] has_id(after, id)) by {
            lemma_remove_no_new_id(prev, counter, last_id, id);
        }
        assert forall|i: int| 0 <= i < files.len() implies !has_id(
            after,
            #[trigger] files[i].id,
        ) by {
            if i < files.len() - 1 {
                assert(files.drop_last()[i] == files[i]);
                assert(!has_id(prev, files[i].id));
            }
        }
    }
}

/// A delivered ADD followed by a delivered REMOVE for the same source id
/// leaves the catalog with no entry for that id, however many other files
/// either update listed. The step function returns each update's ack only
/// together with the fully applied catalog, so the REMOVE's
/// acknowledgement stands strictly after its application.
pub proof fn lemma_add_then_remove_leaves_id_absent(
    children: Seq<(u64, FileEntry)>,
    counter: u64,
    add_files: Seq<FileDescriptor>,
    rem_files: Seq<FileDescriptor>,
    i: int,
)
    requires
        children_wf(children, counter),
        counter + add_files.len() <= u64::MAX,
        0 <= i < rem_files.len(),
    ensures
        ({
            let s1 = children_after_update(children, counter, UpdateKind::Add, add_files);
            let s2 = children_after_update(s1.0, s1.1, UpdateKind::Remove, rem_files);
            !has_id(s2.0, rem_files[i].id)
        }),
{
    lemma_adds_preserve_wf(children, counter, add_files);
    let s1 = children_after_adds(children, counter, add_files);
    lemma_removes_remove_all(s1.0, s1.1, rem_files);
}

/// Losing the stream mid-session costs only time: the loop backs off for
/// the fixed interval, reconnects, resubscribes with base version 0, and
/// the catalog keeps every entry it had — no truncation on reconnect.
pub proof fn lemma_reconnect_keeps_catalog(children: Seq<(u64, FileEntry)>, counter: u64)
    ensures
        next_state(SyncState::Subscribed, SyncEvent::StreamEnded) == SyncState::Disconnected,
        action_of(SyncState::Subscribed, SyncEvent::StreamEnded) == (SyncAction::Sleep {
            millis: BACKOFF_MILLIS,
        }),
        next_state(SyncState::Disconnected, SyncEvent::Start) == SyncState::Connecting,
        action_of(SyncState::Disconnected, SyncEvent::Start) == SyncAction::Connect,
        next_state(SyncState::Connecting, SyncEvent::ConnectSucceeded) == SyncState::Subscribed,
        action_of(SyncState::Connecting, SyncEvent::ConnectSucceeded) == (SyncAction::SendSubscribe {
            base_version: BASE_VERSION,
        }),
        catalog_after_step(children, counter, SyncState::Subscribed, SyncEvent::StreamEnded) == (
            children,
            counter,
        ),
        catalog_after_step(children, counter, SyncState::Disconnected, SyncEvent::Start) == (
            children,
            counter,
        ),
        catalog_after_step(children, counter, SyncState::Connecting, SyncEvent::ConnectSucceeded)
            == (children, counter),
{
}

} // verus!

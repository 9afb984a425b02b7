use vfs_daemon::catalog::Catalog;
use vfs_daemon::fetch::ChunkAssembler;
use vfs_daemon::fetch::FileChunk;
use vfs_daemon::fetch::assemble_chunks;
use vfs_daemon::fetch::make_range_request;
use vfs_daemon::sync::BACKOFF_MILLIS;
use vfs_daemon::sync::BASE_VERSION;
use vfs_daemon::sync::CatalogUpdate;
use vfs_daemon::sync::FileDescriptor;
use vfs_daemon::sync::SyncAction;
use vfs_daemon::sync::SyncEvent;
use vfs_daemon::sync::SyncState;
use vfs_daemon::sync::UpdateKind;
use vfs_daemon::sync::apply_update;
use vfs_daemon::sync::sync_step;

fn chunk(number: u64, data: &[u8], is_final: bool) -> FileChunk {
    FileChunk { chunk_number: number, data: data.to_vec(), is_final }
}

fn descriptor(id: u64, name: &str) -> FileDescriptor {
    FileDescriptor {
        id,
        name: name.to_owned(),
        url: format!("proto://{}", id),
        size: 100,
    }
}

#[test]
fn range_request_carries_fixed_chunk_size_and_timeout() {
    let req = make_range_request("proto://x".to_owned(), 999, 1);
    assert_eq!(req.url, "proto://x");
    assert_eq!(req.offset, 999);
    assert_eq!(req.length, 1);
    assert_eq!(req.chunk_size, 1048576);
    assert_eq!(req.timeout_seconds, 30);
}

#[test]
fn chunks_concatenate_in_arrival_order_until_final() {
    let chunks = vec![
        chunk(0, b"ab", false),
        chunk(1, b"cd", true),
        chunk(2, b"zz", false),
    ];
    assert_eq!(assemble_chunks(&chunks), b"abcd".to_vec());
}

#[test]
fn stream_without_final_mark_yields_everything() {
    let chunks = vec![chunk(0, b"ab", false), chunk(1, b"cd", false)];
    assert_eq!(assemble_chunks(&chunks), b"abcd".to_vec());
    assert_eq!(assemble_chunks(&Vec::new()), Vec::<u8>::new());
}

#[test]
fn assembler_accumulates_and_stops_at_final_chunk() {
    let mut assembler = ChunkAssembler::new();
    assert!(assembler.push_chunk(&chunk(0, b"he", false)));
    assert!(assembler.push_chunk(&chunk(1, b"ll", false)));
    assert!(!assembler.push_chunk(&chunk(2, b"o", true)));
    assert_eq!(assembler.into_data(), b"hello".to_vec());
}

#[test]
fn add_update_installs_every_listed_file() {
    let mut cat = Catalog::new();
    let update = CatalogUpdate {
        kind: UpdateKind::Add,
        update_id: 41,
        files: vec![descriptor(7, "a.mp4"), descriptor(8, "b.mp4")],
    };
    let ack = apply_update(&mut cat, &update);
    assert_eq!(ack, 41);
    let children = cat.list_children();
    assert_eq!(children.len(), 2);
    let names: Vec<String> = children.iter().map(|(_, e)| e.name.clone()).collect();
    assert!(names.contains(&"a.mp4".to_owned()));
    assert!(names.contains(&"b.mp4".to_owned()));
}

#[test]
fn remove_update_skips_unknown_ids() {
    let mut cat = Catalog::new();
    let add = CatalogUpdate {
        kind: UpdateKind::Add,
        update_id: 1,
        files: vec![descriptor(7, "a.mp4")],
    };
    apply_update(&mut cat, &add);
    let remove = CatalogUpdate {
        kind: UpdateKind::Remove,
        update_id: 2,
        files: vec![descriptor(99, "unknown"), descriptor(7, "a.mp4")],
    };
    let ack = apply_update(&mut cat, &remove);
    assert_eq!(ack, 2);
    assert!(cat.list_children().is_empty());
}

#[test]
fn session_connects_subscribes_and_backs_off() {
    let mut cat = Catalog::new();
    let (s1, a1) = sync_step(SyncState::Disconnected, SyncEvent::Start, &mut cat);
    assert_eq!(s1, SyncState::Connecting);
    assert_eq!(a1, SyncAction::Connect);
    let (s2, a2) = sync_step(s1, SyncEvent::ConnectFailed, &mut cat);
    assert_eq!(s2, SyncState::Disconnected);
    assert_eq!(a2, SyncAction::Sleep { millis: BACKOFF_MILLIS });
    let (s3, a3) = sync_step(s2, SyncEvent::Start, &mut cat);
    assert_eq!(s3, SyncState::Connecting);
    assert_eq!(a3, SyncAction::Connect);
    let (s4, a4) = sync_step(s3, SyncEvent::ConnectSucceeded, &mut cat);
    assert_eq!(s4, SyncState::Subscribed);
    assert_eq!(a4, SyncAction::SendSubscribe { base_version: BASE_VERSION });
}

#[test]
fn add_then_remove_for_one_id_leaves_no_entry_and_acks_in_order() {
    let mut cat = Catalog::new();
    let state = SyncState::Subscribed;
    let add = CatalogUpdate {
        kind: UpdateKind::Add,
        update_id: 10,
        files: vec![descriptor(7, "a.mp4")],
    };
    let (state, action) = sync_step(state, SyncEvent::UpdateReceived(add), &mut cat);
    assert_eq!(state, SyncState::Subscribed);
    assert_eq!(action, SyncAction::SendAck { update_id: 10 });
    assert_eq!(cat.list_children().len(), 1);
    let remove = CatalogUpdate {
        kind: UpdateKind::Remove,
        update_id: 11,
        files: vec![descriptor(7, "a.mp4")],
    };
    let (state, action) = sync_step(state, SyncEvent::UpdateReceived(remove), &mut cat);
    assert_eq!(state, SyncState::Subscribed);
    // the ack for the remove is produced only once the removal is applied:
    // the step hands back the ack action and the mutated catalog together
    assert_eq!(action, SyncAction::SendAck { update_id: 11 });
    assert!(cat.list_children().is_empty());
}

#[test]
fn reconnect_after_stream_loss_keeps_catalog_entries() {
    let mut cat = Catalog::new();
    let add = CatalogUpdate {
        kind: UpdateKind::Add,
        update_id: 1,
        files: vec![descriptor(7, "a.mp4")],
    };
    let (state, _) = sync_step(SyncState::Subscribed, SyncEvent::UpdateReceived(add), &mut cat);
    let (state, action) = sync_step(state, SyncEvent::StreamEnded, &mut cat);
    assert_eq!(state, SyncState::Disconnected);
    assert_eq!(action, SyncAction::Sleep { millis: BACKOFF_MILLIS });
    let (state, action) = sync_step(state, SyncEvent::Start, &mut cat);
    assert_eq!(state, SyncState::Connecting);
    assert_eq!(action, SyncAction::Connect);
    let (state, action) = sync_step(state, SyncEvent::ConnectSucceeded, &mut cat);
    assert_eq!(state, SyncState::Subscribed);
    assert_eq!(action, SyncAction::SendSubscribe { base_version: 0 });
    // entries added before the disconnect are still present afterwards
    let children = cat.list_children();
    assert_eq!(children.len(), 1);
    assert_eq!(children[0].1.name, "a.mp4");
}

#[test]
fn events_that_do_not_fit_the_state_are_ignored() {
    let mut cat = Catalog::new();
    let (state, action) = sync_step(SyncState::Disconnected, SyncEvent::StreamEnded, &mut cat);
    assert_eq!(state, SyncState::Disconnected);
    assert_eq!(action, SyncAction::Idle);
    let (state, action) = sync_step(SyncState::Subscribed, SyncEvent::Start, &mut cat);
    assert_eq!(state, SyncState::Subscribed);
    assert_eq!(action, SyncAction::Idle);
}

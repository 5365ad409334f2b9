use std::collections::BTreeMap;

use quotick::epoch::read_frame;
use quotick::epoch_bridge::is_sorted;
use quotick::snapshot::encode_list;
use quotick::{Epoch, EpochBridge, EpochError, Frame, QuotickError, Tick};

/// Files of one asset, kept in memory.
#[derive(Default)]
struct Disk {
    logs: BTreeMap<u64, Vec<u8>>,
    snapshots: BTreeMap<u64, Vec<u8>>,
    epochs: Option<Vec<u8>>,
}

struct Rec;

impl Tick for Rec {
    fn epoch(&self, time: u64) -> u64 {
        time / 100_000_000
    }
}

fn open_shard(disk: &Disk, id: u64) -> Epoch {
    let len = disk.logs.get(&id).map_or(0, |l| l.len() as u64);
    Epoch::new(id, disk.snapshots.get(&id).map(|b| b.as_slice()), len)
}

fn shard_insert(disk: &mut Disk, shard: &mut Epoch, time: u64, payload: &[u8]) -> Result<(), EpochError> {
    let bytes = shard.plan_insert(&Frame::new(time, Some(payload.to_vec())))?;
    let log = disk.logs.entry(shard.epoch()).or_default();
    log.extend_from_slice(&bytes);
    match shard.commit_insert(time, bytes.len() as u64) {
        Ok(_) => Ok(()),
        Err(e) => {
            log.truncate(shard.data_len() as usize);
            Err(e)
        }
    }
}

fn read_payload(disk: &Disk, shard: &Epoch, time: u64) -> Option<Vec<u8>> {
    let e = shard.extent_of(time)?;
    let log = disk.logs.get(&shard.epoch())?;
    let bytes = &log[e.offset as usize..(e.offset + e.size as u64) as usize];
    read_frame(bytes).ok()?.tick
}

fn router_insert(disk: &mut Disk, router: &mut EpochBridge, time: u64, payload: &[u8]) -> Result<(), QuotickError> {
    let epoch = Frame::new(time, Some(Rec)).epoch().ok_or(QuotickError::BadFrameEpoch)?;
    if router.needs_epoch_update(epoch) {
        let shard = open_shard(disk, epoch);
        if let Some((id, bytes)) = router.load_epoch(shard) {
            disk.snapshots.insert(id, bytes);
        }
    }
    let bytes = router.plan_insert(epoch, &Frame::new(time, Some(payload.to_vec())))?;
    let log = disk.logs.entry(epoch).or_default();
    log.extend_from_slice(&bytes);
    match router.commit_insert(epoch, time, bytes.len() as u64) {
        Ok(_) => Ok(()),
        Err(e) => {
            log.truncate(router.hot().unwrap().data_len() as usize);
            Err(e)
        }
    }
}

fn router_persist(disk: &mut Disk, router: &mut EpochBridge) {
    let (ids, shard) = router.persist();
    disk.epochs = Some(ids);
    if let Some((id, bytes)) = shard {
        disk.snapshots.insert(id, bytes);
    }
}

fn oldest(disk: &Disk, router: &EpochBridge) -> Option<(u64, Vec<u8>)> {
    let id = *router.epochs().first()?;
    let shard = open_shard(disk, id);
    let (time, _) = shard.oldest()?;
    Some((time, read_payload(disk, &shard, time)?))
}

fn newest(disk: &Disk, router: &EpochBridge) -> Option<(u64, Vec<u8>)> {
    let id = *router.epochs().last()?;
    let shard = open_shard(disk, id);
    let (time, _) = shard.newest()?;
    Some((time, read_payload(disk, &shard, time)?))
}

#[test]
fn insert_then_read_gives_the_payload() {
    let mut disk = Disk::default();
    let mut shard = open_shard(&disk, 0);
    shard_insert(&mut disk, &mut shard, 7, b"seven").unwrap();
    shard_insert(&mut disk, &mut shard, 3, b"three").unwrap();
    assert_eq!(read_payload(&disk, &shard, 7), Some(b"seven".to_vec()));
    assert_eq!(read_payload(&disk, &shard, 3), Some(b"three".to_vec()));
    let e = shard.extent_of(3).unwrap();
    assert_eq!(e.offset, 14);
    assert_eq!(e.size, 14);
    assert_eq!(shard.data_len(), 28);
}

#[test]
fn equal_time_conflicts_and_keeps_the_first() {
    let mut disk = Disk::default();
    let mut shard = open_shard(&disk, 0);
    shard_insert(&mut disk, &mut shard, 5, b"first").unwrap();
    let len = shard.data_len();
    assert_eq!(
        shard_insert(&mut disk, &mut shard, 5, b"second"),
        Err(EpochError::FrameConflict)
    );
    assert_eq!(read_payload(&disk, &shard, 5), Some(b"first".to_vec()));
    assert_eq!(shard.data_len(), len);
    assert_eq!(disk.logs[&0].len() as u64, len);
}

#[test]
fn commit_of_a_taken_time_conflicts() {
    let mut shard = Epoch::new(0, None, 0);
    assert!(shard.commit_insert(5, 10).is_ok());
    assert_eq!(shard.commit_insert(5, 10), Err(EpochError::FrameConflict));
}

#[test]
fn oversized_frame_is_rolled_back() {
    let mut disk = Disk::default();
    let mut shard = open_shard(&disk, 0);
    shard_insert(&mut disk, &mut shard, 1, b"small").unwrap();
    let before = disk.logs[&0].len();
    let big = vec![7u8; 70_000];
    assert_eq!(
        shard_insert(&mut disk, &mut shard, 2, &big),
        Err(EpochError::FrameTooBig)
    );
    assert_eq!(disk.logs[&0].len(), before);
    assert_eq!(shard.data_len() as usize, before);
    assert!(shard.extent_of(2).is_none());
}

#[test]
fn largest_frame_fits() {
    let mut disk = Disk::default();
    let mut shard = open_shard(&disk, 0);
    let payload = vec![1u8; 65_535 - 9];
    shard_insert(&mut disk, &mut shard, 1, &payload).unwrap();
    assert_eq!(shard.extent_of(1).unwrap().size, 65_535);
    let one_more = vec![1u8; 65_536 - 9];
    assert_eq!(
        shard_insert(&mut disk, &mut shard, 2, &one_more),
        Err(EpochError::FrameTooBig)
    );
}

#[test]
fn empty_frame_is_rejected() {
    let shard = Epoch::new(0, None, 0);
    let f: Frame<Vec<u8>> = Frame::new(1, None);
    assert!(matches!(shard.plan_insert(&f), Err(EpochError::FrameEmpty)));
}

#[test]
fn log_past_48_bits_is_refused() {
    let mut shard = Epoch::new(0, None, (1u64 << 48) - 10);
    assert_eq!(shard.commit_insert(1, 11), Err(EpochError::OffsetOverflow));
    assert_eq!(shard.data_len(), (1u64 << 48) - 10);
    assert!(shard.commit_insert(1, 10).is_ok());
}

#[test]
fn persist_only_when_changed() {
    let mut disk = Disk::default();
    let mut shard = open_shard(&disk, 3);
    assert!(shard.persist().is_none());
    shard_insert(&mut disk, &mut shard, 1, b"a").unwrap();
    assert!(shard.is_tainted());
    assert!(shard.persist().is_some());
    assert!(!shard.is_tainted());
    assert!(shard.persist().is_none());
}

#[test]
fn snapshot_reopen_keeps_entries_and_order() {
    let mut disk = Disk::default();
    let mut shard = open_shard(&disk, 0);
    for (t, p) in [(30u64, b"c"), (10, b"a"), (20, b"b")] {
        shard_insert(&mut disk, &mut shard, t, p).unwrap();
    }
    let snap = shard.persist().unwrap();
    disk.snapshots.insert(0, snap);
    let reopened = open_shard(&disk, 0);
    assert_eq!(reopened.frames().as_slice(), shard.frames().as_slice());
    assert_eq!(reopened.frames().len(), 3);
    assert_eq!(read_payload(&disk, &reopened, 20), Some(b"b".to_vec()));
}

#[test]
fn unreadable_snapshot_opens_empty() {
    let shard = Epoch::new(4, Some(&[1, 2, 3]), 100);
    assert_eq!(shard.frames().len(), 0);
    assert_eq!(shard.data_len(), 100);
    assert_eq!(shard.epoch(), 4);
}

#[test]
fn same_epoch_lands_in_same_log() {
    let mut disk = Disk::default();
    let mut router = EpochBridge::new(None);
    router_insert(&mut disk, &mut router, 5, b"x").unwrap();
    router_insert(&mut disk, &mut router, 100_000_005, b"y").unwrap();
    router_insert(&mut disk, &mut router, 6, b"z").unwrap();
    router_persist(&mut disk, &mut router);
    let shard0 = open_shard(&disk, 0);
    let shard1 = open_shard(&disk, 1);
    assert_eq!(shard0.frames().len(), 2);
    assert_eq!(shard1.frames().len(), 1);
    assert_eq!(read_payload(&disk, &shard0, 5), Some(b"x".to_vec()));
    assert_eq!(read_payload(&disk, &shard0, 6), Some(b"z".to_vec()));
    assert_eq!(read_payload(&disk, &shard1, 100_000_005), Some(b"y".to_vec()));
}

#[test]
fn end_to_end_oldest_and_newest() {
    let mut disk = Disk::default();
    let mut router = EpochBridge::new(None);
    for (t, p) in [(10u64, b"A"), (11, b"B"), (12, b"C")] {
        router_insert(&mut disk, &mut router, t, p).unwrap();
    }
    router_persist(&mut disk, &mut router);
    drop(router);
    let reopened = EpochBridge::new(disk.epochs.as_deref());
    assert_eq!(reopened.epochs(), &[0]);
    assert_eq!(oldest(&disk, &reopened), Some((10, b"A".to_vec())));
    assert_eq!(newest(&disk, &reopened), Some((12, b"C".to_vec())));
}

#[test]
fn cross_shard_ids_and_logs() {
    let mut disk = Disk::default();
    let mut router = EpochBridge::new(None);
    router_insert(&mut disk, &mut router, 100_000_000, b"late").unwrap();
    router_insert(&mut disk, &mut router, 5, b"early").unwrap();
    router_persist(&mut disk, &mut router);
    let reopened = EpochBridge::new(disk.epochs.as_deref());
    assert_eq!(reopened.epochs(), &[0, 1]);
    let shard0 = open_shard(&disk, 0);
    let shard1 = open_shard(&disk, 1);
    assert_eq!(shard0.frames().as_slice().iter().map(|e| e.0).collect::<Vec<_>>(), vec![5]);
    assert_eq!(shard1.frames().as_slice().iter().map(|e| e.0).collect::<Vec<_>>(), vec![100_000_000]);
    assert_eq!(disk.logs[&0].len(), 14);
    assert_eq!(disk.logs[&1].len(), 13);
    assert_eq!(read_payload(&disk, &shard0, 5), Some(b"early".to_vec()));
    assert_eq!(read_payload(&disk, &shard1, 100_000_000), Some(b"late".to_vec()));
}

#[test]
fn empty_router_has_no_oldest() {
    let disk = Disk::default();
    let router = EpochBridge::new(None);
    assert_eq!(oldest(&disk, &router), None);
    assert_eq!(newest(&disk, &router), None);
}

#[test]
fn router_errors() {
    let mut router = EpochBridge::new(None);
    let f = Frame::new(1, Some(vec![1u8]));
    assert_eq!(router.plan_insert(0, &f), Err(QuotickError::BadFrameTick));
    assert_eq!(router.commit_insert(0, 1, 10), Err(QuotickError::BadFrameTick));
    assert!(router.load_epoch(Epoch::new(3, None, 0)).is_none());
    assert_eq!(router.plan_insert(4, &f), Err(QuotickError::Inconsistency));
    assert!(!router.needs_epoch_update(3));
    assert!(router.needs_epoch_update(4));
    assert_eq!(QuotickError::from(EpochError::FrameEmpty), QuotickError::Epoch(EpochError::FrameEmpty));
    let no_payload: Frame<Rec> = Frame::new(1, None);
    assert_eq!(no_payload.epoch(), None);
}

#[test]
fn swapping_hot_shard_flushes_the_old_one() {
    let mut router = EpochBridge::new(None);
    router.load_epoch(Epoch::new(0, None, 0));
    assert!(router.commit_insert(0, 1, 10).is_ok());
    let flushed = router.load_epoch(Epoch::new(1, None, 0)).unwrap();
    assert_eq!(flushed.0, 0);
    let shard = Epoch::new(0, Some(&flushed.1), 10);
    assert_eq!(shard.frames().as_slice(), &[(1, 10u64 << 48)]);
    assert_eq!(router.epochs(), &[0, 1]);
}

#[test]
fn epoch_index_insert_is_sorted_and_unique() {
    let mut router = EpochBridge::new(None);
    router.insert_epoch(5);
    router.insert_epoch(1);
    router.insert_epoch(3);
    router.insert_epoch(3);
    assert_eq!(router.epochs(), &[1, 3, 5]);
}

#[test]
fn epoch_ids_must_ascend() {
    assert!(is_sorted(&vec![]));
    assert!(is_sorted(&vec![0, 1, 5]));
    assert!(!is_sorted(&vec![0, 0]));
    assert!(!is_sorted(&vec![3, 1]));
    let unsorted = encode_list(&vec![3, 1]);
    assert_eq!(EpochBridge::new(Some(&unsorted)).epochs(), &[] as &[u64]);
    let sorted = encode_list(&vec![1, 3]);
    assert_eq!(EpochBridge::new(Some(&sorted)).epochs(), &[1, 3]);
}

use quotick::epoch::read_frame;
use quotick::frame::{decode_frame, encode_frame};
use quotick::snapshot::{
    decode_index, decode_list, encode_index, encode_list, flatten_index, index_from_list,
};
use quotick::{BackingFileError, EpochError, Frame, FrameIndex, FrameSetIndexIter, Tick};

struct Daily;

impl Tick for Daily {
    fn epoch(&self, time: u64) -> u64 {
        time / 86_400_000_000_000
    }
}

#[test]
fn frame_accessors() {
    let f = Frame::new(86_400_000_000_001, Some(Daily));
    assert_eq!(f.time(), 86_400_000_000_001);
    assert!(f.tick().is_some());
    assert_eq!(f.epoch(), Some(1));
    let empty: Frame<Daily> = Frame::new(5, None);
    assert!(empty.tick().is_none());
    assert_eq!(empty.epoch(), None);
}

#[test]
fn frame_bytes_are_time_tag_payload() {
    let f = Frame::new(0x0102_0304_0506_0708, Some(vec![0xaa, 0xbb]));
    assert_eq!(
        encode_frame(&f),
        vec![8, 7, 6, 5, 4, 3, 2, 1, 1, 0xaa, 0xbb]
    );
    let none: Frame<Vec<u8>> = Frame::new(1, None);
    assert_eq!(encode_frame(&none), vec![1, 0, 0, 0, 0, 0, 0, 0, 0]);
}

#[test]
fn frame_round_trip() {
    let f = Frame::new(99, Some(b"payload".to_vec()));
    let back = decode_frame(&encode_frame(&f)).unwrap();
    assert_eq!(back.time, 99);
    assert_eq!(back.tick, Some(b"payload".to_vec()));
}

#[test]
fn malformed_frames_are_rejected() {
    assert!(decode_frame(&[1, 2, 3]).is_none());
    assert!(decode_frame(&[0, 0, 0, 0, 0, 0, 0, 0, 7, 1]).is_none());
    assert!(decode_frame(&[0, 0, 0, 0, 0, 0, 0, 0, 0, 1]).is_none());
    assert!(matches!(read_frame(&[1, 2]), Err(EpochError::DecodeFailure)));
}

#[test]
fn index_keeps_keys_in_order() {
    let mut idx = FrameIndex::new();
    idx.insert(30, 3);
    idx.insert(10, 1);
    idx.insert(20, 2);
    assert_eq!(idx.as_slice(), &[(10, 1), (20, 2), (30, 3)]);
    assert_eq!(idx.get(20), Some(2));
    assert_eq!(idx.get(25), None);
    assert_eq!(idx.first(), Some((10, 1)));
    assert_eq!(idx.last(), Some((30, 3)));
    idx.insert(20, 9);
    assert_eq!(idx.get(20), Some(9));
    assert_eq!(idx.len(), 3);
}

#[test]
fn empty_index_has_no_ends() {
    let idx = FrameIndex::new();
    assert_eq!(idx.first(), None);
    assert_eq!(idx.last(), None);
    assert_eq!(idx.len(), 0);
}

#[test]
fn index_cursor_walks_in_order_and_restarts() {
    let mut idx = FrameIndex::new();
    idx.insert(2, 20);
    idx.insert(1, 10);
    for _ in 0..2 {
        let mut it = FrameSetIndexIter::new(&idx);
        assert_eq!(it.next(), Some((1, 10)));
        assert_eq!(it.next(), Some((2, 20)));
        assert_eq!(it.next(), None);
    }
}

#[test]
fn from_entries_rejects_unsorted() {
    assert!(FrameIndex::from_entries(vec![(1, 1), (1, 2)]).is_none());
    assert!(FrameIndex::from_entries(vec![(2, 1), (1, 2)]).is_none());
    assert!(FrameIndex::from_entries(vec![(1, 1), (2, 2)]).is_some());
}

#[test]
fn list_snapshot_round_trip() {
    let ids = vec![0u64, 1, 19_000, u64::MAX];
    let bytes = encode_list(&ids);
    assert_ne!(bytes, Vec::<u8>::new());
    assert_eq!(decode_list(&bytes).ok(), Some(ids));
    assert_eq!(decode_list(&encode_list(&Vec::new())).ok(), Some(Vec::new()));
}

#[test]
fn index_snapshot_round_trip() {
    let mut idx = FrameIndex::new();
    idx.insert(12, 300);
    idx.insert(10, 100);
    idx.insert(11, 200);
    let bytes = encode_index(&idx);
    let back = decode_index(&bytes).ok().unwrap();
    assert_eq!(back.as_slice(), &[(10, 100), (11, 200), (12, 300)]);
}

#[test]
fn snapshot_errors_are_told_apart() {
    assert!(matches!(
        decode_list(&[0xff, 0xff, 0xff]),
        Err(BackingFileError::InflateError(_))
    ));
    let not_a_list = miniz_oxide::deflate::compress_to_vec(&[1, 2, 3], 3);
    assert!(matches!(decode_list(&not_a_list), Err(BackingFileError::External(_))));
    let short = encode_list(&vec![5u64]);
    assert!(decode_index(&short).is_err());
    assert!(matches!(decode_index(&short), Err(BackingFileError::BadData)));
    let unsorted = encode_list(&vec![2u64, 0, 1, 0]);
    assert!(matches!(decode_index(&unsorted), Err(BackingFileError::BadData)));
}

#[test]
fn index_lays_flat_and_back() {
    let mut idx = FrameIndex::new();
    idx.insert(20, 2);
    idx.insert(10, 1);
    assert_eq!(flatten_index(&idx), vec![10, 1, 20, 2]);
    let back = index_from_list(&vec![10, 1, 20, 2]).ok().unwrap();
    assert_eq!(back.as_slice(), &[(10, 1), (20, 2)]);
    assert!(matches!(index_from_list(&vec![1, 2, 3]), Err(BackingFileError::BadData)));
    assert!(matches!(index_from_list(&vec![5, 0, 5, 1]), Err(BackingFileError::BadData)));
    assert_eq!(index_from_list(&Vec::new()).ok().unwrap().len(), 0);
}

#[test]
fn list_snapshot_is_deflated_bincode() {
    let ids = vec![1u64, 2, 3];
    let raw = bincode::serialize(&ids).unwrap();
    assert_eq!(raw.len(), 32);
    assert_eq!(&raw[..8], &[3, 0, 0, 0, 0, 0, 0, 0]);
    let snap = encode_list(&ids);
    assert_ne!(snap, raw);
    assert_eq!(miniz_oxide::inflate::decompress_to_vec(&snap).unwrap(), raw);
}

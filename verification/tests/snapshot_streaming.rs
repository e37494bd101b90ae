use exofs::snapshot::snapshot::{make_snapshot_name, Snapshot};
use exofs::snapshot::snapshot_list::SnapshotList;
use exofs::snapshot::snapshot_streaming::{
    check_written, MemStreamBlobSource, SnapshotStreamer, StreamBlobSource, StreamChunkHeader, StreamOptions, StreamWriter,
    VecStreamWriter, CHUNK_TYPE_BLOB, CHUNK_TYPE_END, CHUNK_TYPE_MANIFEST, STREAM_CHUNK_HDR_SIZE, STREAM_MAGIC,
};
use exofs::types::{BlobId, DiskOffset, EpochId, ExofsError, SnapshotId};

fn push_snap(list: &mut SnapshotList, id: u64, n_blobs: u64) {
    let root = BlobId([id as u8; 32]);
    list.register(Snapshot {
        id: SnapshotId(id),
        epoch_id: EpochId(1),
        parent_id: None,
        root_blob: root,
        created_at: 0,
        n_blobs,
        total_bytes: 0,
        flags: 0,
        blob_catalog_offset: DiskOffset(0),
        blob_catalog_size: 0,
        name: make_snapshot_name(b"stream-test"),
    })
    .unwrap();
}

#[test]
fn stream_chunk_header_size() {
    assert_eq!(core::mem::size_of::<StreamChunkHeader>(), STREAM_CHUNK_HDR_SIZE);
}

#[test]
fn stream_chunk_header_roundtrip() {
    let snap_id = SnapshotId(42);
    let bid = BlobId([0xAA; 32]);
    let mut streamer = SnapshotStreamer::new();
    let hdr = streamer.build_header(snap_id, CHUNK_TYPE_BLOB, bid, 128);
    assert!(hdr.verify().is_ok());
}

#[test]
fn stream_bad_magic_detected() {
    let snap_id = SnapshotId(1);
    let bid = BlobId([0u8; 32]);
    let mut streamer = SnapshotStreamer::new();
    let mut hdr = streamer.build_header(snap_id, CHUNK_TYPE_BLOB, bid, 0);
    hdr.magic = 0xDEAD_BEEF;
    assert!(matches!(hdr.verify(), Err(ExofsError::BadMagic)));
}

#[test]
fn stream_produces_output() {
    let mut list = SnapshotList::new_const();
    push_snap(&mut list, 1, 1);
    let mut source = MemStreamBlobSource::new();
    source.add(SnapshotId(1), b"hello kernel").unwrap();
    let mut streamer = SnapshotStreamer::new();
    let mut writer = VecStreamWriter::new();
    let result = streamer.stream(&mut list, SnapshotId(1), &source, &mut writer, StreamOptions::default()).unwrap();
    assert!(result.bytes_sent > 0);
    assert!(result.n_chunks >= 3);
}

#[test]
fn abort_stops_stream() {
    let mut streamer = SnapshotStreamer::new();
    streamer.abort();
    assert!(streamer.is_aborted());
    streamer.reset();
    assert!(!streamer.is_aborted());
}

#[test]
fn stream_layout_of_chunks() {
    let mut list = SnapshotList::new_const();
    push_snap(&mut list, 3, 1);
    let mut source = MemStreamBlobSource::new();
    let data = b"0123456789";
    let bid = source.add(SnapshotId(3), data).unwrap();
    let mut streamer = SnapshotStreamer::new();
    let mut writer = VecStreamWriter::new();
    let opts = StreamOptions { chunk_size: 4, with_manifest: true, with_end_marker: true };
    let res = streamer.stream(&mut list, SnapshotId(3), &source, &mut writer, opts).unwrap();
    assert_eq!(res.n_chunks, 3);
    assert_eq!(res.n_blobs, 1);
    let expected = (64 + 48) + (64 + 4) + (64 + 4) + (64 + 2) + 64;
    assert_eq!(writer.buf.len(), expected);
    assert_eq!(res.bytes_sent, expected as u64);
    let buf = &writer.buf;
    assert_eq!(u32::from_le_bytes([buf[0], buf[1], buf[2], buf[3]]), STREAM_MAGIC);
    assert_eq!(buf[5], CHUNK_TYPE_MANIFEST);
    let second = 64 + 48;
    assert_eq!(buf[second + 5], CHUNK_TYPE_BLOB);
    assert_eq!(&buf[second + 24..second + 56], &bid.0);
    assert_eq!(&buf[second + 64..second + 68], b"0123");
    let last = expected - 64;
    assert_eq!(buf[last + 5], CHUNK_TYPE_END);
    assert!(!list.get(SnapshotId(3)).unwrap().is_streaming());
}

#[test]
fn header_bytes_carry_checksum() {
    let mut streamer = SnapshotStreamer::new();
    let h1 = streamer.build_header(SnapshotId(1), CHUNK_TYPE_END, BlobId([0; 32]), 0);
    let h2 = streamer.build_header(SnapshotId(1), CHUNK_TYPE_END, BlobId([0; 32]), 0);
    assert_eq!(h1.seq, 0);
    assert_eq!(h2.seq, 1);
    let raw = h1.as_bytes();
    assert_eq!(raw.len(), STREAM_CHUNK_HDR_SIZE);
    assert_eq!(&raw[60..64], &h1.checksum);
    assert_eq!(h1.compute_checksum(), h1.checksum);
    let mut h3 = h1;
    h3.seq = 77;
    assert!(matches!(h3.verify(), Err(ExofsError::ChecksumMismatch)));
    h3.finalize();
    assert!(h3.verify().is_ok());
    h3.version = 2;
    assert!(matches!(h3.verify(), Err(ExofsError::InvalidArgument)));
}

#[test]
fn aborted_streamer_sends_no_blob() {
    let mut list = SnapshotList::new_const();
    push_snap(&mut list, 2, 1);
    let mut source = MemStreamBlobSource::new();
    source.add(SnapshotId(2), b"x").unwrap();
    let mut streamer = SnapshotStreamer::new();
    streamer.abort();
    let mut writer = VecStreamWriter::new();
    let res = streamer.stream(&mut list, SnapshotId(2), &source, &mut writer, StreamOptions::default()).unwrap();
    assert!(res.aborted);
    assert_eq!(res.n_blobs, 0);
    assert_eq!(res.n_chunks, 1);
}

#[test]
fn sources_and_writers() {
    let mut source = MemStreamBlobSource::new();
    let bid = source.add(SnapshotId(1), b"abc").unwrap();
    assert_eq!(source.read_blob(SnapshotId(1), bid).unwrap(), b"abc".to_vec());
    assert_eq!(source.list_blobs(SnapshotId(1)).unwrap().len(), 1);
    let mut w = VecStreamWriter::new();
    assert_eq!(w.write(b"hi").unwrap(), 2);
    assert!(w.flush().is_ok());
    assert_eq!(check_written(Ok(3), 3), Ok(3));
    assert_eq!(check_written(Ok(2), 3), Err(ExofsError::ShortWrite));
    let mut list = SnapshotList::new_const();
    let mut streamer = SnapshotStreamer::new();
    let r = streamer.stream(&mut list, SnapshotId(5), &source, &mut w, StreamOptions::default());
    assert!(matches!(r, Err(ExofsError::NotFound)));
}

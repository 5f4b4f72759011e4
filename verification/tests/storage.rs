use ctb_crypt::storage::{DownloadTally, MultipartUpload, S3Storage, UploadStep};

#[test]
fn storage_keeps_bucket_and_chunk_size() {
    let s = S3Storage::new("bucket", 10);
    assert_eq!(s.bucket_name, "bucket");
    assert_eq!(s.chunk_size, 10);
}

#[test]
fn upload_numbers_parts_from_one() {
    let mut up = MultipartUpload::new();
    assert_eq!(up.next_part(), 1);
    assert_eq!(up.after_read(Some(5)), UploadStep::SendPart { part_number: 1, len: 5 });
    up.part_sent(Some("etag-1".to_string()));
    assert_eq!(up.after_read(Some(3)), UploadStep::SendPart { part_number: 2, len: 3 });
    up.part_sent(None);
    assert_eq!(up.next_part(), 3);
    assert_eq!(
        up.parts(),
        &vec![("etag-1".to_string(), 1), (String::new(), 2)]
    );
}

#[test]
fn upload_completes_on_empty_or_failed_read() {
    let up = MultipartUpload::new();
    assert_eq!(up.after_read(Some(0)), UploadStep::Complete);
    assert_eq!(up.after_read(None), UploadStep::Complete);
    assert!(up.parts().is_empty());
}

#[test]
fn download_tally_sums_chunks() {
    let mut t = DownloadTally::new();
    assert_eq!(t.byte_count(), 0);
    t.add_chunk(7);
    t.add_chunk(5);
    assert_eq!(t.byte_count(), 12);
}

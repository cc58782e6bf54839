use zipcodec::compress::{decompress, Compression};
use zipcodec::read::ZipFileReader;
use zipcodec::write::{EntryOptions, ZipFileWriter};
use zipcodec::ZipError;

fn build_two_entry_archive() -> Vec<u8> {
    let mut writer = ZipFileWriter::new();
    let opts = EntryOptions::new(String::from("foo.txt"), Compression::Stored);
    writer.write_entry_whole(opts, b"abc").unwrap();
    let opts2 = EntryOptions::new(String::from("bar.txt"), Compression::Deflate);
    let mut stream = writer.write_entry_stream(opts2);
    stream.write(b"xyz");
    let writer = stream.close().unwrap();
    writer.close().unwrap()
}

#[test]
fn whole_write_round_trip_stored() {
    let mut writer = ZipFileWriter::new();
    let opts = EntryOptions::new(String::from("foo.txt"), Compression::Stored);
    writer.write_entry_whole(opts, b"abc").unwrap();
    let bytes = writer.close().unwrap();
    let zip = ZipFileReader::new(bytes).unwrap();
    assert_eq!(zip.entry_count(), 1);
    assert_eq!(zip.entries()[0].filename, b"foo.txt".to_vec());
    assert_eq!(zip.entries()[0].crc, crc32fast::hash(b"abc"));
    assert_eq!(zip.entries()[0].crc, 0x352441C2);
    let mut reader = zip.entry_reader(0).unwrap();
    assert_eq!(reader.read_to_end(), b"abc".to_vec());
}

#[test]
fn whole_write_round_trip_deflate() {
    let payload = b"hello world hello world hello world hello world";
    let mut writer = ZipFileWriter::new();
    let opts = EntryOptions::new(String::from("big.txt"), Compression::Deflate);
    writer.write_entry_whole(opts, payload).unwrap();
    let bytes = writer.close().unwrap();
    let zip = ZipFileReader::new(bytes).unwrap();
    let entry = &zip.entries()[0];
    assert_eq!(entry.crc, crc32fast::hash(payload));
    assert_eq!(entry.uncompressed_size as usize, payload.len());
    // the deflate codec really transformed the bytes
    assert_ne!(entry.compressed_size, entry.uncompressed_size);
    let mut reader = zip.entry_reader(0).unwrap();
    assert_eq!(reader.read_to_end(), payload.to_vec());
}

#[test]
fn streaming_matches_whole_write() {
    let payload = b"the quick brown fox jumps over the lazy dog";
    let mut whole_writer = ZipFileWriter::new();
    let opts = EntryOptions::new(String::from("a.txt"), Compression::Deflate);
    whole_writer.write_entry_whole(opts, payload).unwrap();
    let whole_bytes = whole_writer.close().unwrap();
    let whole_zip = ZipFileReader::new(whole_bytes).unwrap();
    let mut whole_reader = whole_zip.entry_reader(0).unwrap();
    let whole_payload = whole_reader.read_to_end();

    // arbitrary chunk boundaries, including empty and single-byte chunks
    let writer = ZipFileWriter::new();
    let opts = EntryOptions::new(String::from("a.txt"), Compression::Deflate);
    let mut stream = writer.write_entry_stream(opts);
    stream.write(b"");
    stream.write(&payload[0..1]);
    stream.write(&payload[1..7]);
    stream.write(b"");
    stream.write(&payload[7..]);
    let writer = stream.close().unwrap();
    let stream_bytes = writer.close().unwrap();
    let stream_zip = ZipFileReader::new(stream_bytes).unwrap();
    let mut stream_reader = stream_zip.entry_reader(0).unwrap();
    assert_eq!(stream_reader.read_to_end(), whole_payload);
    assert_eq!(whole_payload, payload.to_vec());
    assert_eq!(
        stream_zip.entries()[0].crc,
        whole_zip.entries()[0].crc,
    );
    assert_eq!(stream_zip.entries()[0].crc, crc32fast::hash(payload));
    assert!(stream_zip.entries()[0].flags.data_descriptor);
    assert!(!whole_zip.entries()[0].flags.data_descriptor);
}

#[test]
fn streaming_zero_length_payload() {
    let writer = ZipFileWriter::new();
    let opts = EntryOptions::new(String::from("empty"), Compression::Stored);
    let stream = writer.write_entry_stream(opts);
    let writer = stream.close().unwrap();
    let bytes = writer.close().unwrap();
    let zip = ZipFileReader::new(bytes).unwrap();
    assert_eq!(zip.entries()[0].uncompressed_size, 0);
    assert_eq!(zip.entries()[0].crc, crc32fast::hash(b""));
    let mut reader = zip.entry_reader(0).unwrap();
    assert_eq!(reader.read_to_end(), Vec::<u8>::new());
}

#[test]
fn two_entries_scenario() {
    let bytes = build_two_entry_archive();
    let zip = ZipFileReader::new(bytes).unwrap();
    assert_eq!(zip.entry_count(), 2);
    assert_eq!(zip.entries()[0].filename, b"foo.txt".to_vec());
    assert_eq!(zip.entries()[1].filename, b"bar.txt".to_vec());
    let mut reader0 = zip.entry_reader(0).unwrap();
    let mut reader1 = zip.entry_reader(1).unwrap();
    assert_eq!(reader0.read_to_end(), b"abc".to_vec());
    assert_eq!(reader1.read_to_end(), b"xyz".to_vec());
    assert_eq!(zip.entries()[0].crc, crc32fast::hash(b"abc"));
    assert_eq!(zip.entries()[1].crc, crc32fast::hash(b"xyz"));
}

#[test]
fn interleaved_readers_match_sequential() {
    let bytes = build_two_entry_archive();
    let zip = ZipFileReader::new(bytes).unwrap();

    let mut sequential0 = zip.entry_reader(0).unwrap();
    let full0 = sequential0.read_to_end();
    let mut sequential1 = zip.entry_reader(1).unwrap();
    let full1 = sequential1.read_to_end();

    let mut reader0 = zip.entry_reader(0).unwrap();
    let mut reader1 = zip.entry_reader(1).unwrap();
    let mut got0 = Vec::new();
    let mut got1 = Vec::new();
    got0.extend(reader0.read(1));
    got1.extend(reader1.read(2));
    got0.extend(reader0.read(1));
    got1.extend(reader1.read(1));
    got0.extend(reader0.read_to_end());
    got1.extend(reader1.read_to_end());
    assert_eq!(got0, full0);
    assert_eq!(got1, full1);
}

#[test]
fn entry_reader_out_of_bounds() {
    let bytes = build_two_entry_archive();
    let zip = ZipFileReader::new(bytes).unwrap();
    match zip.entry_reader(2) {
        Err(ZipError::EntryIndexOutOfBounds) => {},
        other => panic!("expected an out-of-bounds error, got {:?}", other.is_ok()),
    }
    assert!(zip.entry_metadata(2).is_err());
    assert!(zip.entry_metadata(1).is_ok());
}

#[test]
fn parse_twice_yields_identical_tables() {
    let bytes = build_two_entry_archive();
    let zip1 = ZipFileReader::new(bytes.clone()).unwrap();
    let zip2 = ZipFileReader::new(bytes).unwrap();
    assert_eq!(zip1.entry_count(), zip2.entry_count());
    for i in 0..zip1.entry_count() {
        let a = &zip1.entries()[i];
        let b = &zip2.entries()[i];
        assert_eq!(a.filename, b.filename);
        assert_eq!(a.compression, b.compression);
        assert_eq!(a.crc, b.crc);
        assert_eq!(a.compressed_size, b.compressed_size);
        assert_eq!(a.uncompressed_size, b.uncompressed_size);
        assert_eq!(a.offset, b.offset);
        assert_eq!(a.mod_time, b.mod_time);
        assert_eq!(a.mod_date, b.mod_date);
    }
    assert_eq!(zip1.comment(), zip2.comment());
}

fn read_u32_at(bytes: &[u8], pos: usize) -> u32 {
    bytes[pos] as u32
        + bytes[pos + 1] as u32 * 256
        + bytes[pos + 2] as u32 * 65536
        + bytes[pos + 3] as u32 * 16777216
}

#[test]
fn corrupted_compressed_size_fails_cleanly() {
    let bytes = build_two_entry_archive();
    // the central directory offset lives 16 bytes into the end record body
    let eocd = bytes.len() - 22;
    let cd = read_u32_at(&bytes, eocd + 4 + 12) as usize;
    // compressed size sits 16 bytes into the first directory header body
    let mut corrupted = bytes.clone();
    corrupted[cd + 4 + 16] = 0xFF;
    corrupted[cd + 4 + 17] = 0xFF;
    corrupted[cd + 4 + 18] = 0xFF;
    corrupted[cd + 4 + 19] = 0xFF;
    let zip = ZipFileReader::new(corrupted).unwrap();
    match zip.entry_reader(0) {
        Err(ZipError::TruncatedData) => {},
        other => panic!("expected a truncation error, got ok={}", other.is_ok()),
    }
}

#[test]
fn corrupted_offset_fails_cleanly() {
    let bytes = build_two_entry_archive();
    let eocd = bytes.len() - 22;
    let cd = read_u32_at(&bytes, eocd + 4 + 12) as usize;
    // the local header offset sits 38 bytes into the directory header body
    let mut corrupted = bytes.clone();
    corrupted[cd + 4 + 38] = 0xFF;
    corrupted[cd + 4 + 39] = 0xFF;
    corrupted[cd + 4 + 40] = 0xFF;
    corrupted[cd + 4 + 41] = 0xFF;
    let zip = ZipFileReader::new(corrupted).unwrap();
    match zip.entry_reader(0) {
        Err(ZipError::TruncatedData) => {},
        other => panic!("expected a truncation error, got ok={}", other.is_ok()),
    }
}

#[test]
fn unknown_method_tag_is_rejected() {
    assert_eq!(
        Compression::from_u16(3),
        Err(ZipError::UnsupportedCompressionMethod)
    );
    let bytes = build_two_entry_archive();
    let eocd = bytes.len() - 22;
    let cd = read_u32_at(&bytes, eocd + 4 + 12) as usize;
    // the method tag sits 6 bytes into the first directory header body
    let mut patched = bytes.clone();
    patched[cd + 4 + 6] = 3;
    patched[cd + 4 + 7] = 0;
    let zip = ZipFileReader::new(patched).unwrap();
    match zip.entry_reader(0) {
        Err(ZipError::UnsupportedCompressionMethod) => {},
        other => panic!("expected an unsupported-method error, got ok={}", other.is_ok()),
    }
}

#[test]
fn bad_deflate_stream_is_rejected() {
    // BTYPE 11 is reserved, so this can never decode
    assert_eq!(decompress(8, &[0x07]), Err(ZipError::BadCompressedData));
    let round = decompress(0, b"plain").unwrap();
    assert_eq!(round, b"plain".to_vec());
}

#[test]
fn missing_end_record_is_malformed() {
    assert_eq!(
        ZipFileReader::new(Vec::new()).err(),
        Some(ZipError::MalformedArchive)
    );
    assert_eq!(
        ZipFileReader::new(vec![0u8; 64]).err(),
        Some(ZipError::MalformedArchive)
    );
}

#[test]
fn truncated_comment_is_detected() {
    // a bare end record declaring a five-byte comment that is not there
    let mut bytes = vec![0x50, 0x4B, 0x05, 0x06];
    bytes.extend(vec![0u8; 16]);
    bytes.push(5);
    bytes.push(0);
    assert_eq!(
        ZipFileReader::new(bytes).err(),
        Some(ZipError::TruncatedData)
    );
}

#[test]
fn declared_entries_missing_is_count_mismatch() {
    // a bare end record declaring one entry at offset zero, where no
    // directory header stands
    let mut bytes = vec![0u8; 8];
    bytes.extend(vec![0x50, 0x4B, 0x05, 0x06]);
    bytes.extend(vec![0u8, 0, 0, 0]);
    bytes.push(1);
    bytes.push(0);
    bytes.push(1);
    bytes.push(0);
    bytes.extend(vec![0u8; 4]); // directory size
    bytes.extend(vec![0u8; 4]); // directory offset: zero
    bytes.extend(vec![0u8; 2]); // comment length
    assert_eq!(
        ZipFileReader::new(bytes).err(),
        Some(ZipError::EntryCountMismatch)
    );
}

#[test]
fn archive_comment_round_trip() {
    let mut writer = ZipFileWriter::new();
    let opts = EntryOptions::new(String::from("foo.txt"), Compression::Stored);
    writer.write_entry_whole(opts, b"abc").unwrap();
    writer.comment(String::from("archive notes"));
    let bytes = writer.close().unwrap();
    let zip = ZipFileReader::new(bytes).unwrap();
    assert_eq!(zip.comment(), &b"archive notes".to_vec());
    assert_eq!(zip.entry_count(), 1);
}

#[test]
fn entry_options_builders() {
    let opts = EntryOptions::new(String::from("x"), Compression::Stored)
        .extra(vec![1, 2, 3])
        .comment(String::from("note"))
        .unix_permissions(0o755);
    assert_eq!(opts.extra, vec![1, 2, 3]);
    assert_eq!(opts.comment, b"note".to_vec());
    assert_eq!(opts.unix_permissions, 0o755);
    assert!(!opts.unicode);
    let unicode_opts = EntryOptions::new(String::from("h\u{e9}llo.txt"), Compression::Stored);
    assert!(unicode_opts.unicode);
    assert_eq!(unicode_opts.filename, "h\u{e9}llo.txt".as_bytes().to_vec());
}

#[test]
fn per_entry_extra_and_comment_survive() {
    let mut writer = ZipFileWriter::new();
    let opts = EntryOptions::new(String::from("e.txt"), Compression::Stored)
        .extra(vec![9, 9])
        .comment(String::from("c"));
    writer.write_entry_whole(opts, b"data").unwrap();
    let bytes = writer.close().unwrap();
    let zip = ZipFileReader::new(bytes).unwrap();
    assert_eq!(zip.entry_count(), 1);
    let mut reader = zip.entry_reader(0).unwrap();
    assert_eq!(reader.read_to_end(), b"data".to_vec());
}

#[test]
fn dos_timestamp_packing() {
    assert_eq!(
        zipcodec::timestamp::dos_time(12, 34, 56),
        12 * 2048 + 34 * 32 + 28
    );
    assert_eq!(
        zipcodec::timestamp::dos_date(1999, 12, 31),
        (1999 - 1980) * 512 + 12 * 32 + 31
    );
}

#[test]
fn header_fields_are_little_endian() {
    // the store opens with the local file header signature, byte for byte
    let bytes = build_two_entry_archive();
    assert_eq!(&bytes[0..4], &[0x50, 0x4B, 0x03, 0x04]);
    // end record signature at its fixed place from the end
    let eocd = bytes.len() - 22;
    assert_eq!(&bytes[eocd..eocd + 4], &[0x50, 0x4B, 0x05, 0x06]);
    // entry count appears twice in the end record body
    assert_eq!(bytes[eocd + 8], 2);
    assert_eq!(bytes[eocd + 10], 2);
}

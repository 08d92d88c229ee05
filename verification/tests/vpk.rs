use l4addon_enforcer::vpk::{
    addon_info_key, extract_addon_data, extract_from_archive, external_archive_name,
    external_content, parse_vpk, root_entry_key, strip_dir_suffix, DirectoryEntry, ExtractOutcome,
    VpkError,
};

/// Appends a little-endian u32.
fn le32(out: &mut Vec<u8>, v: u32) {
    out.extend_from_slice(&v.to_le_bytes());
}

/// Appends a little-endian u16.
fn le16(out: &mut Vec<u8>, v: u16) {
    out.extend_from_slice(&v.to_le_bytes());
}

/// Appends a zero-terminated string.
fn zstr(out: &mut Vec<u8>, s: &str) {
    out.extend_from_slice(s.as_bytes());
    out.push(0);
}

/// Appends an 18-byte directory entry record.
fn entry_record(out: &mut Vec<u8>, archive_index: u16, entry_offset: u32, entry_length: u32) {
    le32(out, 0); // crc, not checked by the reader
    le16(out, 0); // preload length
    le16(out, archive_index);
    le32(out, entry_offset);
    le32(out, entry_length);
    le16(out, 0xffff); // terminator
}

/// A directory file with one root-level file `<stem>.<ext>` and the given
/// entry, the data region appended after the tree.
fn one_file_archive(
    stem: &str,
    ext: &str,
    archive_index: u16,
    entry_offset: u32,
    entry_length: u32,
    data_region: &[u8],
) -> Vec<u8> {
    let mut tree = Vec::new();
    zstr(&mut tree, ext);
    zstr(&mut tree, " "); // the root path is a single space
    zstr(&mut tree, stem);
    entry_record(&mut tree, archive_index, entry_offset, entry_length);
    zstr(&mut tree, ""); // ends the file names of this path
    zstr(&mut tree, ""); // ends the paths of this extension
    let mut out = Vec::new();
    le32(&mut out, 0x55aa1234);
    le32(&mut out, 1);
    le32(&mut out, tree.len() as u32);
    out.extend_from_slice(&tree);
    out.extend_from_slice(data_region);
    out
}

#[test]
fn root_key_for_addoninfo() {
    let key = root_entry_key(&b"addoninfo".to_vec(), &b"txt".to_vec());
    assert_eq!(key, b" /addoninfo.txt".to_vec());
    assert_eq!(addon_info_key(), b" /addoninfo.txt".to_vec());
}

#[test]
fn root_key_general_shape() {
    let key = root_entry_key(&b"pak01".to_vec(), &b"vpk".to_vec());
    assert_eq!(key, b" /pak01.vpk".to_vec());
}

#[test]
fn inline_offset_arithmetic_reads_exact_span() {
    // data region: 5 junk bytes, then the 7 content bytes at entry_offset 5
    let mut data = vec![0xEEu8; 5];
    data.extend_from_slice(b"content");
    let bytes = one_file_archive("addoninfo", "txt", 0x7fff, 5, 7, &data);
    let dir = parse_vpk(&bytes).expect("archive must parse");
    let entry = dir.find_entry(&addon_info_key()).expect("entry must exist");
    assert!(entry.is_inline());
    let content = dir.inline_content(&bytes, &entry).expect("span in bounds");
    assert_eq!(content, b"content".to_vec());
    // the span starts at header (12) + tree_size + entry_offset
    let absolute = 12 + dir.tree_size as usize + 5;
    assert_eq!(&bytes[absolute..absolute + 7], b"content");
}

#[test]
fn inline_span_past_end_is_rejected() {
    let bytes = one_file_archive("addoninfo", "txt", 0x7fff, 0, 100, b"short");
    let dir = parse_vpk(&bytes).expect("archive must parse");
    let entry = dir.find_entry(&addon_info_key()).expect("entry must exist");
    assert!(dir.inline_content(&bytes, &entry).is_none());
    assert_eq!(extract_addon_data(&bytes), Err(VpkError::Extraction));
}

#[test]
fn end_to_end_inline_extraction() {
    let data = b"addonTitle \"Sample Pack\"\naddonVersion \"2.0\"\n";
    let bytes = one_file_archive("addoninfo", "txt", 0x7fff, 0, data.len() as u32, data);
    match extract_addon_data(&bytes) {
        Ok(ExtractOutcome::Done(d)) => {
            assert_eq!(d.title, "Sample Pack");
            assert_eq!(d.version, "2.0");
            assert_eq!(d.description, "N/A");
        }
        other => panic!("expected inline extraction, got {:?}", other.is_ok()),
    }
}

#[test]
fn missing_entry_fails_extraction() {
    let data = b"addonTitle \"X\"\n";
    let bytes = one_file_archive("somethingelse", "txt", 0x7fff, 0, data.len() as u32, data);
    assert_eq!(extract_addon_data(&bytes), Err(VpkError::Extraction));
}

#[test]
fn wrong_signature_is_a_format_error() {
    let data = b"addonTitle \"X\"\n";
    let mut bytes = one_file_archive("addoninfo", "txt", 0x7fff, 0, data.len() as u32, data);
    bytes[0] = 0x35;
    assert_eq!(extract_addon_data(&bytes), Err(VpkError::Format));
}

#[test]
fn wrong_version_is_a_format_error() {
    let data = b"addonTitle \"X\"\n";
    let mut bytes = one_file_archive("addoninfo", "txt", 0x7fff, 0, data.len() as u32, data);
    bytes[4] = 2;
    assert_eq!(extract_addon_data(&bytes), Err(VpkError::Format));
}

#[test]
fn truncated_tree_is_a_format_error() {
    let data = b"addonTitle \"X\"\n";
    let bytes = one_file_archive("addoninfo", "txt", 0x7fff, 0, data.len() as u32, data);
    // cut the file inside the tree
    let cut = bytes[..20].to_vec();
    assert!(parse_vpk(&cut).is_err());
    assert_eq!(extract_addon_data(&cut), Err(VpkError::Format));
}

#[test]
fn bad_entry_terminator_is_a_format_error() {
    let mut tree = Vec::new();
    zstr(&mut tree, "txt");
    zstr(&mut tree, " ");
    zstr(&mut tree, "addoninfo");
    le32(&mut tree, 0);
    le16(&mut tree, 0);
    le16(&mut tree, 0x7fff);
    le32(&mut tree, 0);
    le32(&mut tree, 4);
    le16(&mut tree, 0xfffe); // wrong terminator
    zstr(&mut tree, "");
    zstr(&mut tree, "");
    let mut bytes = Vec::new();
    le32(&mut bytes, 0x55aa1234);
    le32(&mut bytes, 1);
    le32(&mut bytes, tree.len() as u32);
    bytes.extend_from_slice(&tree);
    assert_eq!(extract_addon_data(&bytes), Err(VpkError::Format));
}

#[test]
fn preload_bytes_are_skipped_in_the_tree() {
    // one entry carrying 3 preload bytes; content stored inline after them
    let mut tree = Vec::new();
    zstr(&mut tree, "txt");
    zstr(&mut tree, " ");
    zstr(&mut tree, "addoninfo");
    le32(&mut tree, 0);
    le16(&mut tree, 3); // preload length
    le16(&mut tree, 0x7fff);
    le32(&mut tree, 0);
    le32(&mut tree, 18);
    le16(&mut tree, 0xffff);
    tree.extend_from_slice(b"PRE"); // the preload bytes themselves
    zstr(&mut tree, "");
    zstr(&mut tree, "");
    let mut bytes = Vec::new();
    le32(&mut bytes, 0x55aa1234);
    le32(&mut bytes, 1);
    le32(&mut bytes, tree.len() as u32);
    bytes.extend_from_slice(&tree);
    bytes.extend_from_slice(b"addonTitle \"P\"\n\0\0\0");
    match extract_addon_data(&bytes) {
        Ok(ExtractOutcome::Done(d)) => assert_eq!(d.title, "P"),
        _ => panic!("expected inline extraction"),
    }
}

#[test]
fn external_entry_is_handed_back() {
    let bytes = one_file_archive("addoninfo", "txt", 1, 4, 3, b"");
    match extract_addon_data(&bytes) {
        Ok(ExtractOutcome::External(e)) => {
            assert_eq!(e.archive_index, 1);
            assert_eq!(e.entry_offset, 4);
            assert_eq!(e.entry_length, 3);
        }
        _ => panic!("expected an external entry"),
    }
}

#[test]
fn external_content_reads_span_from_numbered_archive() {
    let entry = DirectoryEntry {
        crc: 0,
        preload_length: 0,
        archive_index: 1,
        entry_offset: 4,
        entry_length: 16,
    };
    let mut archive = b"pad:".to_vec();
    archive.extend_from_slice(b"addonTitle \"E\"\n\n rest");
    assert_eq!(
        external_content(&archive, &entry),
        Some(b"addonTitle \"E\"\n\n".to_vec())
    );
    let d = extract_from_archive(&archive, &entry).expect("span in bounds");
    assert_eq!(d.title, "E");
    assert_eq!(d.version, "N/A");
    // a span past the end is rejected
    let short = b"pad".to_vec();
    assert_eq!(
        extract_from_archive(&short, &entry),
        Err(VpkError::Extraction)
    );
}

#[test]
fn numbered_archive_names() {
    assert_eq!(strip_dir_suffix(&b"pak01_dir".to_vec()), b"pak01".to_vec());
    assert_eq!(strip_dir_suffix(&b"pak01".to_vec()), b"pak01".to_vec());
    assert_eq!(strip_dir_suffix(&b"dir".to_vec()), b"dir".to_vec());
    assert_eq!(
        external_archive_name(&b"pak01".to_vec(), 1),
        b"pak01_001.vpk".to_vec()
    );
    assert_eq!(
        external_archive_name(&b"pak01".to_vec(), 42),
        b"pak01_042.vpk".to_vec()
    );
    assert_eq!(
        external_archive_name(&b"pak01".to_vec(), 1234),
        b"pak01_1234.vpk".to_vec()
    );
}

#[test]
fn duplicate_keys_last_one_wins() {
    // two paths under one extension, the same key written twice
    let mut tree = Vec::new();
    zstr(&mut tree, "txt");
    zstr(&mut tree, " ");
    zstr(&mut tree, "addoninfo");
    entry_record(&mut tree, 0x7fff, 0, 1);
    zstr(&mut tree, "addoninfo");
    entry_record(&mut tree, 0x7fff, 1, 1);
    zstr(&mut tree, "");
    zstr(&mut tree, "");
    let mut bytes = Vec::new();
    le32(&mut bytes, 0x55aa1234);
    le32(&mut bytes, 1);
    le32(&mut bytes, tree.len() as u32);
    bytes.extend_from_slice(&tree);
    bytes.extend_from_slice(b"AB");
    let dir = parse_vpk(&bytes).expect("archive must parse");
    let entry = dir.find_entry(&addon_info_key()).expect("entry must exist");
    assert_eq!(entry.entry_offset, 1);
    let content = dir.inline_content(&bytes, &entry).expect("in bounds");
    assert_eq!(content, b"B".to_vec());
}

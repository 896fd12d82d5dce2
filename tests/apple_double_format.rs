use macemu::apple_double::{is_apple_double, probe, unwrap, EntryType, UnwrapError};

fn be32(v: u32) -> Vec<u8> {
    v.to_be_bytes().to_vec()
}

fn sample(entries: &[(u32, u32, u32)]) -> Vec<u8> {
    let mut f = Vec::new();
    f.extend(be32(0x0005_1607));
    f.extend(be32(0x0002_0000));
    f.extend(vec![0u8; 16]);
    f.extend((entries.len() as u16).to_be_bytes());
    for (id, off, len) in entries {
        f.extend(be32(*id));
        f.extend(be32(*off));
        f.extend(be32(*len));
    }
    f
}

fn with_payload(mut f: Vec<u8>) -> Vec<u8> {
    f.resize(50, 0);
    f.extend(b"TEXTttxt");
    f.extend([0x01, 0x00, 0xFF, 0xFF, 0x00, 0x05]);
    f.extend(1..=16u8);
    f.extend([0xDE, 0xAD, 0xBE, 0xEF]);
    f
}

#[test]
fn recognises_magic() {
    assert!(is_apple_double(&[0x00, 0x05, 0x16, 0x07, 0x99]));
    assert!(!is_apple_double(&[0x00, 0x05, 0x16]));
    assert!(!is_apple_double(&[0x00, 0x05, 0x16, 0x08]));
    assert!(!is_apple_double(&[]));
}

#[test]
fn probe_orders_resource_then_data() {
    let header = vec![0x00, 0x05, 0x16, 0x07];
    let data = vec![1, 2, 3];
    assert_eq!(
        probe(&header, Some(data.clone())),
        Some((header.clone(), data.clone()))
    );
    assert_eq!(
        probe(&data, Some(header.clone())),
        Some((header.clone(), data.clone()))
    );
    assert_eq!(probe(&data, None), None);
    assert_eq!(probe(&data, Some(vec![9, 9, 9, 9])), None);
    assert_eq!(
        probe(&header, Some(vec![9, 9, 9, 9])),
        Some((header.clone(), vec![9, 9, 9, 9]))
    );
    assert_eq!(probe(&header, None), None);
}

#[test]
fn entry_ids_map_to_kinds() {
    assert_eq!(EntryType::from_u32(2), Some(EntryType::ResourceFork));
    assert_eq!(EntryType::from_u32(9), Some(EntryType::MacintoshFileInfo));
    assert_eq!(EntryType::from_u32(15), Some(EntryType::DirectoryID));
    assert_eq!(EntryType::from_u32(7), None);
    assert_eq!(EntryType::from_u32(0), None);
}

#[test]
fn unwrap_decodes_file() {
    let f = with_payload(sample(&[(9, 50, 30), (2, 80, 4)]));
    let file = unwrap(&f).unwrap();
    assert_eq!(file.header.entry_count, 2);
    assert_eq!(file.header._magic, 0x0005_1607);
    assert_eq!(file.header._version_number, 0x0002_0000);
    assert_eq!(file.file_info.finder_info.type_id, u32::from_be_bytes(*b"TEXT"));
    assert_eq!(file.file_info.finder_info.creator_id, u32::from_be_bytes(*b"ttxt"));
    assert_eq!(file.file_info.finder_info.flags, 0x0100);
    assert_eq!(file.file_info.finder_info.location, (-1, 5));
    assert_eq!(file.file_info.extended_info[0], 1);
    assert_eq!(file.file_info.extended_info[15], 16);
    assert_eq!(file.resource, vec![0xDE, 0xAD, 0xBE, 0xEF]);
}

#[test]
fn unwrap_without_resource_fork() {
    let f = with_payload(sample(&[(3, 0, 0), (9, 50, 30)]));
    let file = unwrap(&f).unwrap();
    assert!(file.resource.is_empty());
}

#[test]
fn unwrap_reports_errors() {
    assert_eq!(unwrap(&[0u8; 10]).err(), Some(UnwrapError::UnexpectedEnd));
    let short_table = sample(&[(9, 50, 30), (2, 80, 4)]);
    assert_eq!(
        unwrap(&short_table[..40]).err(),
        Some(UnwrapError::UnexpectedEnd)
    );
    let missing = with_payload(sample(&[(2, 80, 4)]));
    assert_eq!(unwrap(&missing).err(), Some(UnwrapError::MissingFileInfo));
    let bad_resource = with_payload(sample(&[(9, 50, 30), (2, 80, 5)]));
    assert_eq!(
        unwrap(&bad_resource).err(),
        Some(UnwrapError::ResourceOutOfRange)
    );
    let bad_info = with_payload(sample(&[(9, 60, 30)]));
    assert_eq!(unwrap(&bad_info).err(), Some(UnwrapError::UnexpectedEnd));
}

use ustar::entry::{ArchiveEntry, ArchiveError, EntryKind};
use ustar::tree::{archive_tree, walk_tree, FsTree, NodeMeta};

fn meta(name: &str, reported_size: u64) -> NodeMeta {
    NodeMeta {
        name: name.as_bytes().to_vec(),
        permission_bits: 0o777,
        owner_id: 1000,
        group_id: 1000,
        modification_time: 114514,
        reported_size,
        owner_name: b"nanoha".to_vec(),
        group_name: b"nanoha".to_vec(),
    }
}

fn size_field(block: &[u8]) -> &[u8] {
    &block[124..136]
}

fn octal_11(n: u64) -> Vec<u8> {
    let mut digits = vec![b'0'; 11];
    let mut v = n;
    for i in (0..11).rev() {
        digits[i] = b'0' + (v % 8) as u8;
        v /= 8;
    }
    digits
}

#[test]
fn empty_dir_and_small_file_scenario() {
    let tree = FsTree::Dir {
        meta: meta("d", 4096),
        children: vec![FsTree::File { meta: meta("d/f.txt", 5), content: b"hello".to_vec() }],
    };
    let bytes = archive_tree(&tree).unwrap();
    assert_eq!(bytes.len(), 2560);

    let dir_header = &bytes[0..512];
    assert_eq!(&dir_header[0..2], b"d\0");
    assert_eq!(dir_header[156], b'5');
    assert_eq!(size_field(dir_header), b"00000000000\0");

    let file_header = &bytes[512..1024];
    assert_eq!(&file_header[0..8], b"d/f.txt\0");
    assert_eq!(file_header[156], b'0');
    assert_eq!(&size_field(file_header)[0..11], octal_11(5).as_slice());
    assert_eq!(size_field(file_header)[11], 0);

    assert_eq!(&bytes[1024..1029], b"hello");
    assert!(bytes[1029..1536].iter().all(|&b| b == 0), "507 padding bytes must be zero");
    assert!(bytes[1536..2560].iter().all(|&b| b == 0), "end-of-archive marker must be zero");
}

#[test]
fn block_sized_file_gets_no_padding() {
    let content = vec![0x41u8; 512];
    let tree = FsTree::File { meta: meta("exact.bin", 512), content };
    let bytes = archive_tree(&tree).unwrap();
    assert_eq!(bytes.len(), 512 + 512 + 1024);
    assert!(bytes[512..1024].iter().all(|&b| b == 0x41));
    assert!(bytes[1024..2048].iter().all(|&b| b == 0));
}

#[test]
fn archive_length_is_block_aligned_and_ends_in_zeros() {
    let tree = FsTree::Dir {
        meta: meta("top", 0),
        children: vec![
            FsTree::File { meta: meta("top/a", 0), content: b"abc".to_vec() },
            FsTree::Dir {
                meta: meta("top/sub", 0),
                children: vec![FsTree::File {
                    meta: meta("top/sub/b", 0),
                    content: vec![7u8; 600],
                }],
            },
        ],
    };
    let bytes = archive_tree(&tree).unwrap();
    assert_eq!(bytes.len() % 512, 0);
    let n = bytes.len();
    assert!(bytes[n - 1024..].iter().all(|&b| b == 0));
}

#[test]
fn walk_is_preorder_directories_before_contents() {
    let tree = FsTree::Dir {
        meta: meta("root", 0),
        children: vec![
            FsTree::Dir {
                meta: meta("root/x", 0),
                children: vec![FsTree::File { meta: meta("root/x/f", 0), content: vec![1] }],
            },
            FsTree::File { meta: meta("root/y", 0), content: vec![2] },
        ],
    };
    let entries = walk_tree(&tree);
    let names: Vec<&[u8]> = entries.iter().map(|e| e.desc.name.as_slice()).collect();
    assert_eq!(
        names,
        vec![
            b"root".as_slice(),
            b"root/x".as_slice(),
            b"root/x/f".as_slice(),
            b"root/y".as_slice(),
        ]
    );
    assert!(matches!(entries[0].desc.kind, EntryKind::Directory));
    assert!(matches!(entries[1].desc.kind, EntryKind::Directory));
    assert!(matches!(entries[2].desc.kind, EntryKind::RegularFile));
}

#[test]
fn directory_size_is_zero_whatever_the_filesystem_reports() {
    let tree = FsTree::Dir { meta: meta("big", 123456), children: vec![] };
    let entries = walk_tree(&tree);
    assert_eq!(entries[0].desc.size, 0);
    let bytes = archive_tree(&tree).unwrap();
    assert_eq!(size_field(&bytes[0..512]), b"00000000000\0");
}

#[test]
fn overlong_name_is_an_encoding_overflow() {
    let tree = FsTree::File { meta: meta(&"n".repeat(101), 0), content: vec![] };
    assert_eq!(archive_tree(&tree), Err(ArchiveError::EncodingOverflow));
}

#[test]
fn oversized_field_is_an_encoding_overflow() {
    let mut m = meta("f", 0);
    m.owner_id = 0x200000;
    let tree = FsTree::File { meta: m, content: vec![] };
    assert_eq!(archive_tree(&tree), Err(ArchiveError::EncodingOverflow));
}

#[test]
fn empty_directory_alone() {
    let tree = FsTree::Dir { meta: meta("only", 0), children: vec![] };
    let bytes = archive_tree(&tree).unwrap();
    assert_eq!(bytes.len(), 512 + 1024);
    assert_eq!(bytes[156], b'5');
}

#[test]
fn build_archive_emits_entries_in_given_order() {
    let first = FsTree::File { meta: meta("one", 0), content: b"1".to_vec() };
    let second = FsTree::File { meta: meta("two", 0), content: b"2".to_vec() };
    let mut entries: Vec<ArchiveEntry> = walk_tree(&first);
    entries.extend(walk_tree(&second));
    let bytes = ustar::archive::build_archive(&entries).unwrap();
    assert_eq!(&bytes[0..4], b"one\0");
    assert_eq!(bytes[512], b'1');
    assert_eq!(&bytes[1024..1028], b"two\0");
    assert_eq!(bytes[1536], b'2');
}

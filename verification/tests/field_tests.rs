use ustar::entry::{generate_header, EntryKind};
use ustar::header::encode_header;
use ustar::octal::{octal, octal_bytes};

fn descriptor(name: &str, kind: EntryKind, size: u64) -> ustar::entry::EntryDescriptor {
    generate_header(
        name.as_bytes().to_vec(),
        kind,
        0o644,
        1000,
        1000,
        1700000000,
        size,
        b"user".to_vec(),
        b"group".to_vec(),
    )
}

#[test]
fn octal_left_pads_with_zeros() {
    assert_eq!(octal(8, 3), "010");
    assert_eq!(octal(0, 6), "000000");
    assert_eq!(octal(511, 3), "777");
    assert_eq!(octal(0o644, 7), "0000644");
    assert_eq!(octal(5, 0), "");
}

#[test]
fn octal_bytes_matches_octal() {
    assert_eq!(octal_bytes(13, 11), b"00000000015".to_vec());
    assert_eq!(octal_bytes(114514, 11), b"00000337522".to_vec());
}

#[test]
fn header_is_one_block_with_fields_in_place() {
    let d = descriptor("a/b.txt", EntryKind::RegularFile, 13);
    let h = encode_header(&d);
    assert_eq!(h.len(), 512);
    assert_eq!(&h[0..8], b"a/b.txt\0");
    assert!(h[8..100].iter().all(|&b| b == 0), "name field is null-padded");
    assert_eq!(&h[100..108], b"0000644\0");
    assert_eq!(&h[108..116], b"0001750\0");
    assert_eq!(&h[116..124], b"0001750\0");
    assert_eq!(&h[124..136], b"00000000015\0");
    assert_eq!(&h[136..148], b"14524770400\0");
    assert_eq!(h[156], b'0');
    assert!(h[157..257].iter().all(|&b| b == 0), "linkname is all zero");
    assert_eq!(&h[257..265], b"ustar  \0");
    assert_eq!(&h[265..269], b"user");
    assert!(h[269..297].iter().all(|&b| b == 0));
    assert_eq!(&h[297..302], b"group");
    assert!(h[302..329].iter().all(|&b| b == 0));
    assert!(h[329..512].iter().all(|&b| b == 0), "devmajor through pad are all zero");
}

#[test]
fn checksum_recomputes_over_space_filled_field() {
    let d = descriptor("check.me", EntryKind::RegularFile, 99);
    let h = encode_header(&d);
    let mut refilled = h.clone();
    for b in refilled[148..156].iter_mut() {
        *b = b' ';
    }
    let sum: u64 = refilled.iter().map(|&b| b as u64).sum();
    assert_eq!(&h[148..154], octal_bytes(sum, 6).as_slice());
    assert_eq!(h[154], b' ');
    assert_eq!(h[155], b' ');
}

#[test]
fn directory_descriptor_forces_size_zero() {
    let d = descriptor("somedir", EntryKind::Directory, 4096);
    assert_eq!(d.size, 0);
    let h = encode_header(&d);
    assert_eq!(&h[124..136], b"00000000000\0");
    assert_eq!(h[156], b'5');
}

#[test]
fn negative_timestamp_is_clamped_by_absolute_value() {
    let d = generate_header(
        b"old".to_vec(),
        EntryKind::RegularFile,
        0o644,
        0,
        0,
        -12345,
        0,
        vec![],
        vec![],
    );
    assert_eq!(d.modification_time, 12345);
}

#[test]
fn padding_completes_blocks_and_vanishes_on_boundaries() {
    assert_eq!(ustar::archive::padding_for(0), 0);
    assert_eq!(ustar::archive::padding_for(1), 511);
    assert_eq!(ustar::archive::padding_for(5), 507);
    assert_eq!(ustar::archive::padding_for(511), 1);
    assert_eq!(ustar::archive::padding_for(512), 0);
    assert_eq!(ustar::archive::padding_for(1024), 0);
    assert_eq!(ustar::archive::padding_for(1025), 511);
}

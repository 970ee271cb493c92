//! Entry descriptors: the normalized metadata record for one filesystem
//! object, the archive-level error type, and the normalization rules
//! (directories carry size 0, timestamps are clamped to non-negative by
//! taking the absolute value).

use vstd::prelude::*;

verus! {

/// Whether an entry is a regular file (typeflag `'0'`) or a directory
/// (typeflag `'5'`).
#[derive(Clone, Copy, PartialEq, Eq, Structural, Debug)]
pub enum EntryKind {
    RegularFile,
    Directory,
}

/// Why an archive could not be produced.
#[derive(Clone, Copy, PartialEq, Eq, Structural, Debug)]
pub enum ArchiveError {
    /// A path was inaccessible or its metadata could not be read.
    Filesystem,
    /// Reading an input file or writing the output sink failed.
    Io,
    /// A field value exceeds its fixed-width field's capacity.
    EncodingOverflow,
}

/// Normalized metadata for one archive entry.
pub struct EntryDescriptor {
    /// The archive entry name, used verbatim in the 100-byte name field.
    pub name: Vec<u8>,
    pub kind: EntryKind,
    pub permission_bits: u64,
    pub owner_id: u64,
    pub group_id: u64,
    /// Seconds since the epoch, already clamped to non-negative.
    pub modification_time: u64,
    /// Content byte length; always 0 for directories.
    pub size: u64,
    pub owner_name: Vec<u8>,
    pub group_name: Vec<u8>,
}

/// The mathematical model of an `EntryDescriptor`.
pub struct DescModel {
    pub name: Seq<u8>,
    pub kind: EntryKind,
    pub permission_bits: u64,
    pub owner_id: u64,
    pub group_id: u64,
    pub modification_time: u64,
    pub size: u64,
    pub owner_name: Seq<u8>,
    pub group_name: Seq<u8>,
}

impl View for EntryDescriptor {
    type V = DescModel;

    open spec fn view(&self) -> DescModel {
        DescModel {
            name: self.name@,
            kind: self.kind,
            permission_bits: self.permission_bits,
            owner_id: self.owner_id,
            group_id: self.group_id,
            modification_time: self.modification_time,
            size: self.size,
            owner_name: self.owner_name@,
            group_name: self.group_name@,
        }
    }
}

/// One entry ready for writing: its descriptor plus, for regular files, the
/// full content bytes (empty for directories).
pub struct ArchiveEntry {
    pub desc: EntryDescriptor,
    pub content: Vec<u8>,
}

/// The mathematical model of an `ArchiveEntry`.
pub struct EntryModel {
    pub desc: DescModel,
    pub content: Seq<u8>,
}

impl View for ArchiveEntry {
    type V = EntryModel;

    open spec fn view(&self) -> EntryModel {
        EntryModel { desc: self.desc@, content: self.content@ }
    }
}

/// Every numeric field fits its octal field width (7 digits for mode, uid
/// and gid; 11 digits for size and mtime) and every text field fits its
/// byte width. Violations are reported as `EncodingOverflow`.
pub open spec fn fits(d: DescModel) -> bool {
    &&& d.name.len() <= 100
    &&& d.owner_name.len() <= 32
    &&& d.group_name.len() <= 32
    &&& d.permission_bits < 0x200000
    &&& d.owner_id < 0x200000
    &&& d.group_id < 0x200000
    &&& d.size < 0x200000000
    &&& d.modification_time < 0x200000000
}

/// Internal consistency of an entry: a directory carries no content and
/// size 0; a regular file's size is exactly its content length.
pub open spec fn entry_wf(e: EntryModel) -> bool {
    &&& e.desc.kind == EntryKind::Directory ==> e.desc.size == 0 && e.content.len() == 0
    &&& e.desc.kind == EntryKind::RegularFile ==> e.content.len() == e.desc.size
}

/// The normalized timestamp: the absolute value of the filesystem-reported
/// seconds-since-epoch, so that the encoded field is never negative.
pub open spec fn clamped_time(t: i64) -> u64 {
    if t >= 0 {
        t as u64
    } else {
        (-(t as int)) as u64
    }
}

/// The normalized size: directories are forced to size 0 regardless of the
/// filesystem-reported value.
pub open spec fn normalized_size(kind: EntryKind, size: u64) -> u64 {
    if kind == EntryKind::Directory {
        0
    } else {
        size
    }
}

/// Builds the normalized descriptor for one filesystem object: the size is
/// forced to 0 for directories and the timestamp is clamped to non-negative
/// by taking its absolute value.
pub fn generate_header(
    name: Vec<u8>,
    kind: EntryKind,
    permission_bits: u64,
    owner_id: u64,
    group_id: u64,
    modification_time: i64,
    size: u64,
    owner_name: Vec<u8>,
    group_name: Vec<u8>,
) -> (d: EntryDescriptor)
    ensures
        d@ == (DescModel {
            name: name@,
            kind,
            permission_bits,
            owner_id,
            group_id,
            modification_time: clamped_time(modification_time),
            size: normalized_size(kind, size),
            owner_name: owner_name@,
            group_name: group_name@,
        }),
{
    let clamped: u64 = if modification_time >= 0 {
        modification_time as u64
    } else {
        (-(modification_time as i128)) as u64
    };
    let normalized: u64 = match kind {
        EntryKind::Directory => 0,
        EntryKind::RegularFile => size,
    };
    EntryDescriptor {
        name,
        kind,
        permission_bits,
        owner_id,
        group_id,
        modification_time: clamped,
        size: normalized,
        owner_name,
        group_name,
    }
}

/// A fresh vector holding the same bytes.
pub fn clone_bytes(v: &Vec<u8>) -> (r: Vec<u8>)
    ensures
        r@ == v@,
{
    let mut r: Vec<u8> = Vec::new();
    let mut i: usize = 0;
    while i < v.len()
        invariant
            i <= v@.len(),
            r@ == v@.take(i as int),
        decreases v@.len() - i,
    {
        r.push(v[i]);
        proof {
            assert(v@.take(i as int).push(v@[i as int]) =~= v@.take(i + 1));
        }
        i = i + 1;
    }
    proof {
        assert(v@.take(v@.len() as int) =~= v@);
    }
    r
}

/// Runtime check for `fits`: reports whether every field of the descriptor
/// fits its fixed-width field.
pub fn descriptor_fits(d: &EntryDescriptor) -> (r: bool)
    ensures
        r == fits(d@),
{
    d.name.len() <= 100 && d.owner_name.len() <= 32 && d.group_name.len() <= 32
        && d.permission_bits < 0x200000 && d.owner_id < 0x200000 && d.group_id < 0x200000
        && d.size < 0x200000000 && d.modification_time < 0x200000000
}

} // verus!

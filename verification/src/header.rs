//! The 512-byte header block: field layout, checksum, and the encoder that
//! serializes one `EntryDescriptor` into its block.
//!
//! Layout (offset, width): name (0, 100, null-padded text); mode (100, 8),
//! uid (108, 8), gid (116, 8) as 7 octal digits plus a null; size (124, 12)
//! and mtime (136, 12) as 11 octal digits plus a null; checksum (148, 8);
//! typeflag (156, 1); linkname (157, 100, zero); magic+version (257, 8,
//! `"ustar  \0"`); uname (265, 32) and gname (297, 32, zero-padded text);
//! devmajor (329, 8), devminor (337, 8), prefix (345, 155), pad (500, 12),
//! all zero.
//!
//! The checksum field is first filled with eight ASCII spaces; the unsigned
//! sum of all 512 bytes is then encoded as exactly 6 octal digits written to
//! bytes 148..154. Bytes 154 and 155 keep the space fill and are not
//! overwritten.

use vstd::prelude::*;

use crate::entry::{DescModel, EntryDescriptor, EntryKind, fits};
use crate::octal::{lemma_octal_seq_len, octal_bytes, octal_seq};

verus! {

broadcast use lemma_octal_seq_len;

/// `n` zero bytes.
pub open spec fn zeros(n: nat) -> Seq<u8> {
    Seq::new(n, |i: int| 0u8)
}

/// `n` ASCII space bytes.
pub open spec fn spaces(n: nat) -> Seq<u8> {
    Seq::new(n, |i: int| 32u8)
}

/// `s` extended with zero bytes to exactly `w` bytes (text fields are
/// null-padded to their width).
pub open spec fn zero_ext(s: Seq<u8>, w: nat) -> Seq<u8> {
    Seq::new(w, |i: int| if i < s.len() { s[i] } else { 0u8 })
}

/// A numeric field: `digits` octal digits followed by one null byte.
pub open spec fn octal_field(n: nat, digits: nat) -> Seq<u8> {
    octal_seq(n, digits) + seq![0u8]
}

/// The magic and version field: the literal `"ustar  \0"`.
pub open spec fn magic() -> Seq<u8> {
    seq![117u8, 115u8, 116u8, 97u8, 114u8, 32u8, 32u8, 0u8]
}

/// The typeflag byte: `'0'` for a regular file, `'5'` for a directory.
pub open spec fn typeflag_byte(kind: EntryKind) -> u8 {
    match kind {
        EntryKind::RegularFile => 48u8,
        EntryKind::Directory => 53u8,
    }
}

/// The header block before the checksum is written: every field in place
/// and the checksum field filled with eight spaces.
pub open spec fn header_pre(d: DescModel) -> Seq<u8> {
    zero_ext(d.name, 100) + octal_field(d.permission_bits as nat, 7) + octal_field(
        d.owner_id as nat,
        7,
    ) + octal_field(d.group_id as nat, 7) + octal_field(d.size as nat, 11) + octal_field(
        d.modification_time as nat,
        11,
    ) + spaces(8) + seq![typeflag_byte(d.kind)] + zeros(100) + magic() + zero_ext(
        d.owner_name,
        32,
    ) + zero_ext(d.group_name, 32) + zeros(8) + zeros(8) + zeros(155) + zeros(12)
}

/// The unsigned sum of all bytes of `s`.
pub open spec fn byte_sum(s: Seq<u8>) -> nat
    decreases s.len(),
{
    if s.len() == 0 {
        0
    } else {
        (byte_sum(s.drop_last()) + s.last()) as nat
    }
}

/// The header checksum: the byte sum of the block with the checksum field
/// space-filled.
pub open spec fn header_checksum(d: DescModel) -> nat {
    byte_sum(header_pre(d))
}

/// The finished header block: the space-filled block with bytes 148..154
/// overwritten by the checksum's 6 octal digits. Bytes 154 and 155 keep
/// their space fill.
pub open spec fn header_bytes(d: DescModel) -> Seq<u8> {
    header_pre(d).subrange(0, 148) + octal_seq(header_checksum(d), 6) + header_pre(d).subrange(
        154,
        512,
    )
}

/// `h` with its whole checksum field (bytes 148..156) replaced by spaces,
/// as an archive reader would refill it before recomputing the sum.
pub open spec fn space_filled(h: Seq<u8>) -> Seq<u8> {
    h.subrange(0, 148) + spaces(8) + h.subrange(156, h.len() as int)
}

pub proof fn lemma_header_pre_len(d: DescModel)
    ensures
        header_pre(d).len() == 512,
{
}

/// Appends `n` zero bytes.
pub(crate) fn push_zeros(v: &mut Vec<u8>, n: usize)
    ensures
        final(v)@ == old(v)@ + zeros(n as nat),
{
    let ghost orig = v@;
    let mut i: usize = 0;
    while i < n
        invariant
            i <= n,
            v@ == orig + zeros(i as nat),
        decreases n - i,
    {
        v.push(0u8);
        proof {
            assert(orig + zeros(i as nat) + seq![0u8] =~= orig + zeros((i + 1) as nat));
        }
        i = i + 1;
    }
}

/// Appends `n` ASCII space bytes.
fn push_spaces(v: &mut Vec<u8>, n: usize)
    ensures
        final(v)@ == old(v)@ + spaces(n as nat),
{
    let ghost orig = v@;
    let mut i: usize = 0;
    while i < n
        invariant
            i <= n,
            v@ == orig + spaces(i as nat),
        decreases n - i,
    {
        v.push(32u8);
        proof {
            assert(orig + spaces(i as nat) + seq![32u8] =~= orig + spaces((i + 1) as nat));
        }
        i = i + 1;
    }
}

/// Appends a text field: the bytes of `s` followed by zero bytes up to
/// exactly `w` bytes.
fn push_text(v: &mut Vec<u8>, s: &Vec<u8>, w: usize)
    requires
        s@.len() <= w,
    ensures
        final(v)@ == old(v)@ + zero_ext(s@, w as nat),
{
    let ghost orig = v@;
    let mut i: usize = 0;
    while i < w
        invariant
            i <= w,
            s@.len() <= w,
            v@ == orig + zero_ext(s@, i as nat),
        decreases w - i,
    {
        let b: u8 = if i < s.len() {
            s[i]
        } else {
            0u8
        };
        v.push(b);
        proof {
            assert(orig + zero_ext(s@, i as nat) + seq![b] =~= orig + zero_ext(
                s@,
                (i + 1) as nat,
            ));
        }
        i = i + 1;
    }
}

/// Appends a numeric field: `digits` octal digits of `n` and a null byte.
fn push_octal(v: &mut Vec<u8>, n: u64, digits: usize)
    ensures
        final(v)@ == old(v)@ + octal_field(n as nat, digits as nat),
{
    let mut field = octal_bytes(n, digits);
    v.append(&mut field);
    v.push(0u8);
    proof {
        assert(old(v)@ + octal_seq(n as nat, digits as nat) + seq![0u8] =~= old(v)@ + octal_field(
            n as nat,
            digits as nat,
        ));
    }
}

/// Appends the magic and version field `"ustar  \0"`.
fn push_magic(v: &mut Vec<u8>)
    ensures
        final(v)@ == old(v)@ + magic(),
{
    v.push(117u8);
    v.push(115u8);
    v.push(116u8);
    v.push(97u8);
    v.push(114u8);
    v.push(32u8);
    v.push(32u8);
    v.push(0u8);
    proof {
        assert(v@ =~= old(v)@ + magic());
    }
}

/// The unsigned sum of all bytes of `v`.
fn sum_bytes(v: &Vec<u8>) -> (sum: u64)
    requires
        v@.len() <= 65536,
    ensures
        sum == byte_sum(v@),
{
    let mut sum: u64 = 0;
    let mut i: usize = 0;
    while i < v.len()
        invariant
            i <= v@.len(),
            v@.len() <= 65536,
            sum == byte_sum(v@.take(i as int)),
            sum <= 255 * i,
        decreases v@.len() - i,
    {
        proof {
            assert(v@.take(i + 1).drop_last() =~= v@.take(i as int));
            assert(v@.take(i + 1).last() == v@[i as int]);
        }
        sum = sum + v[i] as u64;
        i = i + 1;
    }
    proof {
        assert(v@.take(v@.len() as int) =~= v@);
    }
    sum
}

/// Serializes one descriptor into its 512-byte header block, checksum
/// included.
pub fn encode_header(d: &EntryDescriptor) -> (r: Vec<u8>)
    requires
        fits(d@),
    ensures
        r@ == header_bytes(d@),
        r@.len() == 512,
{
    let mut v: Vec<u8> = Vec::new();
    push_text(&mut v, &d.name, 100);
    push_octal(&mut v, d.permission_bits, 7);
    push_octal(&mut v, d.owner_id, 7);
    push_octal(&mut v, d.group_id, 7);
    push_octal(&mut v, d.size, 11);
    push_octal(&mut v, d.modification_time, 11);
    push_spaces(&mut v, 8);
    let flag: u8 = match d.kind {
        EntryKind::RegularFile => 48u8,
        EntryKind::Directory => 53u8,
    };
    v.push(flag);
    push_zeros(&mut v, 100);
    push_magic(&mut v);
    push_text(&mut v, &d.owner_name, 32);
    push_text(&mut v, &d.group_name, 32);
    push_zeros(&mut v, 8);
    push_zeros(&mut v, 8);
    push_zeros(&mut v, 155);
    push_zeros(&mut v, 12);
    proof {
        assert(v@ =~= header_pre(d@));
    }
    let sum = sum_bytes(&v);
    let cs = octal_bytes(sum, 6);
    let ghost pre = header_pre(d@);
    let mut j: usize = 0;
    while j < 6
        invariant
            j <= 6,
            v@.len() == 512,
            cs@ == octal_seq(header_checksum(d@), 6),
            forall|k: int|
                0 <= k < 512 ==> v@[k] == if 148 <= k < 148 + j {
                    cs@[k - 148]
                } else {
                    pre[k]
                },
        decreases 6 - j,
    {
        let b = cs[j];
        v[148 + j] = b;
        j = j + 1;
    }
    proof {
        assert(v@ =~= header_bytes(d@));
    }
    v
}

/// Checksum round trip: over any emitted header block, refilling the
/// checksum field with spaces, summing all 512 bytes and re-encoding the
/// sum as 6 octal digits reproduces exactly bytes 148..154 of the block.
pub proof fn lemma_checksum_round_trip(d: DescModel)
    ensures
        ({
            let h = header_bytes(d);
            octal_seq(byte_sum(space_filled(h)), 6) == h.subrange(148, 154)
        }),
{
    let pre = header_pre(d);
    let h = header_bytes(d);
    assert(pre.len() == 512);
    assert(h.len() == 512);
    assert(space_filled(h) =~= pre);
    assert(h.subrange(148, 154) =~= octal_seq(byte_sum(pre), 6));
}

} // verus!

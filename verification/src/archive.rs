//! The archive byte stream: for each entry its header block, then for
//! regular files the content followed by zero padding to the next 512-byte
//! boundary, and after the last entry two all-zero 512-byte blocks as the
//! end-of-archive marker.

use vstd::prelude::*;

use crate::entry::{ArchiveEntry, ArchiveError, EntryModel, entry_wf, fits};
use crate::header::{encode_header, header_bytes, lemma_header_pre_len, push_zeros, zeros};
use crate::octal::lemma_octal_seq_len;

verus! {

broadcast use lemma_octal_seq_len;

/// The number of zero bytes that align `n` content bytes to the next
/// 512-byte boundary: `(512 - n % 512) % 512`.
pub open spec fn pad_len(n: nat) -> nat {
    (((512 - (n % 512)) % 512) as nat)
}

/// Padding is always under one block, completes the content to a multiple
/// of 512, and is zero exactly when the content is already aligned.
pub proof fn lemma_pad(n: nat)
    ensures
        pad_len(n) < 512,
        (n + pad_len(n)) % 512 == 0,
        pad_len(n) == 0 <==> n % 512 == 0,
{
    vstd::arithmetic::div_mod::lemma_fundamental_div_mod(n as int, 512);
}

/// The bytes one entry contributes: its header block, its content, and the
/// alignment padding (both empty for directories).
pub open spec fn entry_bytes(e: EntryModel) -> Seq<u8> {
    header_bytes(e.desc) + e.content + zeros(pad_len(e.content.len()))
}

/// The concatenation of the bytes of all entries, in order.
pub open spec fn entries_bytes(es: Seq<EntryModel>) -> Seq<u8>
    decreases es.len(),
{
    if es.len() == 0 {
        Seq::empty()
    } else {
        entry_bytes(es[0]) + entries_bytes(es.drop_first())
    }
}

/// The full archive: every entry's bytes followed by the 1024-byte
/// end-of-archive marker.
pub open spec fn archive_bytes(es: Seq<EntryModel>) -> Seq<u8> {
    entries_bytes(es) + zeros(1024)
}

/// The models of a vector of entries.
pub open spec fn models(s: Seq<ArchiveEntry>) -> Seq<EntryModel> {
    s.map_values(|e: ArchiveEntry| e@)
}

pub proof fn lemma_entries_bytes_push(es: Seq<EntryModel>, e: EntryModel)
    ensures
        entries_bytes(es.push(e)) == entries_bytes(es) + entry_bytes(e),
    decreases es.len(),
{
    if es.len() == 0 {
        let p = es.push(e);
        assert(p[0] == e);
        assert(p.drop_first() =~= Seq::<EntryModel>::empty());
        assert(entries_bytes(p) == entry_bytes(e) + entries_bytes(Seq::<EntryModel>::empty()));
        assert(entries_bytes(p) =~= entries_bytes(es) + entry_bytes(e));
    } else {
        assert(es.push(e).drop_first() =~= es.drop_first().push(e));
        lemma_entries_bytes_push(es.drop_first(), e);
        assert(es.push(e)[0] == es[0]);
        assert(entries_bytes(es.push(e)) =~= entries_bytes(es) + entry_bytes(e));
    }
}

pub proof fn lemma_entry_bytes_align(e: EntryModel)
    ensures
        entry_bytes(e).len() >= 512,
        entry_bytes(e).len() % 512 == 0,
{
    lemma_header_pre_len(e.desc);
    lemma_pad(e.content.len());
    assert(header_bytes(e.desc).len() == 512);
    let n = e.content.len() + pad_len(e.content.len());
    assert(entry_bytes(e).len() == 512 + n);
    assert((512 + n) % 512 == 0) by {
        vstd::arithmetic::div_mod::lemma_add_mod_noop(512, n as int, 512);
    }
}

/// The shape of every archive: its total length is a multiple of 512, and
/// its final 1024 bytes are all zero.
pub proof fn lemma_archive_shape(es: Seq<EntryModel>)
    ensures
        archive_bytes(es).len() >= 1024,
        archive_bytes(es).len() % 512 == 0,
        forall|k: int|
            archive_bytes(es).len() - 1024 <= k < archive_bytes(es).len()
                ==> archive_bytes(es)[k] == 0,
    decreases es.len(),
{
    if es.len() == 0 {
        assert(archive_bytes(es) =~= zeros(1024));
    } else {
        let rest = es.drop_first();
        lemma_archive_shape(rest);
        lemma_entry_bytes_align(es[0]);
        assert(archive_bytes(es) =~= entry_bytes(es[0]) + archive_bytes(rest));
        let a = entry_bytes(es[0]).len() as int;
        let b = archive_bytes(rest).len() as int;
        assert((a + b) % 512 == 0) by {
            vstd::arithmetic::div_mod::lemma_add_mod_noop(a, b, 512);
        }
        assert forall|k: int|
            archive_bytes(es).len() - 1024 <= k < archive_bytes(es).len()
                implies archive_bytes(es)[k] == 0 by {
            assert(archive_bytes(es)[k] == archive_bytes(rest)[k - a]);
        }
    }
}

/// Entry `i`'s header block stands in the archive at byte offset
/// `entries_bytes(es.take(i)).len()`, and these offsets grow strictly with
/// `i`: an entry earlier in the sequence places its header block strictly
/// earlier in the byte stream.
pub proof fn lemma_header_at_offset(es: Seq<EntryModel>, i: int)
    requires
        0 <= i < es.len(),
    ensures
        ({
            let off = entries_bytes(es.take(i)).len() as int;
            &&& off + 512 <= archive_bytes(es).len()
            &&& archive_bytes(es).subrange(off, off + 512) == header_bytes(es[i].desc)
            &&& entries_bytes(es.take(i)).len() + 512 <= entries_bytes(es.take(i + 1)).len()
        }),
    decreases i,
{
    assert(es.take(i + 1) =~= es.take(i).push(es[i]));
    lemma_entries_bytes_push(es.take(i), es[i]);
    lemma_entry_bytes_align(es[i]);
    lemma_header_pre_len(es[i].desc);
    if i == 0 {
        assert(es.take(0) =~= Seq::<EntryModel>::empty());
        assert(entries_bytes(es.take(0)).len() == 0);
        assert(archive_bytes(es).subrange(0, 512) =~= header_bytes(es[0].desc));
    } else {
        let tail = es.drop_first();
        lemma_header_at_offset(tail, i - 1);
        lemma_entry_bytes_align(es[0]);
        assert(es.take(i)[0] == es[0]);
        assert(es.take(i).drop_first() =~= tail.take(i - 1));
        assert(entries_bytes(es.take(i)) == entry_bytes(es[0]) + entries_bytes(
            tail.take(i - 1),
        ));
        let e0 = entry_bytes(es[0]).len() as int;
        let offt = entries_bytes(tail.take(i - 1)).len() as int;
        assert(archive_bytes(es) =~= entry_bytes(es[0]) + archive_bytes(tail));
        assert(archive_bytes(es).subrange(e0 + offt, e0 + offt + 512) =~= archive_bytes(
            tail,
        ).subrange(offt, offt + 512));
        assert(es[i] == tail[i - 1]);
    }
}

/// The first `k` entries contribute at least `512 * k` bytes: one block
/// per header at the least.
pub proof fn lemma_entries_bytes_lower(es: Seq<EntryModel>, k: int)
    requires
        0 <= k <= es.len(),
    ensures
        entries_bytes(es.take(k)).len() >= 512 * k,
    decreases k,
{
    if k > 0 {
        lemma_entries_bytes_lower(es, k - 1);
        assert(es.take(k) =~= es.take(k - 1).push(es[k - 1]));
        lemma_entries_bytes_push(es.take(k - 1), es[k - 1]);
        lemma_entry_bytes_align(es[k - 1]);
    }
}

/// The zero bytes needed after `n` content bytes to reach the next
/// 512-byte boundary; zero when `n` is already a multiple of 512.
pub fn padding_for(n: usize) -> (r: usize)
    ensures
        r == pad_len(n as nat),
        r < 512,
        (n + r) % 512 == 0,
        n % 512 == 0 ==> r == 0,
{
    proof {
        lemma_pad(n as nat);
    }
    let m: usize = n % 512;
    if m == 0 {
        0
    } else {
        512 - m
    }
}

/// Appends a copy of `src` to `out`.
fn append_bytes(out: &mut Vec<u8>, src: &Vec<u8>)
    ensures
        final(out)@ == old(out)@ + src@,
{
    let ghost orig = out@;
    let mut i: usize = 0;
    while i < src.len()
        invariant
            i <= src@.len(),
            out@ == orig + src@.take(i as int),
        decreases src@.len() - i,
    {
        out.push(src[i]);
        proof {
            assert(orig + src@.take(i as int) + seq![src@[i as int]] =~= orig + src@.take(
                i + 1,
            ));
        }
        i = i + 1;
    }
    proof {
        assert(src@.take(src@.len() as int) =~= src@);
    }
}

/// Produces the whole archive for an ordered sequence of entries: each
/// entry's header block, content and padding in the given order, then the
/// end-of-archive marker. Fails with `EncodingOverflow`, producing nothing,
/// exactly when some entry's field does not fit its fixed-width field.
pub fn build_archive(entries: &Vec<ArchiveEntry>) -> (r: Result<Vec<u8>, ArchiveError>)
    requires
        forall|i: int| 0 <= i < entries@.len() ==> entry_wf(#[trigger] entries@[i]@),
    ensures
        r is Ok <==> (forall|i: int|
            0 <= i < entries@.len() ==> fits(#[trigger] entries@[i]@.desc)),
        r is Ok ==> r->Ok_0@ == archive_bytes(models(entries@)),
        r is Ok ==> r->Ok_0@.len() >= 1024,
        r is Ok ==> r->Ok_0@.len() % 512 == 0,
        r is Ok ==> forall|k: int|
            r->Ok_0@.len() - 1024 <= k < r->Ok_0@.len() ==> r->Ok_0@[k] == 0,
        r is Err ==> r->Err_0 == ArchiveError::EncodingOverflow,
{
    let mut i: usize = 0;
    while i < entries.len()
        invariant
            i <= entries@.len(),
            forall|j: int| 0 <= j < i ==> fits(#[trigger] entries@[j]@.desc),
        decreases entries@.len() - i,
    {
        if !crate::entry::descriptor_fits(&entries[i].desc) {
            proof {
                assert(!fits(entries@[i as int]@.desc));
            }
            return Err(ArchiveError::EncodingOverflow);
        }
        i = i + 1;
    }
    let ghost ms = models(entries@);
    let mut out: Vec<u8> = Vec::new();
    let mut i: usize = 0;
    while i < entries.len()
        invariant
            i <= entries@.len(),
            ms == models(entries@),
            forall|j: int| 0 <= j < entries@.len() ==> fits(#[trigger] entries@[j]@.desc),
            out@ == entries_bytes(ms.take(i as int)),
        decreases entries@.len() - i,
    {
        let e = &entries[i];
        proof {
            assert(fits(entries@[i as int]@.desc));
            assert(e.desc@ == entries@[i as int]@.desc);
        }
        let mut h = encode_header(&e.desc);
        out.append(&mut h);
        append_bytes(&mut out, &e.content);
        let p = padding_for(e.content.len());
        push_zeros(&mut out, p);
        proof {
            assert(ms.take(i + 1) =~= ms.take(i as int).push(entries@[i as int]@));
            lemma_entries_bytes_push(ms.take(i as int), entries@[i as int]@);
            assert(out@ =~= entries_bytes(ms.take(i as int)) + entry_bytes(
                entries@[i as int]@,
            ));
        }
        i = i + 1;
    }
    push_zeros(&mut out, 1024);
    proof {
        assert(ms.take(entries@.len() as int) =~= ms);
        lemma_archive_shape(ms);
    }
    Ok(out)
}

} // verus!

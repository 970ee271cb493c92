//! An in-memory filesystem subtree and its pre-order walk: a directory's
//! entry is produced before any entry of its contents, siblings in the
//! order the tree holds them. `archive_tree` turns a whole subtree into
//! the finished archive byte stream.

use vstd::prelude::*;

use crate::archive::{
    archive_bytes, build_archive, entries_bytes, lemma_entries_bytes_lower, lemma_header_at_offset,
    models,
};
use crate::entry::{
    ArchiveEntry, ArchiveError, DescModel, EntryKind, EntryModel, clamped_time, clone_bytes,
    entry_wf, fits, generate_header,
};
use crate::header::header_bytes;

verus! {

/// Filesystem-reported metadata for one node, before normalization. The
/// name is the full archive entry name (the path from the walk root).
pub struct NodeMeta {
    pub name: Vec<u8>,
    pub permission_bits: u64,
    pub owner_id: u64,
    pub group_id: u64,
    /// Raw seconds since the epoch; may be negative.
    pub modification_time: i64,
    /// The size the filesystem reports for the object itself. Directories
    /// encode size 0 whatever this value is; for regular files the actual
    /// content length is used instead.
    pub reported_size: u64,
    pub owner_name: Vec<u8>,
    pub group_name: Vec<u8>,
}

/// A subtree: a regular file with its full content, or a directory with
/// its children in enumeration order.
pub enum FsTree {
    File { meta: NodeMeta, content: Vec<u8> },
    Dir { meta: NodeMeta, children: Vec<FsTree> },
}

/// The normalized entry a regular-file node produces.
pub open spec fn file_entry(meta: NodeMeta, content: Vec<u8>) -> EntryModel {
    EntryModel {
        desc: DescModel {
            name: meta.name@,
            kind: EntryKind::RegularFile,
            permission_bits: meta.permission_bits,
            owner_id: meta.owner_id,
            group_id: meta.group_id,
            modification_time: clamped_time(meta.modification_time),
            size: content@.len() as u64,
            owner_name: meta.owner_name@,
            group_name: meta.group_name@,
        },
        content: content@,
    }
}

/// The normalized entry a directory node produces: size 0, no content.
pub open spec fn dir_entry(meta: NodeMeta) -> EntryModel {
    EntryModel {
        desc: DescModel {
            name: meta.name@,
            kind: EntryKind::Directory,
            permission_bits: meta.permission_bits,
            owner_id: meta.owner_id,
            group_id: meta.group_id,
            modification_time: clamped_time(meta.modification_time),
            size: 0,
            owner_name: meta.owner_name@,
            group_name: meta.group_name@,
        },
        content: Seq::empty(),
    }
}

/// The pre-order listing of a subtree: the node's own entry first, then
/// the listings of its children in order.
pub open spec fn preorder(t: FsTree) -> Seq<EntryModel>
    decreases t, 0int,
{
    match t {
        FsTree::File { meta, content } => seq![file_entry(meta, content)],
        FsTree::Dir { meta, children } => seq![dir_entry(meta)] + preorder_from(children, 0),
    }
}

/// The concatenated pre-order listings of `ts[i..]`.
pub open spec fn preorder_from(ts: Vec<FsTree>, i: int) -> Seq<EntryModel>
    decreases ts, ts.len() - i,
{
    if i < 0 || i >= ts.len() {
        Seq::empty()
    } else {
        preorder(ts[i]) + preorder_from(ts, i + 1)
    }
}

/// Every entry a walk produces is internally consistent: directories carry
/// size 0 and no content, files carry exactly their content's length.
pub proof fn lemma_preorder_wf(t: FsTree)
    ensures
        forall|i: int| 0 <= i < preorder(t).len() ==> entry_wf(#[trigger] preorder(t)[i]),
    decreases t, 0int,
{
    match t {
        FsTree::File { meta, content } => {
            assert(content.len() == content@.len());
            assert(preorder(t) == seq![file_entry(meta, content)]);
            assert(entry_wf(file_entry(meta, content)));
            assert(preorder(t)[0] == file_entry(meta, content));
        }
        FsTree::Dir { meta, children } => {
            lemma_preorder_from_wf(children, 0);
            let head = dir_entry(meta);
            assert(entry_wf(head));
            assert forall|i: int| 0 <= i < preorder(t).len() implies entry_wf(
                #[trigger] preorder(t)[i],
            ) by {
                if i == 0 {
                    assert(preorder(t)[0] == head);
                } else {
                    assert(preorder(t)[i] == preorder_from(children, 0)[i - 1]);
                }
            }
        }
    }
}

pub proof fn lemma_preorder_from_wf(ts: Vec<FsTree>, i: int)
    ensures
        forall|k: int|
            0 <= k < preorder_from(ts, i).len() ==> entry_wf(#[trigger] preorder_from(ts, i)[k]),
    decreases ts, ts.len() - i,
{
    if 0 <= i < ts.len() {
        lemma_preorder_wf(ts[i]);
        lemma_preorder_from_wf(ts, i + 1);
        let head = preorder(ts[i]);
        assert forall|k: int| 0 <= k < preorder_from(ts, i).len() implies entry_wf(
            #[trigger] preorder_from(ts, i)[k],
        ) by {
            if k < head.len() {
                assert(preorder_from(ts, i)[k] == head[k]);
            } else {
                assert(preorder_from(ts, i)[k] == preorder_from(ts, i + 1)[k - head.len()]);
            }
        }
    }
}

/// Flattens a subtree into its pre-order sequence of archive entries,
/// normalizing each node's metadata along the way.
#[verifier::loop_isolation(false)]
pub fn walk_tree(t: &FsTree) -> (r: Vec<ArchiveEntry>)
    ensures
        models(r@) == preorder(*t),
    decreases *t,
{
    let mut r: Vec<ArchiveEntry> = Vec::new();
    match t {
        FsTree::File { meta, content } => {
            let size: u64 = content.len() as u64;
            let d = generate_header(
                clone_bytes(&meta.name),
                EntryKind::RegularFile,
                meta.permission_bits,
                meta.owner_id,
                meta.group_id,
                meta.modification_time,
                size,
                clone_bytes(&meta.owner_name),
                clone_bytes(&meta.group_name),
            );
            r.push(ArchiveEntry { desc: d, content: clone_bytes(content) });
            proof {
                assert(models(r@) =~= preorder(*t));
            }
        }
        FsTree::Dir { meta, children } => {
            let d = generate_header(
                clone_bytes(&meta.name),
                EntryKind::Directory,
                meta.permission_bits,
                meta.owner_id,
                meta.group_id,
                meta.modification_time,
                meta.reported_size,
                clone_bytes(&meta.owner_name),
                clone_bytes(&meta.group_name),
            );
            let empty: Vec<u8> = Vec::new();
            r.push(ArchiveEntry { desc: d, content: empty });
            proof {
                assert(models(r@) =~= seq![dir_entry(*meta)]);
            }
            let mut i: usize = 0;
            while i < children.len()
                invariant
                    i <= children@.len(),
                    models(r@) + preorder_from(*children, i as int) == preorder(*t),
                decreases children@.len() - i,
            {
                let ghost before = models(r@);
                let mut sub = walk_tree(&children[i]);
                r.append(&mut sub);
                proof {
                    assert(models(r@) =~= before + preorder((*children)[i as int]));
                    assert(before + preorder((*children)[i as int]) + preorder_from(
                        *children,
                        i + 1,
                    ) =~= before + preorder_from(*children, i as int));
                }
                i = i + 1;
            }
            proof {
                assert(models(r@) + preorder_from(*children, children@.len() as int) =~= models(
                    r@,
                ));
            }
        }
    }
    r
}

/// The number of entries the children `ts[i..j]` contribute to a listing.
pub open spec fn preorder_len_between(ts: Vec<FsTree>, i: int, j: int) -> int
    decreases ts, j - i,
{
    if i < 0 || i >= j || j > ts.len() {
        0
    } else {
        preorder(ts[i]).len() + preorder_len_between(ts, i + 1, j)
    }
}

/// Inside the listing of `ts[i..]`, child `j`'s whole listing stands as a
/// contiguous block at offset `preorder_len_between(ts, i, j)`.
pub proof fn lemma_preorder_from_offset(ts: Vec<FsTree>, i: int, j: int)
    requires
        0 <= i <= j < ts.len(),
    ensures
        0 <= preorder_len_between(ts, i, j),
        preorder_len_between(ts, i, j) + preorder(ts[j]).len() <= preorder_from(ts, i).len(),
        preorder_from(ts, i).subrange(
            preorder_len_between(ts, i, j),
            preorder_len_between(ts, i, j) + preorder(ts[j]).len(),
        ) == preorder(ts[j]),
    decreases j - i,
{
    let q = preorder(ts[j]);
    if i == j {
        assert(preorder_from(ts, i).subrange(0, q.len() as int) =~= q);
    } else {
        lemma_preorder_from_offset(ts, i + 1, j);
        let head = preorder(ts[i]).len() as int;
        let off = preorder_len_between(ts, i + 1, j);
        assert(preorder_len_between(ts, i, j) == head + off);
        assert(preorder_from(ts, i).subrange(head + off, head + off + q.len()) =~= preorder_from(
            ts,
            i + 1,
        ).subrange(off, off + q.len()));
    }
}

/// Pre-order puts a directory strictly before its contents: the directory's
/// own entry stands at index 0 of its listing, and the whole listing of its
/// child `j` stands as a contiguous block at offset
/// `1 + preorder_len_between(children, 0, j)`, which is at least 1. Since
/// the archive emits one header block per entry in listing order, the
/// directory's header block precedes every child's in the output.
pub proof fn lemma_preorder_parent_first(meta: NodeMeta, children: Vec<FsTree>, j: int)
    requires
        0 <= j < children.len(),
    ensures
        preorder(FsTree::Dir { meta, children })[0] == dir_entry(meta),
        1 <= 1 + preorder_len_between(children, 0, j),
        1 + preorder_len_between(children, 0, j) + preorder(children[j]).len() <= preorder(
            FsTree::Dir { meta, children },
        ).len(),
        preorder(FsTree::Dir { meta, children }).subrange(
            1 + preorder_len_between(children, 0, j),
            1 + preorder_len_between(children, 0, j) + preorder(children[j]).len(),
        ) == preorder(children[j]),
{
    let p = preorder(FsTree::Dir { meta, children });
    let pf = preorder_from(children, 0);
    assert(p == seq![dir_entry(meta)] + pf);
    lemma_preorder_from_offset(children, 0, j);
    let q = preorder(children[j]);
    let off = preorder_len_between(children, 0, j);
    assert(p.subrange(1 + off, 1 + off + q.len()) =~= pf.subrange(off, off + q.len()));
    assert(p[0] == dir_entry(meta));
}

/// Every subtree lists at least its own entry.
pub proof fn lemma_preorder_nonempty(t: FsTree)
    ensures
        preorder(t).len() >= 1,
{
    match t {
        FsTree::File { meta, content } => {
            assert(preorder(t) == seq![file_entry(meta, content)]);
        }
        FsTree::Dir { meta, children } => {
            assert(preorder(t) == seq![dir_entry(meta)] + preorder_from(children, 0));
        }
    }
}

/// Pre-order, in bytes: in the archive of a directory subtree, the
/// directory's own header block occupies bytes 0..512, while the header
/// block of child `j`'s own entry begins at byte offset 512 or later — a
/// directory's header block stands strictly before every header block of
/// its contents.
pub proof fn lemma_dir_block_precedes_child_blocks(meta: NodeMeta, children: Vec<FsTree>, j: int)
    requires
        0 <= j < children.len(),
    ensures
        ({
            let es = preorder(FsTree::Dir { meta, children });
            let a = archive_bytes(es);
            let child_index = 1 + preorder_len_between(children, 0, j);
            let child_off = entries_bytes(es.take(child_index)).len() as int;
            &&& a.subrange(0, 512) == header_bytes(dir_entry(meta).desc)
            &&& es[child_index] == preorder(children[j])[0]
            &&& 512 <= child_off
            &&& child_off + 512 <= a.len()
            &&& a.subrange(child_off, child_off + 512) == header_bytes(
                preorder(children[j])[0].desc,
            )
        }),
{
    let es = preorder(FsTree::Dir { meta, children });
    let q = preorder(children[j]);
    lemma_preorder_parent_first(meta, children, j);
    lemma_preorder_nonempty(children[j]);
    let idx = 1 + preorder_len_between(children, 0, j);
    assert(es.subrange(idx, idx + q.len())[0] == es[idx]);
    assert(es[idx] == q[0]);
    lemma_header_at_offset(es, 0);
    assert(es.take(0) =~= Seq::<EntryModel>::empty());
    assert(es[0] == dir_entry(meta));
    lemma_header_at_offset(es, idx);
    lemma_entries_bytes_lower(es, idx);
}

/// Turns a whole subtree into the archive byte stream: the pre-order
/// entries' header blocks, content and padding in order, then the
/// end-of-archive marker. Fails with `EncodingOverflow`, producing
/// nothing, exactly when some entry's field does not fit its fixed-width
/// field.
pub fn archive_tree(t: &FsTree) -> (r: Result<Vec<u8>, ArchiveError>)
    ensures
        r is Ok <==> (forall|i: int|
            0 <= i < preorder(*t).len() ==> fits(#[trigger] preorder(*t)[i].desc)),
        r is Ok ==> r->Ok_0@ == archive_bytes(preorder(*t)),
        r is Ok ==> r->Ok_0@.len() >= 1024,
        r is Ok ==> r->Ok_0@.len() % 512 == 0,
        r is Ok ==> forall|k: int|
            r->Ok_0@.len() - 1024 <= k < r->Ok_0@.len() ==> r->Ok_0@[k] == 0,
        r is Err ==> r->Err_0 == ArchiveError::EncodingOverflow,
{
    let entries = walk_tree(t);
    let ghost p = preorder(*t);
    proof {
        lemma_preorder_wf(*t);
        assert(entries@.len() == p.len());
        assert forall|i: int| 0 <= i < entries@.len() implies entry_wf(
            #[trigger] entries@[i]@,
        ) by {
            assert(entries@[i]@ == models(entries@)[i]);
        }
    }
    let r = build_archive(&entries);
    proof {
        if forall|i: int| 0 <= i < entries@.len() ==> fits(#[trigger] entries@[i]@.desc) {
            assert forall|i: int| 0 <= i < p.len() implies fits(#[trigger] p[i].desc) by {
                assert(p[i] == models(entries@)[i]);
                assert(models(entries@)[i] == entries@[i]@);
                assert(fits(entries@[i]@.desc));
            }
        } else {
            let i = choose|i: int|
                !(0 <= i < entries@.len() ==> fits(#[trigger] entries@[i]@.desc));
            assert(entries@[i]@ == models(entries@)[i]);
            assert(0 <= i < p.len() && !fits(p[i].desc));
            assert(!(forall|k: int| 0 <= k < p.len() ==> fits(#[trigger] p[k].desc)));
        }
    }
    r
}

} // verus!

//! The synchronizer's core: make the remote namespace equal to the local
//! chunk set. Because a chunk's identifier folds in the file and chunk
//! hashes, any edit shows up as a changed identifier, and synchronization
//! reduces to a set difference by identifier.

use vstd::prelude::*;
use std::collections::HashSet;
use crate::chunker::Chunk;

verus! {

broadcast use vstd::std_specs::hash::group_hash_axioms;

/// The set of identifiers carried by a chunk sequence.
pub open spec fn ids_of(cs: Seq<Chunk>) -> Set<u64> {
    Set::new(|id: u64| exists|i: int| 0 <= i < cs.len() && cs[i].id == id)
}

/// The chunks to upload: the local chunks whose identifier the server does
/// not hold, in local order.
pub open spec fn spec_to_upload(local: Seq<Chunk>, server: Seq<Chunk>) -> Seq<Chunk> {
    local.filter(|c: Chunk| !ids_of(server).contains(c.id))
}

/// The chunks to delete: the server chunks whose identifier no local chunk
/// holds, in server order.
pub open spec fn spec_to_delete(local: Seq<Chunk>, server: Seq<Chunk>) -> Seq<Chunk> {
    server.filter(|c: Chunk| !ids_of(local).contains(c.id))
}

/// Collects a chunk sequence's identifiers into a hash set.
fn id_set(cs: &Vec<Chunk>) -> (r: HashSet<u64>)
    ensures
        r@ == ids_of(cs@),
{
    let mut out: HashSet<u64> = HashSet::new();
    let n = cs.len();
    let mut i: usize = 0;
    proof {
        assert(ids_of(cs@.take(0)) =~= Set::<u64>::empty());
    }
    while i < n
        invariant
            n == cs@.len(),
            i <= n,
            out@ == ids_of(cs@.take(i as int)),
        decreases n - i,
    {
        out.insert(cs[i].id);
        proof {
            let a = ids_of(cs@.take(i as int)).insert(cs@[i as int].id);
            let b = ids_of(cs@.take(i + 1 as int));
            assert forall|id: u64| a.contains(id) implies b.contains(id) by {
                if id == cs@[i as int].id {
                    assert(cs@.take(i + 1 as int)[i as int].id == id);
                } else {
                    let k = choose|k: int| 0 <= k < i && #[trigger] cs@.take(i as int)[k].id == id;
                    assert(cs@.take(i + 1 as int)[k].id == id);
                }
            }
            assert forall|id: u64| b.contains(id) implies a.contains(id) by {
                let k = choose|k: int| 0 <= k < i + 1 && #[trigger] cs@.take(i + 1 as int)[k].id == id;
                if k < i {
                    assert(cs@.take(i as int)[k].id == id);
                }
            }
            assert(a =~= b);
        }
        i = i + 1;
    }
    proof {
        assert(cs@.take(n as int) =~= cs@);
    }
    out
}

/// Keeps, in order, the chunks whose identifier is not in `ids`.
fn filter_missing(src: Vec<Chunk>, ids: &HashSet<u64>) -> (r: Vec<Chunk>)
    ensures
        r@ == src@.filter(|c: Chunk| !ids@.contains(c.id)),
{
    let ghost orig = src@;
    let n = src.len();
    // First reverse by popping, so that a second round of pops walks the
    // chunks in their original order, moving each exactly once.
    let mut rev: Vec<Chunk> = Vec::new();
    let mut stack = src;
    loop
        invariant
            stack@.len() + rev@.len() == orig.len(),
            stack@ == orig.take(stack@.len() as int),
            forall|k: int|
                0 <= k < rev@.len() ==> rev@[k] == orig[orig.len() - 1 - k],
        ensures
            rev@.len() == orig.len(),
            forall|k: int|
                0 <= k < rev@.len() ==> rev@[k] == orig[orig.len() - 1 - k],
        decreases stack@.len(),
    {
        match stack.pop() {
            Some(c) => {
                proof {
                    assert(orig.take(stack@.len() as int + 1).last() == orig[stack@.len() as int]);
                    assert(orig.take(stack@.len() as int + 1).drop_last() =~= orig.take(
                        stack@.len() as int,
                    ));
                }
                rev.push(c);
            },
            None => {
                break ;
            },
        }
    }
    let mut out: Vec<Chunk> = Vec::new();
    proof {
        reveal_with_fuel(Seq::<Chunk>::filter, 2);
        assert(orig.take(0).filter(|c: Chunk| !ids@.contains(c.id)) =~= Seq::<Chunk>::empty());
    }
    loop
        invariant
            rev@.len() <= orig.len(),
            forall|k: int|
                0 <= k < rev@.len() ==> rev@[k] == orig[orig.len() - 1 - k],
            out@ == orig.take(orig.len() - rev@.len()).filter(|c: Chunk| !ids@.contains(c.id)),
        ensures
            out@ == orig.filter(|c: Chunk| !ids@.contains(c.id)),
        decreases rev@.len(),
    {
        let ghost i = orig.len() - rev@.len();
        let c = match rev.pop() {
            Some(c) => c,
            None => {
                proof {
                    assert(orig.take(orig.len() as int) =~= orig);
                }
                break ;
            },
        };
        proof {
            assert(c == orig[i as int]);
            assert(orig.take(i + 1).drop_last() =~= orig.take(i as int));
            assert(orig.take(i + 1).last() == orig[i as int]);
        }
        if !ids.contains(&c.id) {
            out.push(c);
            proof {
                reveal_with_fuel(Seq::<Chunk>::filter, 2);
                assert(orig.take(i + 1).filter(|c: Chunk| !ids@.contains(c.id)) == orig.take(
                    i as int,
                ).filter(|c: Chunk| !ids@.contains(c.id)).push(orig[i as int]));
                assert(orig.len() - rev@.len() == i + 1);
            }
        } else {
            proof {
                reveal_with_fuel(Seq::<Chunk>::filter, 2);
                assert(orig.take(i + 1).filter(|c: Chunk| !ids@.contains(c.id)) == orig.take(
                    i as int,
                ).filter(|c: Chunk| !ids@.contains(c.id)));
                assert(orig.len() - rev@.len() == i + 1);
            }
        }
    }
    out
}

/// A filter over a sequence whose predicate rejects every element yields the
/// empty sequence.
proof fn lemma_filter_none(s: Seq<Chunk>, p: spec_fn(Chunk) -> bool)
    requires
        forall|i: int| 0 <= i < s.len() ==> !p(s[i]),
    ensures
        s.filter(p) == Seq::<Chunk>::empty(),
    decreases s.len(),
{
    reveal_with_fuel(Seq::<Chunk>::filter, 2);
    if s.len() == 0 {
        assert(s.filter(p) =~= Seq::<Chunk>::empty());
    } else {
        assert(forall|i: int| 0 <= i < s.len() - 1 ==> s.drop_last()[i] == s[i]);
        lemma_filter_none(s.drop_last(), p);
        assert(!p(s.last()));
    }
}

/// Pushing a chunk adds exactly its identifier to the identifier set.
proof fn lemma_ids_of_push(s: Seq<Chunk>, c: Chunk)
    ensures
        ids_of(s.push(c)) =~= ids_of(s).insert(c.id),
{
    assert forall|id: u64| ids_of(s.push(c)).contains(id) implies ids_of(s).insert(
        c.id,
    ).contains(id) by {
        let k = choose|k: int| 0 <= k < s.push(c).len() && #[trigger] s.push(c)[k].id == id;
        if k < s.len() {
            assert(s[k].id == id);
        }
    }
    assert forall|id: u64| ids_of(s).insert(c.id).contains(id) implies ids_of(
        s.push(c),
    ).contains(id) by {
        if id == c.id {
            assert(s.push(c)[s.len() as int].id == id);
        } else {
            let k = choose|k: int| 0 <= k < s.len() && #[trigger] s[k].id == id;
            assert(s.push(c)[k].id == id);
        }
    }
}

/// Filtering out the chunks whose identifier lies in `other` leaves exactly
/// the identifiers outside `other`.
proof fn lemma_ids_of_filter(s: Seq<Chunk>, other: Set<u64>)
    ensures
        ids_of(s.filter(|c: Chunk| !other.contains(c.id))) =~= ids_of(s).difference(other),
    decreases s.len(),
{
    reveal_with_fuel(Seq::<Chunk>::filter, 2);
    let p = |c: Chunk| !other.contains(c.id);
    if s.len() == 0 {
        assert(ids_of(s.filter(p)) =~= Set::<u64>::empty());
        assert(ids_of(s) =~= Set::<u64>::empty());
    } else {
        let d = s.drop_last();
        lemma_ids_of_filter(d, other);
        assert(s =~= d.push(s.last()));
        lemma_ids_of_push(d, s.last());
        if p(s.last()) {
            lemma_ids_of_push(d.filter(p), s.last());
            assert(ids_of(s.filter(p)) =~= ids_of(d.filter(p)).insert(s.last().id));
            assert(ids_of(d.filter(p)).insert(s.last().id) =~= ids_of(d).difference(
                other,
            ).insert(s.last().id));
            assert(ids_of(d).difference(other).insert(s.last().id) =~= ids_of(
                d,
            ).insert(s.last().id).difference(other));
        } else {
            assert(ids_of(s.filter(p)) =~= ids_of(d).difference(other));
            assert(ids_of(d).difference(other) =~= ids_of(d).insert(s.last().id).difference(
                other,
            ));
        }
        assert(ids_of(s) =~= ids_of(d).insert(s.last().id));
    }
}

/// Diff idempotence: when the server already holds exactly the local
/// identifiers, the diff is a zero-op — a second synchronizer pass over an
/// unchanged tree uploads and deletes nothing.
pub proof fn lemma_diff_idempotent(local: Seq<Chunk>, server: Seq<Chunk>)
    requires
        ids_of(local) == ids_of(server),
    ensures
        spec_to_upload(local, server) == Seq::<Chunk>::empty(),
        spec_to_delete(local, server) == Seq::<Chunk>::empty(),
{
    assert forall|i: int| 0 <= i < local.len() implies ids_of(server).contains(
        #[trigger] local[i].id,
    ) by {
        assert(ids_of(local).contains(local[i].id));
    }
    lemma_filter_none(local, |c: Chunk| !ids_of(server).contains(c.id));
    assert forall|i: int| 0 <= i < server.len() implies ids_of(local).contains(
        #[trigger] server[i].id,
    ) by {
        assert(ids_of(server).contains(server[i].id));
    }
    lemma_filter_none(server, |c: Chunk| !ids_of(local).contains(c.id));
}

/// Convergence: after the diff is applied — the deleted identifiers removed
/// from the server, the uploaded ones added — the remote identifier set
/// equals the local one.
pub proof fn lemma_diff_converges(local: Seq<Chunk>, server: Seq<Chunk>)
    ensures
        ids_of(server).difference(ids_of(spec_to_delete(local, server))).union(
            ids_of(spec_to_upload(local, server)),
        ) == ids_of(local),
{
    lemma_ids_of_filter(server, ids_of(local));
    lemma_ids_of_filter(local, ids_of(server));
    let s = ids_of(server);
    let l = ids_of(local);
    assert(s.difference(s.difference(l)).union(l.difference(s)) =~= l);
}

/// The action one apply pass takes, per the diff.
#[derive(Clone, Copy, PartialEq, Eq, Structural, Debug)]
pub enum ApplyAction {
    Unchanged,
    DeleteOnly,
    UploadOnly,
    UploadAndDelete,
}

/// Decides what applying a diff does: nothing when both sides are empty; a
/// single deletion-only request when only deletions exist; otherwise an
/// upload stream, with the stale paths attached to its first batch exactly
/// when there are deletions. "Changed" is everything but `Unchanged`.
pub fn plan_apply(upload_len: usize, delete_len: usize) -> (r: ApplyAction)
    ensures
        (r == ApplyAction::Unchanged) <==> (upload_len == 0 && delete_len == 0),
        (r == ApplyAction::DeleteOnly) <==> (upload_len == 0 && delete_len > 0),
        (r == ApplyAction::UploadOnly) <==> (upload_len > 0 && delete_len == 0),
        (r == ApplyAction::UploadAndDelete) <==> (upload_len > 0 && delete_len > 0),
{
    if upload_len == 0 && delete_len == 0 {
        ApplyAction::Unchanged
    } else if upload_len == 0 {
        ApplyAction::DeleteOnly
    } else if delete_len == 0 {
        ApplyAction::UploadOnly
    } else {
        ApplyAction::UploadAndDelete
    }
}

/// Computes the diff between the local and the remote chunk sets, purely by
/// identifier: upload what is local only, delete what is remote only. A
/// changed file changes all of its chunks' identifiers, so an edit becomes a
/// parallel delete-plus-upload.
pub fn tpuf_chunk_diff(local_chunks: Vec<Chunk>, server_chunks: Vec<Chunk>) -> (r: (
    Vec<Chunk>,
    Vec<Chunk>,
))
    ensures
        r.0@ == spec_to_upload(local_chunks@, server_chunks@),
        r.1@ == spec_to_delete(local_chunks@, server_chunks@),
{
    let local_ids = id_set(&local_chunks);
    let server_ids = id_set(&server_chunks);
    let to_upload = filter_missing(local_chunks, &server_ids);
    let to_delete = filter_missing(server_chunks, &local_ids);
    (to_upload, to_delete)
}

} // verus!

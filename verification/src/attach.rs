//! Comment attachment: for a captured function-like node, scan its siblings
//! under the immediate parent backwards and attach the contiguous block of
//! comment nodes whose line gaps are at most 2. The chunk's text then begins
//! at the first attached comment; the function's own line range is untouched.

use vstd::prelude::*;
use vstd::utf8::{decode_utf8, valid_utf8};
use crate::syntax::{nodes_aligned, wf_nodes, SynNode};
use crate::strutil::{lemma_valid_subrange, spec_non_continuation, str_eq, string_from_bytes, subrange_vec};

verus! {

/// The node kinds that count as comments, over all grammars.
pub open spec fn is_comment_kind(k: Seq<char>) -> bool {
    k == "comment"@ || k == "line_comment"@ || k == "block_comment"@ || k == "doc_comment"@ || k
        == "documentation_comment"@
}

/// Decides whether a node kind counts as a comment.
pub fn is_comment(kind: &str) -> (r: bool)
    ensures
        r == is_comment_kind(kind@),
{
    str_eq(kind, "comment") || str_eq(kind, "line_comment") || str_eq(kind, "block_comment")
        || str_eq(kind, "doc_comment") || str_eq(kind, "documentation_comment")
}

/// The indices of the children of node `p`, in ascending order.
pub open spec fn child_indices(ns: Seq<SynNode>, p: usize) -> Seq<int>
    decreases ns.len(),
{
    if ns.len() == 0 {
        Seq::empty()
    } else {
        child_indices(ns.drop_last(), p) + if ns.last().parent == Some(p) {
            seq![ns.len() - 1]
        } else {
            Seq::empty()
        }
    }
}

/// Every listed index is a child of `p`, the list is strictly ascending,
/// and it is complete: every child of `p` is listed.
pub proof fn lemma_child_indices_props(ns: Seq<SynNode>, p: usize)
    ensures
        forall|i: int|
            0 <= i < child_indices(ns, p).len() ==> {
                let j = #[trigger] child_indices(ns, p)[i];
                0 <= j < ns.len() && ns[j].parent == Some(p)
            },
        forall|i1: int, i2: int|
            0 <= i1 < i2 < child_indices(ns, p).len() ==> child_indices(ns, p)[i1] < child_indices(
                ns,
                p,
            )[i2],
        forall|j: int|
            0 <= j < ns.len() && (#[trigger] ns[j]).parent == Some(p) ==> child_indices(
                ns,
                p,
            ).contains(j),
    decreases ns.len(),
{
    if ns.len() == 0 {
    } else {
        let prefix = ns.drop_last();
        lemma_child_indices_props(prefix, p);
        assert(forall|j: int| 0 <= j < prefix.len() ==> prefix[j] == ns[j]);
        let cs = child_indices(ns, p);
        let cp = child_indices(prefix, p);
        assert forall|j: int|
            0 <= j < ns.len() && (#[trigger] ns[j]).parent == Some(p) implies cs.contains(j) by {
            if j < ns.len() - 1 {
                assert(cp.contains(j));
                let i = choose|i: int| 0 <= i < cp.len() && cp[i] == j;
                assert(cs[i] == j);
            } else {
                assert(cs[cs.len() - 1] == j);
            }
        }
    }
}

/// One step of the backward sibling scan, mirrored by
/// `extract_function_with_comments`: `k` is the sibling position under
/// inspection, `found` whether a comment was already attached, `start` the
/// current attachment start byte, `last_row` the start row of the last
/// attached comment (the function's own start row before any attachment).
pub open spec fn attach_scan(
    ns: Seq<SynNode>,
    sibs: Seq<int>,
    k: int,
    found: bool,
    start: int,
    last_row: int,
    func_row: int,
) -> int
    decreases k + 1,
{
    if k < 0 {
        start
    } else {
        let n = ns[sibs[k]];
        if is_comment_kind(n.kind@) && !found && func_row <= n.end_row + 2 {
            attach_scan(ns, sibs, k - 1, true, n.start_byte as int, n.start_row as int, func_row)
        } else if is_comment_kind(n.kind@) && found && last_row <= n.end_row + 2 {
            attach_scan(ns, sibs, k - 1, true, n.start_byte as int, n.start_row as int, func_row)
        } else if found {
            start
        } else {
            attach_scan(ns, sibs, k - 1, false, start, last_row, func_row)
        }
    }
}

/// The position of `func` among the children of its parent.
pub open spec fn sibling_pos(sibs: Seq<int>, func: int) -> int {
    choose|i: int| 0 <= i < sibs.len() && sibs[i] == func
}

/// Where a chunk's content starts: at the first attached leading comment, or
/// at the node itself when none is attached or the scan's answer does not
/// precede the node's end.
pub open spec fn spec_attach_start(ns: Seq<SynNode>, func: int) -> int {
    let own = ns[func].start_byte as int;
    match ns[func].parent {
        Some(p) => {
            let sibs = child_indices(ns, p);
            let pos = sibling_pos(sibs, func);
            let raw = attach_scan(
                ns,
                sibs,
                pos - 1,
                false,
                own,
                ns[func].start_row as int,
                ns[func].start_row as int,
            );
            if raw <= ns[func].end_byte as int {
                raw
            } else {
                own
            }
        },
        None => own,
    }
}

/// The scan answers either its starting byte or some inspected sibling's
/// start byte.
proof fn lemma_attach_scan_result(
    ns: Seq<SynNode>,
    sibs: Seq<int>,
    k: int,
    found: bool,
    start: int,
    last_row: int,
    func_row: int,
)
    ensures
        attach_scan(ns, sibs, k, found, start, last_row, func_row) == start || exists|m: int|
            0 <= m <= k && attach_scan(ns, sibs, k, found, start, last_row, func_row) == ns[
                #[trigger] sibs[m]
            ].start_byte as int,
    decreases k + 1,
{
    if k < 0 {
    } else {
        let n = ns[sibs[k]];
        if is_comment_kind(n.kind@) && (!found && func_row <= n.end_row + 2 || found && last_row
            <= n.end_row + 2) {
            lemma_attach_scan_result(
                ns,
                sibs,
                k - 1,
                true,
                n.start_byte as int,
                n.start_row as int,
                func_row,
            );
        } else if found {
        } else {
            lemma_attach_scan_result(ns, sibs, k - 1, false, start, last_row, func_row);
        }
    }
}

/// The scan walks a chain of attachable comments down to its first element.
proof fn lemma_attach_scan_chain(
    ns: Seq<SynNode>,
    sibs: Seq<int>,
    a: int,
    k: int,
    func_row: int,
)
    requires
        0 <= a <= k < sibs.len(),
        forall|m: int| 0 <= m < sibs.len() ==> 0 <= #[trigger] sibs[m] < ns.len(),
        forall|m: int| a <= m <= k ==> is_comment_kind(ns[#[trigger] sibs[m]].kind@),
        forall|m: int|
            a < m <= k ==> ns[#[trigger] sibs[m]].start_row <= ns[sibs[m - 1]].end_row + 2,
        a == 0 || !(is_comment_kind(ns[sibs[a - 1]].kind@) && ns[sibs[a]].start_row as int <= ns[
            sibs[a - 1]
        ].end_row + 2),
    ensures
        attach_scan(
            ns,
            sibs,
            k - 1,
            true,
            ns[sibs[k]].start_byte as int,
            ns[sibs[k]].start_row as int,
            func_row,
        ) == ns[sibs[a]].start_byte as int,
    decreases k - a,
{
    if k == a {
        if a == 0 {
        } else {
            let n = ns[sibs[a - 1]];
            assert(!(is_comment_kind(n.kind@) && ns[sibs[a]].start_row as int <= n.end_row + 2));
        }
    } else {
        let n = ns[sibs[k - 1]];
        assert(is_comment_kind(n.kind@));
        assert(ns[sibs[k]].start_row as int <= n.end_row + 2);
        lemma_attach_scan_chain(ns, sibs, a, k - 1, func_row);
    }
}

/// Comment attachment is complete and bounded: a contiguous block of
/// comment siblings directly above the function, each gap at most two
/// lines, is attached in full — the content starts at the block's first
/// comment — and the scan does not run past the block's start, so nothing
/// above an interrupting sibling or a wider gap is pulled in.
pub proof fn lemma_comment_block_attached(ns: Seq<SynNode>, func: int, a: int)
    requires
        0 <= func < ns.len(),
        ns[func].parent is Some,
        ({
            let p = ns[func].parent->Some_0;
            let sibs = child_indices(ns, p);
            let pos = sibling_pos(sibs, func);
            &&& 0 <= a < pos
            // every sibling from the block start up to the function is a comment
            &&& (forall|m: int| a <= m < pos ==> is_comment_kind(ns[#[trigger] sibs[m]].kind@))
            // the block's last comment sits within two lines of the function
            &&& ns[func].start_row as int <= ns[sibs[pos - 1]].end_row + 2
            // within the block, each comment sits within two lines of the next
            &&& (forall|m: int|
                a < m <= pos - 1 ==> ns[#[trigger] sibs[m]].start_row <= ns[sibs[m - 1]].end_row
                    + 2)
            // the block truly starts at `a`: below it sits no attachable comment
            &&& (a == 0 || !(is_comment_kind(ns[sibs[a - 1]].kind@) && ns[sibs[a]].start_row as int
                <= ns[sibs[a - 1]].end_row + 2))
            // the block's first comment precedes the function's end
            &&& ns[sibs[a]].start_byte <= ns[func].end_byte
        }),
    ensures
        ({
            let p = ns[func].parent->Some_0;
            let sibs = child_indices(ns, p);
            spec_attach_start(ns, func) == ns[sibs[a]].start_byte as int
        }),
{
    let p = ns[func].parent->Some_0;
    let sibs = child_indices(ns, p);
    let pos = sibling_pos(sibs, func);
    lemma_child_indices_props(ns, p);
    let fr = ns[func].start_row as int;
    let n = ns[sibs[pos - 1]];
    assert(is_comment_kind(n.kind@));
    assert(attach_scan(
        ns,
        sibs,
        pos - 1,
        false,
        ns[func].start_byte as int,
        fr,
        fr,
    ) == attach_scan(ns, sibs, pos - 2, true, n.start_byte as int, n.start_row as int, fr));
    lemma_attach_scan_chain(ns, sibs, a, pos - 1, fr);
}

/// Collects the indices of the children of node `p`, in ascending order.
pub fn children_of(ns: &Vec<SynNode>, p: usize) -> (r: Vec<usize>)
    ensures
        r@.map_values(|x: usize| x as int) == child_indices(ns@, p),
{
    let mut out: Vec<usize> = Vec::new();
    let n = ns.len();
    let mut i: usize = 0;
    while i < n
        invariant
            n == ns@.len(),
            i <= n,
            out@.map_values(|x: usize| x as int) == child_indices(ns@.take(i as int), p),
        decreases n - i,
    {
        let is_child = match ns[i].parent {
            Some(q) => q == p,
            None => false,
        };
        proof {
            assert(ns@.take(i + 1 as int).drop_last() =~= ns@.take(i as int));
            assert(ns@.take(i + 1 as int).last() == ns@[i as int]);
        }
        if is_child {
            out.push(i);
            proof {
                assert(out@.map_values(|x: usize| x as int) =~= child_indices(
                    ns@.take(i + 1 as int),
                    p,
                ));
            }
        } else {
            proof {
                assert(out@.map_values(|x: usize| x as int) =~= child_indices(
                    ns@.take(i + 1 as int),
                    p,
                ));
            }
        }
        i = i + 1;
    }
    proof {
        assert(ns@.take(n as int) =~= ns@);
    }
    out
}

/// Extracts a captured node's content together with its attached leading
/// comments: the source bytes from `spec_attach_start` to the node's end.
/// `None` only when those bytes are not valid UTF-8 on their own, which a
/// parse of a valid UTF-8 source does not produce.
pub fn extract_function_with_comments(ns: &Vec<SynNode>, func: usize, bytes: &[u8]) -> (r: Option<
    String,
>)
    requires
        wf_nodes(ns@, bytes@.len()),
        func < ns@.len(),
    ensures
        ({
            let start = spec_attach_start(ns@, func as int);
            let end = ns@[func as int].end_byte as int;
            // attachment only reaches backwards, so the content always
            // covers the node's own text
            &&& 0 <= start <= ns@[func as int].start_byte as int
            &&& start <= end
            &&& (r is Some <==> valid_utf8(bytes@.subrange(start, end)))
            // a parse of valid UTF-8 yields aligned nodes, and then the
            // extraction always succeeds
            &&& ((valid_utf8(bytes@) && nodes_aligned(ns@, bytes@)) ==> r is Some)
            &&& (r matches Some(s) ==> s@ == decode_utf8(bytes@.subrange(start, end)))
        }),
{
    proof {
        let fi = func as int;
        match ns@[fi].parent {
            Some(p) => {
                lemma_child_indices_props(ns@, p);
                let sibs = child_indices(ns@, p);
                let pos = sibling_pos(sibs, fi);
                let own = ns@[fi].start_byte as int;
                assert(sibs.contains(fi));
                assert(0 <= pos < sibs.len() && sibs[pos] == fi);
                lemma_attach_scan_result(
                    ns@,
                    sibs,
                    pos - 1,
                    false,
                    own,
                    ns@[fi].start_row as int,
                    ns@[fi].start_row as int,
                );
                let raw = attach_scan(
                    ns@,
                    sibs,
                    pos - 1,
                    false,
                    own,
                    ns@[fi].start_row as int,
                    ns@[fi].start_row as int,
                );
                if raw != own {
                    let m = choose|m: int|
                        0 <= m <= pos - 1 && raw == ns@[#[trigger] sibs[m]].start_byte as int;
                    assert(sibs[m] < sibs[pos]);
                    assert(ns@[sibs[m]].parent == ns@[fi].parent);
                    assert(ns@[sibs[m]].start_byte <= ns@[fi].start_byte);
                    if nodes_aligned(ns@, bytes@) {
                        assert(spec_non_continuation(bytes@, ns@[sibs[m]].start_byte as int));
                    }
                }
            },
            None => {},
        }
        if vstd::utf8::valid_utf8(bytes@) && nodes_aligned(ns@, bytes@) {
            let st = spec_attach_start(ns@, fi);
            assert(spec_non_continuation(bytes@, st));
            assert(spec_non_continuation(bytes@, ns@[fi].end_byte as int));
            lemma_valid_subrange(bytes@, st, ns@[fi].end_byte as int);
        }
    }
    let node_start = ns[func].start_byte;
    let node_end = ns[func].end_byte;
    let func_row = ns[func].start_row;
    let p = match ns[func].parent {
        Some(p) => p,
        None => {
            let piece = subrange_vec(bytes, node_start, node_end);
            return string_from_bytes(piece);
        },
    };
    let sibs = children_of(ns, p);
    proof {
        lemma_child_indices_props(ns@, p);
    }
    let ghost gsibs = child_indices(ns@, p);
    // Locate the node among its siblings; it is there because its parent is p.
    let mut pos: usize = 0;
    let sibs_len = sibs.len();
    let mut pos_found = false;
    let mut k: usize = 0;
    while k < sibs_len
        invariant
            sibs_len == sibs@.len(),
            k <= sibs_len,
            sibs@.map_values(|x: usize| x as int) == gsibs,
            !pos_found ==> forall|m: int| 0 <= m < k ==> gsibs[m] != func as int,
            pos_found ==> pos < sibs_len && gsibs[pos as int] == func as int,
        decreases sibs_len - k,
    {
        if !pos_found && sibs[k] == func {
            pos = k;
            pos_found = true;
        }
        k = k + 1;
    }
    proof {
        assert(gsibs.contains(func as int));
        if !pos_found {
            let i = choose|i: int| 0 <= i < gsibs.len() && gsibs[i] == func as int;
            assert(gsibs[i] != func as int);
        }
    }
    // The scan's answer is independent of which witness position is chosen,
    // because sibling indices are strictly ascending, hence distinct.
    proof {
        let w = sibling_pos(gsibs, func as int);
        assert(0 <= w < gsibs.len() && gsibs[w] == func as int);
        if w != pos as int {
            if w < pos as int {
                assert(gsibs[w] < gsibs[pos as int]);
            } else {
                assert(gsibs[pos as int] < gsibs[w]);
            }
        }
        assert(w == pos as int);
    }
    let mut start = node_start;
    let mut last_row = func_row;
    let mut found = false;
    let ghost goal = attach_scan(
        ns@,
        gsibs,
        pos as int - 1,
        false,
        node_start as int,
        func_row as int,
        func_row as int,
    );
    let mut j: usize = pos;
    let mut stopped = false;
    while j > 0 && !stopped
        invariant
            wf_nodes(ns@, bytes@.len()),
            sibs@.map_values(|x: usize| x as int) == gsibs,
            j <= sibs@.len(),
            forall|i: int|
                0 <= i < gsibs.len() ==> {
                    let x = #[trigger] gsibs[i];
                    0 <= x < ns@.len()
                },
            !stopped ==> attach_scan(
                ns@,
                gsibs,
                j as int - 1,
                found,
                start as int,
                last_row as int,
                func_row as int,
            ) == goal,
            stopped ==> start as int == goal,
            start <= bytes@.len(),
        decreases j,
    {
        j = j - 1;
        let sj = sibs[j];
        assert(gsibs[j as int] == sj as int);
        let n = &ns[sj];
        let near = if !found {
            func_row <= 2 || n.end_row >= func_row - 2
        } else {
            last_row <= 2 || n.end_row >= last_row - 2
        };
        if is_comment(n.kind.as_str()) && near {
            start = n.start_byte;
            last_row = n.start_row;
            found = true;
        } else if found {
            stopped = true;
        }
    }
    proof {
        if !stopped {
            assert(attach_scan(
                ns@,
                gsibs,
                -1,
                found,
                start as int,
                last_row as int,
                func_row as int,
            ) == start as int);
        }
        assert(start as int == goal);
    }
    let begin = if start <= node_end {
        start
    } else {
        node_start
    };
    assert(begin as int == spec_attach_start(ns@, func as int));
    let piece = subrange_vec(bytes, begin, node_end);
    string_from_bytes(piece)
}

} // verus!

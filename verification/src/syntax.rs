//! Concrete-syntax parsing. The parser, its tree and its nodes are outside
//! types; what each accessor reads from them is named, the flattening of a
//! tree into plain `SynNode` records is a defined specification function
//! mirrored by verified code, and the records are checked — ranges bounded
//! and non-empty, siblings in ascending byte order, byte ends on encoding
//! boundaries — by a verified pass. Chunking is thereby a proved function
//! of the language tag and the file bytes.

use vstd::prelude::*;
use crate::filetype::{language_for, language_of, LangTag};
use crate::strutil::{non_continuation, spec_non_continuation};

verus! {

#[verifier::external_type_specification]
#[verifier::external_body]
pub struct ExLanguage(tree_sitter::Language);

#[verifier::external_type_specification]
#[verifier::external_body]
pub struct ExParser(tree_sitter::Parser);

#[verifier::external_type_specification]
#[verifier::external_body]
pub struct ExTree(tree_sitter::Tree);

#[verifier::external_type_specification]
#[verifier::external_body]
pub struct ExNode<'a>(tree_sitter::Node<'a>);

/// One syntax node, flattened to plain values. Nodes are listed in document
/// (pre-)order, so for one parent the children appear by ascending index.
pub struct SynNode {
    /// The grammar's name for the node's kind.
    pub kind: String,
    /// Byte range of the node in the source, `start_byte < end_byte`.
    pub start_byte: usize,
    pub end_byte: usize,
    /// Line range of the node, 0-based, `start_row <= end_row`.
    pub start_row: usize,
    pub end_row: usize,
    /// Index of the parent node in the flattened list; the root has none.
    pub parent: Option<usize>,
}

/// The tree the parser yields for these bytes under this grammar, or
/// nothing when the grammar is rejected or the parser gives up: parsing
/// with no timeout or cancellation is a function of the tag and the bytes.
pub uninterp spec fn tree_of(tag: LangTag, bytes: Seq<u8>) -> Option<tree_sitter::Tree>;

/// A tree's root node.
pub uninterp spec fn root_of(t: &tree_sitter::Tree) -> tree_sitter::Node<'_>;

/// What the accessors read from a node: its kind, byte range and line
/// range, as a record (whose parent field is not meaningful here).
pub uninterp spec fn fields_of(n: tree_sitter::Node<'_>) -> SynNode;

/// A node's number of children.
pub uninterp spec fn child_count_of(n: tree_sitter::Node<'_>) -> usize;

/// A node's `i`-th child.
pub uninterp spec fn child_of(n: tree_sitter::Node<'_>, i: int) -> Option<tree_sitter::Node<'_>>;

/// Relies on tree_sitter::Parser: with the grammar pinned to the tag,
/// parsing is deterministic in the grammar and the bytes, and fails only
/// when the grammar is rejected or the parser gives up.
#[verifier::external_body]
fn parse_tree(tag: LangTag, language: &tree_sitter::Language, bytes: &[u8]) -> (r: Option<
    tree_sitter::Tree,
>)
    requires
        *language == language_for(tag),
    ensures
        r == tree_of(tag, bytes@),
{
    let mut parser = tree_sitter::Parser::new();
    if parser.set_language(language).is_err() {
        return None;
    }
    parser.parse(bytes, None)
}

/// Relies on tree_sitter::Tree::root_node.
#[verifier::external_body]
fn tree_root<'t>(t: &'t tree_sitter::Tree) -> (r: tree_sitter::Node<'t>)
    ensures
        r == root_of(t),
{
    t.root_node()
}

/// Relies on tree_sitter::Node::kind, copied into an owned string.
#[verifier::external_body]
fn node_kind(n: &tree_sitter::Node<'_>) -> (r: String)
    ensures
        r == fields_of(*n).kind,
{
    n.kind().to_string()
}

/// Relies on tree_sitter::Node::start_byte.
#[verifier::external_body]
fn node_start_byte(n: &tree_sitter::Node<'_>) -> (r: usize)
    ensures
        r == fields_of(*n).start_byte,
{
    n.start_byte()
}

/// Relies on tree_sitter::Node::end_byte.
#[verifier::external_body]
fn node_end_byte(n: &tree_sitter::Node<'_>) -> (r: usize)
    ensures
        r == fields_of(*n).end_byte,
{
    n.end_byte()
}

/// Relies on tree_sitter::Node::start_position; the row of the point.
#[verifier::external_body]
fn node_start_row(n: &tree_sitter::Node<'_>) -> (r: usize)
    ensures
        r == fields_of(*n).start_row,
{
    n.start_position().row
}

/// Relies on tree_sitter::Node::end_position; the row of the point.
#[verifier::external_body]
fn node_end_row(n: &tree_sitter::Node<'_>) -> (r: usize)
    ensures
        r == fields_of(*n).end_row,
{
    n.end_position().row
}

/// Relies on tree_sitter::Node::child_count, widened to usize.
#[verifier::external_body]
fn node_child_count(n: &tree_sitter::Node<'_>) -> (r: usize)
    ensures
        r == child_count_of(*n),
{
    n.child_count() as usize
}

/// Relies on tree_sitter::Node::child, the index narrowed to u32; callers
/// stay below the child count.
#[verifier::external_body]
fn node_child<'t>(n: &tree_sitter::Node<'t>, i: usize) -> (r: Option<tree_sitter::Node<'t>>)
    ensures
        r == child_of(*n, i as int),
{
    n.child(i as u32)
}

/// The record a node flattens to, under the given parent.
pub open spec fn node_record(n: tree_sitter::Node<'_>, parent: Option<usize>) -> SynNode {
    SynNode { parent, ..fields_of(n) }
}

/// Whether a record passes the per-node checks: a non-empty range within
/// the source, ordered rows, and byte ends that do not split an encoding.
pub open spec fn spec_rec_ok(rec: SynNode, bytes: Seq<u8>) -> bool {
    &&& rec.start_byte < rec.end_byte <= bytes.len()
    &&& rec.start_row <= rec.end_row
    &&& spec_non_continuation(bytes, rec.start_byte as int)
    &&& spec_non_continuation(bytes, rec.end_byte as int)
}

/// The records of a subtree appended to `acc`: the node's own record when
/// it passes the checks, then its children's subtrees in order, each child
/// checked against its predecessor's start byte. The fuel bounds the depth;
/// no real tree comes close to it.
pub open spec fn flat_subtree(
    n: tree_sitter::Node<'_>,
    parent: Option<usize>,
    acc: Seq<SynNode>,
    bytes: Seq<u8>,
    fuel: nat,
) -> Seq<SynNode>
    decreases fuel, 0nat, 0nat,
{
    if fuel == 0 {
        acc
    } else {
        let rec = node_record(n, parent);
        if spec_rec_ok(rec, bytes) {
            flat_children(n, 0, acc.len() as usize, None, acc.push(rec), bytes, (fuel - 1) as nat)
        } else {
            acc
        }
    }
}

/// The records of the children of `n` from index `i` on, appended to `acc`:
/// a child is taken when its record passes the checks and starts at or
/// after the previously taken sibling.
pub open spec fn flat_children(
    n: tree_sitter::Node<'_>,
    i: int,
    parent_idx: usize,
    prev: Option<usize>,
    acc: Seq<SynNode>,
    bytes: Seq<u8>,
    fuel: nat,
) -> Seq<SynNode>
    decreases fuel, 1nat, child_count_of(n) - i,
{
    if !(0 <= i < child_count_of(n)) {
        acc
    } else {
        match child_of(n, i) {
            Some(c) => {
                let crec = node_record(c, Some(parent_idx));
                let in_order = match prev {
                    Some(pv) => pv <= crec.start_byte,
                    None => true,
                };
                if spec_rec_ok(crec, bytes) && in_order {
                    flat_children(
                        n,
                        i + 1,
                        parent_idx,
                        Some(crec.start_byte),
                        flat_subtree(c, Some(parent_idx), acc, bytes, fuel),
                        bytes,
                        fuel,
                    )
                } else {
                    flat_children(n, i + 1, parent_idx, prev, acc, bytes, fuel)
                }
            },
            None => flat_children(n, i + 1, parent_idx, prev, acc, bytes, fuel),
        }
    }
}

/// The traversal's depth budget.
pub open spec fn parse_fuel() -> nat {
    u64::MAX as nat
}

/// The flattened records of a whole tree.
pub open spec fn tree_nodes_of(t: tree_sitter::Tree, bytes: Seq<u8>) -> Seq<SynNode> {
    flat_subtree(root_of(&t), None, Seq::empty(), bytes, parse_fuel())
}

/// What parsing these bytes as the tagged language yields, flattened to
/// plain records in pre-order; nothing when the parser yields no tree.
pub open spec fn parse_of(tag: LangTag, bytes: Seq<u8>) -> Option<Seq<SynNode>> {
    match tree_of(tag, bytes) {
        Some(t) => Some(tree_nodes_of(t, bytes)),
        None => None,
    }
}

/// Every node's ranges are non-empty and bounded by the source length,
/// every parent comes before its children, and siblings sit in ascending
/// byte order — so anything a sibling scan attaches starts at or before the
/// node it is attached to.
pub open spec fn wf_nodes(ns: Seq<SynNode>, source_len: nat) -> bool {
    &&& forall|i: int|
        0 <= i < ns.len() ==> {
            let n = #[trigger] ns[i];
            &&& n.start_byte < n.end_byte <= source_len
            &&& n.start_row <= n.end_row
            &&& (n.parent matches Some(p) ==> p < i)
        }
    &&& forall|i: int, j: int|
        0 <= i < j < ns.len() && (#[trigger] ns[j]).parent is Some && (#[trigger] ns[i]).parent
            == ns[j].parent ==> ns[i].start_byte <= ns[j].start_byte
}

/// Every node's byte ends avoid splitting a multi-byte encoding, so on a
/// valid UTF-8 source every node's range is valid UTF-8 on its own.
pub open spec fn nodes_aligned(ns: Seq<SynNode>, bytes: Seq<u8>) -> bool {
    forall|i: int|
        0 <= i < ns.len() ==> spec_non_continuation(bytes, (#[trigger] ns[i]).start_byte as int)
            && spec_non_continuation(bytes, ns[i].end_byte as int)
}

/// The parse when its flattened records pass the well-formedness check;
/// nothing when the parser fails or the records do not.
pub open spec fn parse_usable(tag: LangTag, bytes: Seq<u8>) -> Option<Seq<SynNode>> {
    match parse_of(tag, bytes) {
        Some(ns) => if wf_nodes(ns, bytes.len()) && nodes_aligned(ns, bytes) {
            Some(ns)
        } else {
            None
        },
        None => None,
    }
}

/// Reads one node's fields into a plain record with the given parent.
fn read_record(node: &tree_sitter::Node<'_>, parent: Option<usize>) -> (r: SynNode)
    ensures
        r == node_record(*node, parent),
{
    let r = SynNode {
        kind: node_kind(node),
        start_byte: node_start_byte(node),
        end_byte: node_end_byte(node),
        start_row: node_start_row(node),
        end_row: node_end_row(node),
        parent,
    };
    proof {
        assert(r == node_record(*node, parent));
    }
    r
}

/// Decides `spec_rec_ok`.
fn record_ok(rec: &SynNode, bytes: &[u8]) -> (r: bool)
    ensures
        r == spec_rec_ok(*rec, bytes@),
{
    rec.start_byte < rec.end_byte && rec.end_byte <= bytes.len() && rec.start_row <= rec.end_row
        && non_continuation(bytes, rec.start_byte) && non_continuation(bytes, rec.end_byte)
}

/// Appends a subtree's records to `out`, exactly as `flat_subtree` says.
fn flatten_subtree(
    node: &tree_sitter::Node<'_>,
    parent: Option<usize>,
    bytes: &[u8],
    fuel: u64,
    out: &mut Vec<SynNode>,
)
    ensures
        final(out)@ == flat_subtree(*node, parent, old(out)@, bytes@, fuel as nat),
    decreases fuel,
{
    if fuel == 0 {
        return ;
    }
    let rec = read_record(node, parent);
    if !record_ok(&rec, bytes) {
        return ;
    }
    let parent_idx = out.len();
    out.push(rec);
    let cfuel = fuel - 1;
    let count = node_child_count(node);
    let ghost goal = flat_subtree(*node, parent, old(out)@, bytes@, fuel as nat);
    proof {
        assert(goal == flat_children(
            *node,
            0,
            parent_idx,
            None::<usize>,
            out@,
            bytes@,
            cfuel as nat,
        ));
    }
    let mut prev: Option<usize> = None;
    let mut i: usize = 0;
    while i < count
        invariant
            count == child_count_of(*node),
            i <= count,
            cfuel < fuel,
            flat_children(*node, i as int, parent_idx, prev, out@, bytes@, cfuel as nat) == goal,
        decreases count - i,
    {
        match node_child(node, i) {
            Some(c) => {
                let crec = read_record(&c, Some(parent_idx));
                let in_order = match prev {
                    Some(pv) => pv <= crec.start_byte,
                    None => true,
                };
                if record_ok(&crec, bytes) && in_order {
                    let sb = crec.start_byte;
                    flatten_subtree(&c, Some(parent_idx), bytes, cfuel, out);
                    prev = Some(sb);
                }
            },
            None => {},
        }
        i = i + 1;
    }
    proof {
        assert(out@ == goal);
    }
}

/// The order check's bookkeeping: every child of `p` seen so far is
/// flagged and bounded by the recorded start byte.
spec fn covers(ns: Seq<SynNode>, ls: Seq<usize>, hc: Seq<bool>, upto: int) -> bool {
    forall|p: int, c: int|
        0 <= p < upto && 0 <= c < upto && (#[trigger] ns[c]).parent == Some(p as usize) ==> (
        #[trigger] hc[p]) && ns[c].start_byte <= ls[p]
}

/// Each recorded start byte is some seen child's.
spec fn maxima_witnessed(ns: Seq<SynNode>, ls: Seq<usize>, hc: Seq<bool>, upto: int) -> bool {
    forall|p: int|
        0 <= p < upto && #[trigger] hc[p] ==> exists|c: int|
            0 <= c < upto && (#[trigger] ns[c]).parent == Some(p as usize) && ns[c].start_byte
                == ls[p]
}

/// Decides `wf_nodes` and `nodes_aligned` in one pass: per-node checks, and
/// sibling byte order through a per-parent record of the largest child
/// start byte seen.
#[verifier::rlimit(60)]
fn check_nodes(ns: &Vec<SynNode>, bytes: &[u8]) -> (r: bool)
    ensures
        r == (wf_nodes(ns@, bytes@.len()) && nodes_aligned(ns@, bytes@)),
{
    let n = ns.len();
    let mut last_start: Vec<usize> = Vec::new();
    let mut has_child: Vec<bool> = Vec::new();
    let mut i: usize = 0;
    while i < n
        invariant
            n == ns@.len(),
            i <= n,
            last_start@.len() == i,
            has_child@.len() == i,
            forall|k: int|
                0 <= k < i ==> {
                    let nd = #[trigger] ns@[k];
                    &&& nd.start_byte < nd.end_byte <= bytes@.len()
                    &&& nd.start_row <= nd.end_row
                    &&& (nd.parent matches Some(p) ==> p < k)
                    &&& spec_non_continuation(bytes@, nd.start_byte as int)
                    &&& spec_non_continuation(bytes@, nd.end_byte as int)
                },
            forall|k1: int, k2: int|
                0 <= k1 < k2 < i && (#[trigger] ns@[k2]).parent is Some && (#[trigger] ns@[k1]).parent == ns@[k2].parent ==> ns@[k1].start_byte <= ns@[k2].start_byte,
            covers(ns@, last_start@, has_child@, i as int),
            maxima_witnessed(ns@, last_start@, has_child@, i as int),
        decreases n - i,
    {
        if !record_ok(&ns[i], bytes) {
            return false;
        }
        let ghost ls_pre = last_start@;
        let ghost hc_pre = has_child@;
        match ns[i].parent {
            Some(p) => {
                if p >= i {
                    return false;
                }
                if has_child[p] && last_start[p] > ns[i].start_byte {
                    proof {
                        let c = choose|c: int|
                            0 <= c < i && (#[trigger] ns@[c]).parent == Some(p) && ns@[c].start_byte == last_start@[p as int];
                        assert(ns@[c].parent == ns@[i as int].parent);
                        assert(ns@[c].start_byte > ns@[i as int].start_byte);
                        assert(!wf_nodes(ns@, bytes@.len()));
                    }
                    return false;
                }
                let sb = ns[i].start_byte;
                last_start.set(p, sb);
                has_child.set(p, true);
                last_start.push(0);
                has_child.push(false);
                proof {
                    let gi = i as int;
                    let gp = p as int;
                    // siblings stay ordered: an existing child of p is at or
                    // below the recorded maximum, which the check bounded
                    assert forall|k1: int, k2: int|
                        0 <= k1 < k2 < gi + 1 && (#[trigger] ns@[k2]).parent is Some && (#[trigger] ns@[k1]).parent == ns@[k2].parent implies ns@[k1].start_byte <= ns@[k2].start_byte by {
                        if k2 == gi && ns@[k1].parent == Some(p) {
                            assert(hc_pre[gp] && ns@[k1].start_byte <= ls_pre[gp]);
                        }
                    }
                    // the bookkeeping still covers every child seen so far
                    assert(covers(ns@, last_start@, has_child@, gi + 1)) by {
                        assert forall|p2: int, c2: int|
                            0 <= p2 < gi + 1 && 0 <= c2 < gi + 1 && (#[trigger] ns@[c2]).parent == Some(p2 as usize) implies (#[trigger] has_child@[p2]) && ns@[c2].start_byte <= last_start@[p2] by {
                            if c2 == gi {
                                assert(p2 == gp);
                            } else if p2 == gp {
                                assert(hc_pre[gp] && ns@[c2].start_byte <= ls_pre[gp]);
                                assert(ls_pre[gp] <= ns@[gi].start_byte);
                            } else {
                                assert(p2 < gi);
                                assert(has_child@[p2] == hc_pre[p2]);
                                assert(last_start@[p2] == ls_pre[p2]);
                            }
                        }
                    }
                    // and each recorded maximum is some child's start byte
                    assert(maxima_witnessed(ns@, last_start@, has_child@, gi + 1)) by {
                        assert forall|p2: int|
                            0 <= p2 < gi + 1 && #[trigger] has_child@[p2] implies exists|c2: int|
                                0 <= c2 < gi + 1 && (#[trigger] ns@[c2]).parent == Some(p2 as usize) && ns@[c2].start_byte == last_start@[p2] by {
                            if p2 == gp {
                                assert(ns@[gi].parent == Some(p2 as usize) && ns@[gi].start_byte == last_start@[p2]);
                            } else if p2 < gi {
                                assert(hc_pre[p2]);
                                let c2 = choose|c2: int|
                                    0 <= c2 < gi && (#[trigger] ns@[c2]).parent == Some(p2 as usize) && ns@[c2].start_byte == ls_pre[p2];
                                assert(ns@[c2].parent == Some(p2 as usize) && ns@[c2].start_byte == last_start@[p2]);
                            }
                        }
                    }
                }
            },
            None => {
                last_start.push(0);
                has_child.push(false);
                proof {
                    let gi = i as int;
                    assert(covers(ns@, last_start@, has_child@, gi + 1)) by {
                        assert forall|p2: int, c2: int|
                            0 <= p2 < gi + 1 && 0 <= c2 < gi + 1 && (#[trigger] ns@[c2]).parent == Some(p2 as usize) implies (#[trigger] has_child@[p2]) && ns@[c2].start_byte <= last_start@[p2] by {
                            assert(c2 != gi);
                            assert(p2 < gi);
                            assert(hc_pre[p2]);
                            assert(ns@[c2].start_byte <= ls_pre[p2]);
                            assert(has_child@[p2] == hc_pre[p2]);
                            assert(last_start@[p2] == ls_pre[p2]);
                        }
                    }
                    assert(maxima_witnessed(ns@, last_start@, has_child@, gi + 1)) by {
                        assert forall|p2: int|
                            0 <= p2 < gi + 1 && #[trigger] has_child@[p2] implies exists|c2: int|
                                0 <= c2 < gi + 1 && (#[trigger] ns@[c2]).parent == Some(p2 as usize) && ns@[c2].start_byte == last_start@[p2] by {
                            if p2 < gi {
                                assert(hc_pre[p2]);
                                let c2 = choose|c2: int|
                                    0 <= c2 < gi && (#[trigger] ns@[c2]).parent == Some(p2 as usize) && ns@[c2].start_byte == ls_pre[p2];
                                assert(ns@[c2].parent == Some(p2 as usize) && ns@[c2].start_byte == last_start@[p2]);
                            }
                        }
                    }
                }
            },
        }
        i = i + 1;
    }
    true
}

/// Parses `bytes` as the tagged language and returns the flattened,
/// checked node records: exactly `parse_usable(tag, bytes)`.
pub fn parse_to_nodes(tag: LangTag, bytes: &[u8]) -> (r: Option<Vec<SynNode>>)
    ensures
        r matches Some(ns) ==> Some(ns@) == parse_usable(tag, bytes@) && wf_nodes(
            ns@,
            bytes@.len(),
        ) && nodes_aligned(ns@, bytes@),
        r is None <==> parse_usable(tag, bytes@) is None,
{
    let language = language_of(tag);
    let tree = match parse_tree(tag, &language, bytes) {
        Some(t) => t,
        None => {
            return None;
        },
    };
    let root = tree_root(&tree);
    let mut ns: Vec<SynNode> = Vec::new();
    flatten_subtree(&root, None, bytes, u64::MAX, &mut ns);
    proof {
        assert(ns@ == tree_nodes_of(tree, bytes@));
        assert(Some(ns@) == parse_of(tag, bytes@));
    }
    if check_nodes(&ns, bytes) {
        Some(ns)
    } else {
        None
    }
}

} // verus!

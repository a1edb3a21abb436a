//! Markdown chunk content: a paragraph (or list) chunk outside any list is
//! prefixed by the nearest preceding heading found among its ancestors'
//! children; a paragraph inside a list yields no chunk.

use vstd::prelude::*;
use vstd::utf8::{decode_utf8, valid_utf8};
use crate::syntax::{nodes_aligned, wf_nodes, SynNode};
use crate::attach::{child_indices, children_of, lemma_child_indices_props};
use crate::strutil::{lemma_valid_subrange, push_bytes, str_eq, string_from_bytes, subrange_vec};

verus! {

/// The heading node kinds of the markdown grammar.
pub open spec fn is_heading_kind(k: Seq<char>) -> bool {
    k == "atx_heading"@ || k == "setext_heading"@
}

/// Decides whether a node kind is a markdown heading.
pub fn is_heading(kind: &str) -> (r: bool)
    ensures
        r == is_heading_kind(kind@),
{
    str_eq(kind, "atx_heading") || str_eq(kind, "setext_heading")
}

/// The ancestor chain of node `i`, nearest first, cut after the document
/// root. A parent index that does not precede its child ends the chain; a
/// well-formed node list has none.
pub open spec fn spec_contexts(ns: Seq<SynNode>, i: int) -> Seq<int>
    decreases i, 0nat when 0 <= i < ns.len()
{
    match ns[i].parent {
        Some(p) => {
            if 0 <= p < i && ns[p as int].kind@ != "document"@ {
                seq![p as int] + spec_contexts(ns, p as int)
            } else if 0 <= p < i {
                seq![p as int]
            } else {
                Seq::empty()
            }
        },
        None => Seq::empty(),
    }
}

/// Whether node `i` sits inside a list: some ancestor below the document
/// root is a list node.
pub open spec fn spec_in_list(ns: Seq<SynNode>, i: int) -> bool {
    exists|k: int|
        0 <= k < spec_contexts(ns, i).len() && ns[#[trigger] spec_contexts(ns, i)[k]].kind@
            == "list"@
}

/// The better of a candidate heading set's current best `a` and child `j`:
/// headings strictly before the paragraph's row compete, the one on the
/// closest row wins, and the earlier one is kept on equal rows.
pub open spec fn better_heading(ns: Seq<SynNode>, a: Option<int>, j: int, para_row: int) -> Option<
    int,
> {
    if is_heading_kind(ns[j].kind@) && (ns[j].start_row as int) < para_row {
        match a {
            None => Some(j),
            Some(b) => if ns[j].start_row > ns[b].start_row {
                Some(j)
            } else {
                Some(b)
            },
        }
    } else {
        a
    }
}

/// The best heading among the children `cs`, scanned left to right.
pub open spec fn best_heading(ns: Seq<SynNode>, cs: Seq<int>, para_row: int) -> Option<int>
    decreases cs.len(),
{
    if cs.len() == 0 {
        None
    } else {
        better_heading(ns, best_heading(ns, cs.drop_last(), para_row), cs.last(), para_row)
    }
}

/// The heading for a paragraph: the best heading of the nearest ancestor
/// context that has one.
pub open spec fn spec_heading_for(ns: Seq<SynNode>, ctxs: Seq<int>, para_row: int) -> Option<int>
    decreases ctxs.len(),
{
    if ctxs.len() == 0 {
        None
    } else {
        match best_heading(ns, child_indices(ns, ctxs[0] as usize), para_row) {
            Some(h) => Some(h),
            None => spec_heading_for(ns, ctxs.drop_first(), para_row),
        }
    }
}

/// A byte sequence with its trailing newlines stripped: heading and
/// paragraph nodes span the line breaks that end them, which are no part of
/// a chunk's text.
pub open spec fn chomp(b: Seq<u8>) -> Seq<u8>
    decreases b.len(),
{
    if b.len() > 0 && (b.last() == 10 || b.last() == 13) {
        chomp(b.drop_last())
    } else {
        b
    }
}

/// The bytes of a markdown chunk: the heading's text, a newline, and the
/// paragraph's text, each without its trailing line break; or the paragraph
/// alone when no heading precedes it.
pub open spec fn spec_markdown_bytes(ns: Seq<SynNode>, para: int, bytes: Seq<u8>) -> Seq<u8> {
    let p = ns[para];
    let ptext = chomp(bytes.subrange(p.start_byte as int, p.end_byte as int));
    match spec_heading_for(ns, spec_contexts(ns, para), p.start_row as int) {
        Some(h) => chomp(bytes.subrange(ns[h].start_byte as int, ns[h].end_byte as int))
            + seq![10u8] + ptext,
        None => ptext,
    }
}

/// A single newline byte is valid UTF-8.
proof fn lemma_newline_valid()
    ensures
        valid_utf8(seq![10u8]),
{
    let b = seq![10u8];
    assert(vstd::utf8::is_leading_byte_width_1(b[0]));
    assert(vstd::utf8::valid_first_scalar(b));
    assert(vstd::utf8::pop_first_scalar(b) =~= Seq::<u8>::empty());
    assert(valid_utf8(vstd::utf8::pop_first_scalar(b)));
}

/// Stripping trailing newline bytes keeps a sequence valid UTF-8.
proof fn lemma_chomp_valid(b: Seq<u8>)
    requires
        valid_utf8(b),
    ensures
        valid_utf8(chomp(b)),
    decreases b.len(),
{
    if b.len() > 0 && (b.last() == 10 || b.last() == 13) {
        assert(!vstd::utf8::is_continuation_byte(b.last()));
        vstd::utf8::is_char_boundary_iff_not_is_continuation_byte(b, b.len() - 1);
        vstd::utf8::valid_utf8_split(b, b.len() - 1);
        assert(b.subrange(0, b.len() - 1) =~= b.drop_last());
        lemma_chomp_valid(b.drop_last());
    }
}

/// Trims the range `[from, to)` of its trailing newline bytes.
fn chomp_end(bytes: &[u8], from: usize, to: usize) -> (r: usize)
    requires
        from <= to <= bytes@.len(),
    ensures
        from <= r <= to,
        bytes@.subrange(from as int, r as int) == chomp(bytes@.subrange(from as int, to as int)),
{
    let mut b = to;
    while b > from && (bytes[b - 1] == 10 || bytes[b - 1] == 13)
        invariant
            from <= b <= to <= bytes@.len(),
            chomp(bytes@.subrange(from as int, to as int)) == chomp(
                bytes@.subrange(from as int, b as int),
            ),
        decreases b,
    {
        proof {
            assert(bytes@.subrange(from as int, b as int).last() == bytes@[b - 1]);
            assert(bytes@.subrange(from as int, b as int).drop_last() =~= bytes@.subrange(
                from as int,
                b - 1,
            ));
        }
        b = b - 1;
    }
    proof {
        if b > from {
            assert(bytes@.subrange(from as int, b as int).last() == bytes@[b - 1]);
        }
        assert(chomp(bytes@.subrange(from as int, b as int)) == bytes@.subrange(
            from as int,
            b as int,
        ));
    }
    b
}

/// Finds the best heading among the children of one context.
fn best_heading_in(ns: &Vec<SynNode>, ctx: usize, para_row: usize) -> (r: Option<usize>)
    ensures
        ({
            let b = best_heading(ns@, child_indices(ns@, ctx), para_row as int);
            match r {
                Some(h) => b == Some(h as int) && h < ns@.len(),
                None => b is None,
            }
        }),
{
    let cs = children_of(ns, ctx);
    proof {
        lemma_child_indices_props(ns@, ctx);
    }
    let ghost gcs = child_indices(ns@, ctx);
    let mut best: Option<usize> = None;
    let n = cs.len();
    let mut i: usize = 0;
    while i < n
        invariant
            n == cs@.len(),
            i <= n,
            cs@.map_values(|x: usize| x as int) == gcs,
            forall|k: int|
                0 <= k < gcs.len() ==> {
                    let x = #[trigger] gcs[k];
                    0 <= x < ns@.len()
                },
            ({
                let b = best_heading(ns@, gcs.take(i as int), para_row as int);
                match best {
                    Some(h) => b == Some(h as int) && h < ns@.len(),
                    None => b is None,
                }
            }),
        decreases n - i,
    {
        let j = cs[i];
        proof {
            assert(gcs.take(i + 1 as int).drop_last() =~= gcs.take(i as int));
            assert(gcs.take(i + 1 as int).last() == gcs[i as int]);
        }
        if is_heading(ns[j].kind.as_str()) && ns[j].start_row < para_row {
            match best {
                None => {
                    best = Some(j);
                },
                Some(b) => {
                    if ns[j].start_row > ns[b].start_row {
                        best = Some(j);
                    }
                },
            }
        }
        i = i + 1;
    }
    proof {
        assert(gcs.take(n as int) =~= gcs);
    }
    best
}

/// Extracts a markdown paragraph chunk's content: `None` for a paragraph
/// inside a list, and for content whose bytes are not valid UTF-8 on their
/// own, which a parse of a valid UTF-8 source does not produce.
pub fn extract_paragraph_with_heading(ns: &Vec<SynNode>, para: usize, bytes: &[u8]) -> (r: Option<
    String,
>)
    requires
        wf_nodes(ns@, bytes@.len()),
        para < ns@.len(),
    ensures
        spec_in_list(ns@, para as int) ==> r is None,
        !spec_in_list(ns@, para as int) ==> {
            let joined = spec_markdown_bytes(ns@, para as int, bytes@);
            &&& (r is Some <==> valid_utf8(joined))
            // a parse of valid UTF-8 yields aligned nodes, and then every
            // paragraph outside a list yields a chunk
            &&& ((valid_utf8(bytes@) && nodes_aligned(ns@, bytes@)) ==> r is Some)
            &&& (r matches Some(s) ==> s@ == decode_utf8(joined))
        },
{
    let ghost gctx = spec_contexts(ns@, para as int);
    let mut ctxs: Vec<usize> = Vec::new();
    let mut cur: usize = para;
    // Walk up the ancestry; each parent precedes its child, so this ends.
    loop
        invariant_except_break
            ctxs@.map_values(|x: usize| x as int) + spec_contexts(ns@, cur as int) == gctx,
        invariant
            wf_nodes(ns@, bytes@.len()),
            cur < ns@.len(),
            para < ns@.len(),
            gctx == spec_contexts(ns@, para as int),
            forall|k: int| 0 <= k < ctxs@.len() ==> (#[trigger] ctxs@[k]) < ns@.len(),
            forall|k: int| 0 <= k < ctxs@.len() ==> ns@[ctxs@[k] as int].kind@ != "list"@,
        ensures
            ctxs@.map_values(|x: usize| x as int) == gctx,
        decreases cur,
    {
        let p = match ns[cur].parent {
            Some(p) => p,
            None => {
                proof {
                    assert(spec_contexts(ns@, cur as int) =~= Seq::<int>::empty());
                    assert(ctxs@.map_values(|x: usize| x as int) + Seq::<int>::empty()
                        =~= ctxs@.map_values(|x: usize| x as int));
                }
                break ;
            },
        };
        assert(p < cur);
        let is_list = str_eq(ns[p].kind.as_str(), "list");
        let is_document = str_eq(ns[p].kind.as_str(), "document");
        ctxs.push(p);
        proof {
            assert(ctxs@.map_values(|x: usize| x as int).drop_last() + spec_contexts(
                ns@,
                cur as int,
            ) == gctx);
            assert(ctxs@.map_values(|x: usize| x as int).drop_last().push(p as int)
                =~= ctxs@.map_values(|x: usize| x as int));
        }
        if is_list {
            proof {
                let m = ctxs@.len() - 1;
                if is_document {
                    assert(spec_contexts(ns@, cur as int) =~= seq![p as int]);
                } else {
                    assert(spec_contexts(ns@, cur as int) =~= seq![p as int] + spec_contexts(
                        ns@,
                        p as int,
                    ));
                }
                let mapped = ctxs@.map_values(|x: usize| x as int);
                assert(mapped.len() == ctxs@.len());
                assert(mapped.drop_last() + spec_contexts(ns@, cur as int) == gctx);
                assert(spec_contexts(ns@, cur as int).len() >= 1);
                assert(gctx.len() == m + spec_contexts(ns@, cur as int).len());
                assert(gctx[m] == spec_contexts(ns@, cur as int)[0]);
                assert(spec_contexts(ns@, cur as int)[0] == p as int);
                assert(gctx == spec_contexts(ns@, para as int));
                assert(0 <= m < spec_contexts(ns@, para as int).len());
                assert(spec_contexts(ns@, para as int)[m] == p as int);
                assert(ns@[spec_contexts(ns@, para as int)[m]].kind@ == "list"@);
                assert(spec_in_list(ns@, para as int));
            }
            return None;
        }
        if is_document {
            proof {
                assert(spec_contexts(ns@, cur as int) =~= seq![p as int]);
                assert(ctxs@.map_values(|x: usize| x as int) =~= gctx);
            }
            break ;
        }
        proof {
            assert(spec_contexts(ns@, cur as int) =~= seq![p as int] + spec_contexts(
                ns@,
                p as int,
            ));
            assert(ctxs@.map_values(|x: usize| x as int).drop_last() + (seq![p as int]
                + spec_contexts(ns@, p as int)) =~= ctxs@.map_values(|x: usize| x as int)
                + spec_contexts(ns@, p as int));
        }
        cur = p;
    }
    proof {
        if spec_in_list(ns@, para as int) {
            let k = choose|k: int|
                0 <= k < gctx.len() && ns@[#[trigger] gctx[k]].kind@ == "list"@;
            assert(ctxs@[k] as int == gctx[k]);
        }
        assert(!spec_in_list(ns@, para as int));
    }
    // Find the nearest ancestor context with a heading before the paragraph.
    let para_row = ns[para].start_row;
    let mut heading: Option<usize> = None;
    let n = ctxs.len();
    let mut i: usize = 0;
    proof {
        assert(gctx.skip(0) =~= gctx);
    }
    while i < n
        invariant_except_break
            heading is None,
            spec_heading_for(ns@, gctx, para_row as int) == spec_heading_for(
                ns@,
                gctx.skip(i as int),
                para_row as int,
            ),
        invariant
            wf_nodes(ns@, bytes@.len()),
            n == ctxs@.len(),
            i <= n,
            ctxs@.map_values(|x: usize| x as int) == gctx,
            forall|k: int| 0 <= k < ctxs@.len() ==> (#[trigger] ctxs@[k]) < ns@.len(),
        ensures
            heading matches Some(h) ==> h < ns@.len() && spec_heading_for(
                ns@,
                gctx,
                para_row as int,
            ) == Some(h as int),
            heading is None ==> spec_heading_for(ns@, gctx, para_row as int) == spec_heading_for(
                ns@,
                gctx.skip(i as int),
                para_row as int,
            ) && i == n,
        decreases n - i,
    {
        match best_heading_in(ns, ctxs[i], para_row) {
            Some(h) => {
                proof {
                    assert(gctx.skip(i as int).len() > 0);
                    assert(gctx.skip(i as int)[0] == gctx[i as int]);
                    assert(gctx[i as int] == ctxs@[i as int] as int);
                    assert(gctx.skip(i as int)[0] as usize == ctxs@[i as int]);
                    assert(spec_heading_for(ns@, gctx.skip(i as int), para_row as int) == Some(
                        h as int,
                    ));
                }
                heading = Some(h);
                i = i + 1;
                break ;
            },
            None => {
                proof {
                    assert(gctx.skip(i as int).len() > 0);
                    assert(gctx.skip(i as int)[0] == gctx[i as int]);
                    assert(gctx.skip(i as int)[0] as usize == ctxs@[i as int]);
                    assert(gctx.skip(i as int).drop_first() =~= gctx.skip(i + 1 as int));
                }
            },
        }
        i = i + 1;
    }
    proof {
        if heading is None {
            assert(gctx.skip(n as int) =~= Seq::<int>::empty());
        }
    }
    let p_start = ns[para].start_byte;
    let p_end = chomp_end(bytes, ns[para].start_byte, ns[para].end_byte);
    proof {
        if valid_utf8(bytes@) && nodes_aligned(ns@, bytes@) {
            lemma_valid_subrange(
                bytes@,
                ns@[para as int].start_byte as int,
                ns@[para as int].end_byte as int,
            );
            lemma_chomp_valid(
                bytes@.subrange(
                    ns@[para as int].start_byte as int,
                    ns@[para as int].end_byte as int,
                ),
            );
        }
    }
    match heading {
        Some(h) => {
            let h_end = chomp_end(bytes, ns[h].start_byte, ns[h].end_byte);
            let mut joined = subrange_vec(bytes, ns[h].start_byte, h_end);
            joined.push(10);
            let ptext = subrange_vec(bytes, p_start, p_end);
            push_bytes(&mut joined, ptext.as_slice());
            proof {
                assert(joined@ =~= spec_markdown_bytes(ns@, para as int, bytes@));
                if valid_utf8(bytes@) && nodes_aligned(ns@, bytes@) {
                    lemma_valid_subrange(
                        bytes@,
                        ns@[h as int].start_byte as int,
                        ns@[h as int].end_byte as int,
                    );
                    let hslice = bytes@.subrange(
                        ns@[h as int].start_byte as int,
                        ns@[h as int].end_byte as int,
                    );
                    lemma_chomp_valid(hslice);
                    lemma_newline_valid();
                    vstd::utf8::valid_utf8_concat(chomp(hslice), seq![10u8]);
                    let pslice = bytes@.subrange(
                        ns@[para as int].start_byte as int,
                        ns@[para as int].end_byte as int,
                    );
                    vstd::utf8::valid_utf8_concat(chomp(hslice) + seq![10u8], chomp(pslice));
                    assert(chomp(hslice) + seq![10u8] + chomp(pslice) =~= joined@);
                    assert(valid_utf8(joined@));
                }
            }
            string_from_bytes(joined)
        },
        None => {
            let ptext = subrange_vec(bytes, p_start, p_end);
            proof {
                assert(ptext@ =~= spec_markdown_bytes(ns@, para as int, bytes@));
            }
            string_from_bytes(ptext)
        },
    }
}

} // verus!

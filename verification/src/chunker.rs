//! The chunker: turns a source file into function-sized chunks with stable,
//! content-addressed identifiers. A chunk's content starts at its attached
//! leading comments, while its line range is the syntactic unit's own, so
//! editing a comment changes the content and the hashes but not the lines.

use vstd::prelude::*;
use vstd::utf8::encode_utf8;
use vstd::string::StringSliceAdditionalSpecFns;
use crate::hashing::{le_bytes, lemma_le_bytes_injective, push_le_bytes, xxh3, xxh3_64};
use crate::strutil::{
    chars_to_string, find_last, last_index_of, push_bytes, str_eq, str_to_chars, subrange_vec,
};
use crate::filetype::{is_captured, spec_captured, tag_name, FiletypeMatcher, LangTag};
use crate::syntax::{parse_to_nodes, parse_usable, SynNode};
use crate::attach::extract_function_with_comments;
use crate::markdown::extract_paragraph_with_heading;

verus! {

/// Why a file could not be chunked. Neither error is fatal for a directory
/// walk: an unsupported extension means "no chunks", a parse failure is
/// logged and the file skipped.
#[derive(Debug)]
pub enum ChunkError {
    UnsupportedExtension(String),
    ParseFailed(String),
}

impl ChunkError {
    /// The error rendered for the user.
    pub fn message(&self) -> (r: String)
        ensures
            self matches ChunkError::UnsupportedExtension(e) ==> r@ == "Unsupported file extension: "@
                + e@,
            self matches ChunkError::ParseFailed(e) ==> r@ == "Parse error: "@ + e@,
    {
        match self {
            ChunkError::UnsupportedExtension(e) => {
                let mut s = String::new();
                s.append("Unsupported file extension: ");
                s.append(e.as_str());
                s
            },
            ChunkError::ParseFailed(e) => {
                let mut s = String::new();
                s.append("Parse error: ");
                s.append(e.as_str());
                s
            },
        }
    }
}

/// The atomic unit of indexing.
#[derive(Debug)]
pub struct Chunk {
    /// Content-addressed identifier; see `spec_chunk_id`.
    pub id: u64,
    /// The embedding as the bit patterns of its little-endian 32-bit floats;
    /// absent until embedded.
    pub vector: Option<Vec<u32>>,
    /// Path to the source file.
    pub path: String,
    /// 1-based inclusive line range of the syntactic unit, without the
    /// attached leading comments.
    pub start_line: u32,
    pub end_line: u32,
    /// Hash of the full file bytes.
    pub file_hash: u64,
    /// Hash of the chunk content, attached comments included.
    pub chunk_hash: u64,
    /// Filesystem timestamps, seconds since epoch, best effort.
    pub file_mtime: u64,
    pub file_ctime: u64,
    /// The chunk text; absent on records returned from the remote index.
    pub content: Option<String>,
    /// The distance column of a search result, already rendered; absent
    /// outside search results.
    pub distance: Option<String>,
}

/// Whether two optional strings hold the same text.
pub open spec fn opt_string_eqv(a: Option<String>, b: Option<String>) -> bool {
    match (a, b) {
        (Some(x), Some(y)) => x@ == y@,
        (None, None) => true,
        _ => false,
    }
}

/// Whether two optional vectors hold the same elements.
pub open spec fn opt_vector_eqv(a: Option<Vec<u32>>, b: Option<Vec<u32>>) -> bool {
    match (a, b) {
        (Some(x), Some(y)) => x@ == y@,
        (None, None) => true,
        _ => false,
    }
}

/// Whether two chunks carry the same record, field for field.
pub open spec fn chunk_eqv(a: Chunk, b: Chunk) -> bool {
    &&& a.id == b.id
    &&& opt_vector_eqv(a.vector, b.vector)
    &&& a.path@ == b.path@
    &&& a.start_line == b.start_line
    &&& a.end_line == b.end_line
    &&& a.file_hash == b.file_hash
    &&& a.chunk_hash == b.chunk_hash
    &&& a.file_mtime == b.file_mtime
    &&& a.file_ctime == b.file_ctime
    &&& opt_string_eqv(a.content, b.content)
    &&& opt_string_eqv(a.distance, b.distance)
}

/// Copies a vector of 32-bit values.
fn copy_u32s(v: &Vec<u32>) -> (r: Vec<u32>)
    ensures
        r@ == v@,
{
    let mut out: Vec<u32> = Vec::new();
    let n = v.len();
    let mut i: usize = 0;
    while i < n
        invariant
            n == v@.len(),
            i <= n,
            out@ == v@.take(i as int),
        decreases n - i,
    {
        out.push(v[i]);
        assert(v@.take(i as int).push(v@[i as int]) =~= v@.take(i + 1 as int));
        i = i + 1;
    }
    assert(v@.take(n as int) =~= v@);
    out
}

impl Clone for Chunk {
    /// A field-for-field copy of the record.
    fn clone(&self) -> (r: Chunk)
        ensures
            chunk_eqv(r, *self),
    {
        Chunk {
            id: self.id,
            vector: match &self.vector {
                Some(v) => Some(copy_u32s(v)),
                None => None,
            },
            path: self.path.clone(),
            start_line: self.start_line,
            end_line: self.end_line,
            file_hash: self.file_hash,
            chunk_hash: self.chunk_hash,
            file_mtime: self.file_mtime,
            file_ctime: self.file_ctime,
            content: match &self.content {
                Some(s) => Some(s.clone()),
                None => None,
            },
            distance: match &self.distance {
                Some(s) => Some(s.clone()),
                None => None,
            },
        }
    }
}

impl Default for Chunk {
    /// The all-empty chunk.
    fn default() -> (r: Chunk)
        ensures
            r.id == 0 && r.vector is None && r.path@ == Seq::<char>::empty(),
            r.start_line == 0 && r.end_line == 0,
            r.file_hash == 0 && r.chunk_hash == 0 && r.file_mtime == 0 && r.file_ctime == 0,
            r.content is None && r.distance is None,
    {
        Chunk {
            id: 0,
            vector: None,
            path: String::new(),
            start_line: 0,
            end_line: 0,
            file_hash: 0,
            chunk_hash: 0,
            file_mtime: 0,
            file_ctime: 0,
            content: None,
            distance: None,
        }
    }
}

/// The canonical byte serialization that a chunk's identifier hashes: the
/// path bytes and the four integers, little-endian, separated by ASCII ':'.
pub open spec fn id_message(
    path: Seq<char>,
    start_row: u64,
    end_row: u64,
    file_hash: u64,
    chunk_hash: u64,
) -> Seq<u8> {
    encode_utf8(path) + seq![58u8] + le_bytes(start_row) + seq![58u8] + le_bytes(end_row)
        + seq![58u8] + le_bytes(file_hash) + seq![58u8] + le_bytes(chunk_hash)
}

/// A chunk's identifier: the hash of its canonical serialization. The rows
/// are 0-based, one less than the chunk's line fields.
pub open spec fn spec_chunk_id(
    path: Seq<char>,
    start_row: u64,
    end_row: u64,
    file_hash: u64,
    chunk_hash: u64,
) -> u64 {
    xxh3(id_message(path, start_row, end_row, file_hash, chunk_hash))
}

/// Computes a chunk's identifier from its parts.
pub fn chunk_id(path: &str, start_row: u64, end_row: u64, file_hash: u64, chunk_hash: u64) -> (r:
    u64)
    ensures
        r == spec_chunk_id(path@, start_row, end_row, file_hash, chunk_hash),
{
    let mut msg: Vec<u8> = Vec::new();
    push_bytes(&mut msg, path.as_bytes());
    msg.push(58);
    push_le_bytes(&mut msg, start_row);
    msg.push(58);
    push_le_bytes(&mut msg, end_row);
    msg.push(58);
    push_le_bytes(&mut msg, file_hash);
    msg.push(58);
    push_le_bytes(&mut msg, chunk_hash);
    proof {
        assert(msg@ =~= id_message(path@, start_row, end_row, file_hash, chunk_hash));
    }
    xxh3_64(msg.as_slice())
}

/// Identifier stability: the identifier is a function of the path, the line
/// range, the file hash and the chunk hash alone, so chunking the same file
/// bytes at the same path again yields the same identifiers.
pub proof fn lemma_chunk_id_stable(
    path: Seq<char>,
    start_row: u64,
    end_row: u64,
    file_hash: u64,
    chunk_hash: u64,
    id1: u64,
    id2: u64,
)
    requires
        id1 == spec_chunk_id(path, start_row, end_row, file_hash, chunk_hash),
        id2 == spec_chunk_id(path, start_row, end_row, file_hash, chunk_hash),
    ensures
        id1 == id2,
{
}

/// The canonical serialization is injective in its integer fields: for one
/// path, messages agree only when the line range and both hashes agree. So
/// an edit that changes a chunk's hash changes the bytes its identifier is
/// derived from, even when the line numbers are preserved.
pub proof fn lemma_id_message_injective(
    path: Seq<char>,
    s1: u64,
    e1: u64,
    f1: u64,
    c1: u64,
    s2: u64,
    e2: u64,
    f2: u64,
    c2: u64,
)
    requires
        id_message(path, s1, e1, f1, c1) == id_message(path, s2, e2, f2, c2),
    ensures
        s1 == s2 && e1 == e2 && f1 == f2 && c1 == c2,
{
    let pe = encode_utf8(path);
    let l = pe.len() as int;
    let m1 = id_message(path, s1, e1, f1, c1);
    let m2 = id_message(path, s2, e2, f2, c2);
    assert forall|k: int| 0 <= k < 8 implies le_bytes(s1)[k] == le_bytes(s2)[k] by {
        assert(m1[l + 1 + k] == le_bytes(s1)[k]);
        assert(m2[l + 1 + k] == le_bytes(s2)[k]);
    }
    assert forall|k: int| 0 <= k < 8 implies le_bytes(e1)[k] == le_bytes(e2)[k] by {
        assert(m1[l + 10 + k] == le_bytes(e1)[k]);
        assert(m2[l + 10 + k] == le_bytes(e2)[k]);
    }
    assert forall|k: int| 0 <= k < 8 implies le_bytes(f1)[k] == le_bytes(f2)[k] by {
        assert(m1[l + 19 + k] == le_bytes(f1)[k]);
        assert(m2[l + 19 + k] == le_bytes(f2)[k]);
    }
    assert forall|k: int| 0 <= k < 8 implies le_bytes(c1)[k] == le_bytes(c2)[k] by {
        assert(m1[l + 28 + k] == le_bytes(c1)[k]);
        assert(m2[l + 28 + k] == le_bytes(c2)[k]);
    }
    assert(le_bytes(s1) =~= le_bytes(s2));
    assert(le_bytes(e1) =~= le_bytes(e2));
    assert(le_bytes(f1) =~= le_bytes(f2));
    assert(le_bytes(c1) =~= le_bytes(c2));
    lemma_le_bytes_injective(s1, s2);
    lemma_le_bytes_injective(e1, e2);
    lemma_le_bytes_injective(f1, f2);
    lemma_le_bytes_injective(c1, c2);
}

/// The filename component of a path: everything after the last '/'.
pub open spec fn spec_filename_of(p: Seq<char>) -> Seq<char> {
    p.skip(last_index_of(p, '/') + 1)
}

/// Extracts the filename component of a path.
pub fn filename_of(path: &str) -> (r: String)
    ensures
        r@ == spec_filename_of(path@),
{
    let cs = str_to_chars(path);
    let n = cs.len();
    let start = match find_last(&cs, '/') {
        Some(i) => i + 1,
        None => 0,
    };
    let name = subrange_vec(cs.as_slice(), start, n);
    proof {
        crate::strutil::lemma_last_index_of(cs@, '/');
        assert(cs@.subrange(start as int, cs@.len() as int) =~= cs@.skip(
            last_index_of(path@, '/') + 1,
        ));
    }
    chars_to_string(name)
}

/// The extension of a filename: what follows the last '.', when that dot is
/// neither absent nor the filename's first character.
pub open spec fn spec_extension_of(name: Seq<char>) -> Option<Seq<char>> {
    let d = last_index_of(name, '.');
    if d > 0 {
        Some(name.skip(d + 1))
    } else {
        None
    }
}

/// Extracts a filename's extension.
pub fn extension_of(name: &str) -> (r: Option<String>)
    ensures
        r matches Some(s) ==> spec_extension_of(name@) == Some(s@),
        r is None ==> spec_extension_of(name@) is None,
{
    let cs = str_to_chars(name);
    let n = cs.len();
    match find_last(&cs, '.') {
        Some(d) => {
            if d > 0 {
                let e = subrange_vec(cs.as_slice(), d + 1, n);
                proof {
                    assert(cs@.subrange(d + 1 as int, cs@.len() as int) =~= cs@.skip(d + 1));
                }
                Some(chars_to_string(e))
            } else {
                None
            }
        },
        None => None,
    }
}

/// Identifier sensitivity on the serialized bytes: a changed chunk hash
/// changes the canonical serialization, lines and path unchanged.
pub proof fn lemma_id_message_chunk_hash_sensitive(
    path: Seq<char>,
    start_row: u64,
    end_row: u64,
    file_hash: u64,
    c1: u64,
    c2: u64,
)
    requires
        c1 != c2,
    ensures
        id_message(path, start_row, end_row, file_hash, c1) != id_message(
            path,
            start_row,
            end_row,
            file_hash,
            c2,
        ),
{
    if id_message(path, start_row, end_row, file_hash, c1) == id_message(
        path,
        start_row,
        end_row,
        file_hash,
        c2,
    ) {
        lemma_id_message_injective(
            path,
            start_row,
            end_row,
            file_hash,
            c1,
            start_row,
            end_row,
            file_hash,
            c2,
        );
    }
}

/// What holds of every chunk the chunker emits for a file: its lines are the
/// syntactic unit's 1-based range, its hashes are the hashes of the file and
/// of its own content, and its identifier is derived from exactly those
/// parts.
pub open spec fn wf_chunk_record(
    c: Chunk,
    path: Seq<char>,
    content: Seq<char>,
    mtime: u64,
    ctime: u64,
) -> bool {
    &&& c.path@ == path
    &&& 1 <= c.start_line <= c.end_line
    &&& c.content matches Some(s) && s@.len() > 0 && c.chunk_hash == xxh3(encode_utf8(s@))
    &&& c.file_hash == xxh3(encode_utf8(content))
    &&& c.id == spec_chunk_id(
        path,
        (c.start_line - 1) as u64,
        (c.end_line - 1) as u64,
        c.file_hash,
        c.chunk_hash,
    )
    &&& c.file_mtime == mtime && c.file_ctime == ctime
    &&& c.vector is None && c.distance is None
}

/// Whether a node of this kind is, for this tag, a markdown block that
/// takes the heading path rather than the comment-attachment path.
pub open spec fn spec_md_block(tag: LangTag, kind: Seq<char>) -> bool {
    tag == LangTag::Markdown && (kind == "paragraph"@ || kind == "list"@)
}

/// The bytes a captured node's chunk content is made of: for a markdown
/// block, the nearest heading joined with the block; otherwise the source
/// from the attached leading comments to the node's end.
pub open spec fn spec_node_bytes(tag: LangTag, ns: Seq<SynNode>, i: int, bytes: Seq<u8>) -> Seq<
    u8,
> {
    if spec_md_block(tag, ns[i].kind@) {
        crate::markdown::spec_markdown_bytes(ns, i, bytes)
    } else {
        bytes.subrange(crate::attach::spec_attach_start(ns, i), ns[i].end_byte as int)
    }
}

/// Whether node `i` yields a chunk: its kind is captured for the tag, its
/// line range fits the 32-bit line fields, a markdown block sits outside
/// any list, and its content bytes are non-empty and valid UTF-8 on their
/// own (a parse of valid UTF-8 source produces no others).
pub open spec fn spec_emits(tag: LangTag, ns: Seq<SynNode>, i: int, bytes: Seq<u8>) -> bool {
    &&& spec_captured(tag, ns[i].kind@)
    &&& ns[i].end_row + 1 <= u32::MAX
    &&& (spec_md_block(tag, ns[i].kind@) ==> !crate::markdown::spec_in_list(ns, i))
    &&& vstd::utf8::valid_utf8(spec_node_bytes(tag, ns, i, bytes))
    &&& spec_node_bytes(tag, ns, i, bytes).len() > 0
}

/// The indices of the nodes among the first `upto` that yield chunks, in
/// document order.
pub open spec fn emitted_upto(
    tag: LangTag,
    ns: Seq<SynNode>,
    bytes: Seq<u8>,
    upto: int,
) -> Seq<int>
    decreases upto,
{
    if upto <= 0 {
        Seq::empty()
    } else {
        emitted_upto(tag, ns, bytes, upto - 1) + if spec_emits(tag, ns, upto - 1, bytes) {
            seq![upto - 1]
        } else {
            Seq::empty()
        }
    }
}

/// The indices of all nodes that yield chunks, in document order.
pub open spec fn emitted_nodes(tag: LangTag, ns: Seq<SynNode>, bytes: Seq<u8>) -> Seq<int> {
    emitted_upto(tag, ns, bytes, ns.len() as int)
}

/// Whether `c` is exactly the chunk derived from node `i`: the node's own
/// 1-based line range, the node's content bytes decoded, and the hashes and
/// identifier computed from exactly those parts.
pub open spec fn chunk_from_node(
    c: Chunk,
    tag: LangTag,
    ns: Seq<SynNode>,
    i: int,
    bytes: Seq<u8>,
    path: Seq<char>,
    mtime: u64,
    ctime: u64,
) -> bool {
    &&& c.path@ == path
    &&& c.start_line == ns[i].start_row + 1
    &&& c.end_line == ns[i].end_row + 1
    &&& c.content matches Some(s) && s@ == vstd::utf8::decode_utf8(
        spec_node_bytes(tag, ns, i, bytes),
    ) && s@.len() > 0
    &&& c.chunk_hash == xxh3(spec_node_bytes(tag, ns, i, bytes))
    &&& c.file_hash == xxh3(bytes)
    &&& c.id == spec_chunk_id(
        path,
        ns[i].start_row as u64,
        ns[i].end_row as u64,
        c.file_hash,
        c.chunk_hash,
    )
    &&& c.file_mtime == mtime && c.file_ctime == ctime
    &&& c.vector is None && c.distance is None
}

/// What chunking in a known language returns: failure exactly when the
/// parse yields no usable node records, and otherwise one chunk per
/// emitting node, in document order, each fixed by `chunk_from_node`.
pub open spec fn spec_chunk_result(
    r: Result<Vec<Chunk>, ChunkError>,
    tag: LangTag,
    content: Seq<char>,
    path: Seq<char>,
    mtime: u64,
    ctime: u64,
) -> bool {
    let bytes = encode_utf8(content);
    match r {
        Ok(chunks) => parse_usable(tag, bytes) is Some && {
            let ns = parse_usable(tag, bytes)->Some_0;
            let em = emitted_nodes(tag, ns, bytes);
            &&& chunks@.len() == em.len()
            &&& forall|k: int|
                0 <= k < em.len() ==> chunk_from_node(
                    #[trigger] chunks@[k],
                    tag,
                    ns,
                    em[k],
                    bytes,
                    path,
                    mtime,
                    ctime,
                )
        },
        Err(e) => e is ParseFailed && parse_usable(tag, bytes) is None,
    }
}

/// Chunks a file known to be in language `tag`: parses it, captures the
/// tag's node kinds, attaches leading comments (or, for markdown, the
/// nearest heading), and derives the stable identifiers. The result is a
/// function of the tag, the content and the path alone: exactly the chunks
/// of the parse's emitting nodes.
pub fn chunk_in_language(
    tag: LangTag,
    content: &str,
    path: &str,
    file_mtime: u64,
    file_ctime: u64,
) -> (r: Result<Vec<Chunk>, ChunkError>)
    ensures
        spec_chunk_result(r, tag, content@, path@, file_mtime, file_ctime),
        r matches Ok(chunks) ==> forall|i: int|
            0 <= i < chunks@.len() ==> wf_chunk_record(
                #[trigger] chunks@[i],
                path@,
                content@,
                file_mtime,
                file_ctime,
            ),
        r matches Err(e) ==> e is ParseFailed,
{
    let bytes = content.as_bytes();
    let ghost gb = content.spec_bytes();
    let nodes = match parse_to_nodes(tag, bytes) {
        Some(ns) => ns,
        None => {
            let mut msg = String::new();
            msg.append("Failed to parse content as ");
            msg.append(tag_name(tag));
            return Err(ChunkError::ParseFailed(msg));
        },
    };
    let file_hash = xxh3_64(bytes);
    let mut chunks: Vec<Chunk> = Vec::new();
    let n = nodes.len();
    let mut i: usize = 0;
    proof {
        assert(emitted_upto(tag, nodes@, gb, 0) =~= Seq::<int>::empty());
    }
    while i < n
        invariant
            n == nodes@.len(),
            i <= n,
            gb == content.spec_bytes(),
            crate::syntax::wf_nodes(nodes@, gb.len()),
            bytes@ == gb,
            Some(nodes@) == parse_usable(tag, gb),
            file_hash == xxh3(gb),
            chunks@.len() == emitted_upto(tag, nodes@, gb, i as int).len(),
            forall|k: int|
                0 <= k < chunks@.len() ==> chunk_from_node(
                    #[trigger] chunks@[k],
                    tag,
                    nodes@,
                    emitted_upto(tag, nodes@, gb, i as int)[k],
                    gb,
                    path@,
                    file_mtime,
                    file_ctime,
                ),
            forall|k: int|
                0 <= k < chunks@.len() ==> wf_chunk_record(
                    #[trigger] chunks@[k],
                    path@,
                    content@,
                    file_mtime,
                    file_ctime,
                ),
        decreases n - i,
    {
        let ghost em_i = emitted_upto(tag, nodes@, gb, i as int);
        let ghost em_i1 = emitted_upto(tag, nodes@, gb, i + 1 as int);
        let captured = is_captured(tag, nodes[i].kind.as_str());
        if captured {
            let is_md_para = match tag {
                LangTag::Markdown => str_eq(nodes[i].kind.as_str(), "paragraph") || str_eq(
                    nodes[i].kind.as_str(),
                    "list",
                ),
                _ => false,
            };
            proof {
                assert(is_md_para == spec_md_block(tag, nodes@[i as int].kind@));
            }
            let text_opt = if is_md_para {
                extract_paragraph_with_heading(&nodes, i, bytes)
            } else {
                extract_function_with_comments(&nodes, i, bytes)
            };
            match text_opt {
                Some(text) => {
                    let start_row = nodes[i].start_row;
                    let end_row = nodes[i].end_row;
                    proof {
                        // non-empty text and non-empty content bytes coincide
                        let nb = spec_node_bytes(tag, nodes@, i as int, gb);
                        if nb.len() > 0 {
                            assert(vstd::utf8::decode_utf8(nb).len() > 0);
                        } else {
                            assert(nb =~= Seq::<u8>::empty());
                            assert(vstd::utf8::decode_utf8(nb).len() == 0);
                        }
                    }
                    // Line numbers are stored as 32-bit values; a file with
                    // more lines than that yields no chunk for the node, and
                    // a node whose text is empty yields none either.
                    if end_row <= (u32::MAX - 1) as usize && !text.as_str().is_empty() {
                        let chunk_hash = xxh3_64(text.as_str().as_bytes());
                        let id = chunk_id(
                            path,
                            start_row as u64,
                            end_row as u64,
                            file_hash,
                            chunk_hash,
                        );
                        let c = Chunk {
                            id,
                            vector: None,
                            path: path.to_owned(),
                            start_line: (start_row + 1) as u32,
                            end_line: (end_row + 1) as u32,
                            file_hash,
                            chunk_hash,
                            file_mtime,
                            file_ctime,
                            content: Some(text),
                            distance: None,
                        };
                        proof {
                            assert(vstd::utf8::valid_utf8(
                                spec_node_bytes(tag, nodes@, i as int, gb),
                            ));
                            assert(spec_emits(tag, nodes@, i as int, gb));
                            vstd::utf8::decode_utf8_encode_utf8(
                                spec_node_bytes(tag, nodes@, i as int, gb),
                            );
                            assert(chunk_from_node(
                                c,
                                tag,
                                nodes@,
                                i as int,
                                gb,
                                path@,
                                file_mtime,
                                file_ctime,
                            ));
                            assert(wf_chunk_record(c, path@, content@, file_mtime, file_ctime));
                            assert(em_i1 =~= em_i.push(i as int));
                        }
                        chunks.push(c);
                        proof {
                            assert forall|k: int| 0 <= k < chunks@.len() implies chunk_from_node(
                                #[trigger] chunks@[k],
                                tag,
                                nodes@,
                                em_i1[k],
                                gb,
                                path@,
                                file_mtime,
                                file_ctime,
                            ) by {
                                if k < chunks@.len() - 1 {
                                    assert(em_i1[k] == em_i[k]);
                                }
                            }
                        }
                    } else {
                        proof {
                            assert(!spec_emits(tag, nodes@, i as int, gb));
                            assert(em_i1 =~= em_i);
                        }
                    }
                },
                None => {
                    proof {
                        assert(!spec_emits(tag, nodes@, i as int, gb));
                        assert(em_i1 =~= em_i);
                    }
                },
            }
        } else {
            proof {
                assert(!spec_emits(tag, nodes@, i as int, gb));
                assert(em_i1 =~= em_i);
            }
        }
        i = i + 1;
    }
    proof {
        assert(emitted_nodes(tag, nodes@, gb) == emitted_upto(tag, nodes@, gb, n as int));
    }
    Ok(chunks)
}

/// Chunks a file, detecting its language from the filename through the
/// given matcher: exactly the chunks of the detected tag's emitting nodes.
/// A filename whose matches name no recognized language fails with
/// `UnsupportedExtension`, carrying the filename's extension.
pub fn chunk_with(
    matcher: &FiletypeMatcher,
    content: &str,
    path: &str,
    file_mtime: u64,
    file_ctime: u64,
) -> (r: Result<Vec<Chunk>, ChunkError>)
    ensures
        ({
            let d = matcher.spec_detect(spec_filename_of(path@));
            &&& (d is None <==> r matches Err(ChunkError::UnsupportedExtension(_)))
            &&& (d matches Some(tag) ==> spec_chunk_result(
                r,
                tag,
                content@,
                path@,
                file_mtime,
                file_ctime,
            ))
        }),
        r matches Ok(chunks) ==> forall|i: int|
            0 <= i < chunks@.len() ==> wf_chunk_record(
                #[trigger] chunks@[i],
                path@,
                content@,
                file_mtime,
                file_ctime,
            ),
        r matches Err(ChunkError::UnsupportedExtension(e)) ==> ({
            let ext = spec_extension_of(spec_filename_of(path@));
            (ext matches Some(x) ==> e@ == x) && (ext is None ==> e@ == "no extension"@)
        }),
{
    let name = filename_of(path);
    match matcher.detect_language(name.as_str()) {
        Some(tag) => chunk_in_language(tag, content, path, file_mtime, file_ctime),
        None => {
            let ext = match extension_of(name.as_str()) {
                Some(e) => e,
                None => {
                    let mut s = String::new();
                    s.append("no extension");
                    s
                },
            };
            Err(ChunkError::UnsupportedExtension(ext))
        },
    }
}

/// Chunks a file, building the filename matcher from ripgrep's defaults
/// first: the outcome is a function of the content and the path.
pub fn chunk(content: &str, path: &str, file_mtime: u64, file_ctime: u64) -> (r: Result<
    Vec<Chunk>,
    ChunkError,
>)
    ensures
        !crate::filetype::default_matcher_ok() ==> (r matches Err(e) && e is ParseFailed),
        crate::filetype::default_matcher_ok() ==> ({
            let d = crate::filetype::spec_default_detect(spec_filename_of(path@));
            &&& (d is None <==> r matches Err(ChunkError::UnsupportedExtension(_)))
            &&& (d matches Some(tag) ==> spec_chunk_result(
                r,
                tag,
                content@,
                path@,
                file_mtime,
                file_ctime,
            ))
        }),
        r matches Ok(chunks) ==> forall|i: int|
            0 <= i < chunks@.len() ==> wf_chunk_record(
                #[trigger] chunks@[i],
                path@,
                content@,
                file_mtime,
                file_ctime,
            ),
        r matches Err(ChunkError::UnsupportedExtension(e)) ==> ({
            let ext = spec_extension_of(spec_filename_of(path@));
            (ext matches Some(x) ==> e@ == x) && (ext is None ==> e@ == "no extension"@)
        }),
{
    match FiletypeMatcher::new() {
        Some(m) => {
            proof {
                let pairs = crate::filetype::default_pairs();
                assert(m.spec_names() =~= Seq::new(pairs.len(), |k: int| pairs[k].0));
                assert(m.spec_patterns() =~= Seq::new(pairs.len(), |k: int| pairs[k].1));
                assert(m.spec_detect(spec_filename_of(path@))
                    == crate::filetype::spec_default_detect(spec_filename_of(path@)));
            }
            chunk_with(&m, content, path, file_mtime, file_ctime)
        },
        None => Err(ChunkError::ParseFailed("filetype matcher unavailable".to_owned())),
    }
}

/// The walker hands a file to the chunker only when it is non-empty and at
/// most 1,000,000 bytes; anything else is skipped as not source code.
pub fn should_read_file(file_size: u64) -> (r: bool)
    ensures
        r == (1 <= file_size <= 1000000),
{
    1 <= file_size && file_size <= 1000000
}

/// Chunks a file's raw bytes: bytes that are not valid UTF-8, and filenames
/// of no recognized language, yield no chunks rather than an error; on
/// valid UTF-8 and a recognized language the outcome is the emission over
/// the decoded content.
pub fn chunk_file_bytes(
    matcher: &FiletypeMatcher,
    bytes: &[u8],
    path: &str,
    file_mtime: u64,
    file_ctime: u64,
) -> (r: Result<Vec<Chunk>, ChunkError>)
    ensures
        !vstd::utf8::valid_utf8(bytes@) ==> (r matches Ok(chunks) && chunks@.len() == 0),
        ({
            let d = matcher.spec_detect(spec_filename_of(path@));
            &&& ((vstd::utf8::valid_utf8(bytes@) && d is None) ==> (r matches Ok(chunks)
                && chunks@.len() == 0))
            &&& (vstd::utf8::valid_utf8(bytes@) ==> (d matches Some(tag)
                ==> spec_chunk_result(
                r,
                tag,
                vstd::utf8::decode_utf8(bytes@),
                path@,
                file_mtime,
                file_ctime,
            )))
        }),
        r matches Ok(chunks) ==> forall|i: int|
            0 <= i < chunks@.len() ==> wf_chunk_record(
                #[trigger] chunks@[i],
                path@,
                vstd::utf8::decode_utf8(bytes@),
                file_mtime,
                file_ctime,
            ),
        r matches Err(e) ==> e is ParseFailed,
{
    let s = match crate::strutil::bytes_to_str(bytes) {
        Some(s) => s,
        None => {
            return Ok(Vec::new());
        },
    };
    match chunk_with(matcher, s, path, file_mtime, file_ctime) {
        Ok(cs) => Ok(cs),
        Err(ChunkError::UnsupportedExtension(_)) => Ok(Vec::new()),
        Err(e) => Err(e),
    }
}

/// The file-level hash record the synchronizer's cheap diff uses: a single
/// chunk per file whose identifier is the file hash itself.
pub fn file_hash_chunk(path: &str, bytes: &[u8], file_mtime: u64, file_ctime: u64) -> (r: Chunk)
    ensures
        r.id == xxh3(bytes@) && r.file_hash == xxh3(bytes@) && r.chunk_hash == xxh3(bytes@),
        r.path@ == path@,
        r.start_line == 1 && r.end_line == 1,
        r.file_mtime == file_mtime && r.file_ctime == file_ctime,
        r.content is None && r.vector is None && r.distance is None,
{
    let h = xxh3_64(bytes);
    Chunk {
        id: h,
        vector: None,
        path: path.to_owned(),
        start_line: 1,
        end_line: 1,
        file_hash: h,
        chunk_hash: h,
        file_mtime,
        file_ctime,
        content: None,
        distance: None,
    }
}

/// What chunking one file produced, with the timings its caller measured.
pub struct ChunkFileResult {
    pub chunks: Vec<Chunk>,
    pub read_time_ms: u128,
    pub utf_time_ms: u128,
    pub parse_time_ms: u128,
    pub file_size: u64,
}

} // verus!

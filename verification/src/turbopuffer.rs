//! The remote index client's verified core: how error payloads are
//! classified, how a full-namespace scan paginates, how upload batches are
//! cut, and the record shape a chunk takes on the wire. The HTTP requests
//! themselves live with the caller.

use vstd::prelude::*;
use crate::chunker::Chunk;
use crate::strutil::{contains_substring, has_substring, str_eq};
use crate::vectors::{b64_encode, pack_le, vector_to_base64};

verus! {

/// Why a remote index operation failed.
pub enum TurbopufferError {
    MissingApiKey,
    RequestFailed(String),
    NamespaceNotFound(String),
    ApiError(String),
    JoinError(String),
    JsonError(String),
}

impl TurbopufferError {
    /// The error rendered for the user.
    pub fn message(&self) -> (r: String)
        ensures
            *self is MissingApiKey ==> r@ == "Missing TURBOPUFFER_API_KEY"@,
            self matches TurbopufferError::RequestFailed(e) ==> r@ == "Request failed: "@ + e@,
            self matches TurbopufferError::NamespaceNotFound(e) ==> r@ == "Namespace not found: "@
                + e@,
            self matches TurbopufferError::ApiError(e) ==> r@ == "API error: "@ + e@,
            self matches TurbopufferError::JoinError(e) ==> r@ == "Join error: "@ + e@,
            self matches TurbopufferError::JsonError(e) ==> r@ == "JSON error: "@ + e@,
    {
        let mut s = String::new();
        match self {
            TurbopufferError::MissingApiKey => {
                s.append("Missing TURBOPUFFER_API_KEY");
            },
            TurbopufferError::RequestFailed(e) => {
                s.append("Request failed: ");
                s.append(e.as_str());
            },
            TurbopufferError::NamespaceNotFound(e) => {
                s.append("Namespace not found: ");
                s.append(e.as_str());
            },
            TurbopufferError::ApiError(e) => {
                s.append("API error: ");
                s.append(e.as_str());
            },
            TurbopufferError::JoinError(e) => {
                s.append("Join error: ");
                s.append(e.as_str());
            },
            TurbopufferError::JsonError(e) => {
                s.append("JSON error: ");
                s.append(e.as_str());
            },
        }
        s
    }
}

/// Whether an error payload reports a missing namespace: it mentions both
/// the namespace and that something was not found.
pub open spec fn spec_namespace_not_found(text: Seq<char>) -> bool {
    has_substring(text, "namespace"@) && has_substring(text, "not found"@)
}

/// Classifies a failed request's payload: a missing namespace is recognized
/// by its text, anything else is an API error; either way the payload is
/// carried along.
pub fn classify_error_text(text: String) -> (r: TurbopufferError)
    ensures
        spec_namespace_not_found(text@) ==> (r matches TurbopufferError::NamespaceNotFound(t)
            && t@ == text@),
        !spec_namespace_not_found(text@) ==> (r matches TurbopufferError::ApiError(t) && t@
            == text@),
{
    if contains_substring(text.as_str(), "namespace") && contains_substring(
        text.as_str(),
        "not found",
    ) {
        TurbopufferError::NamespaceNotFound(text)
    } else {
        TurbopufferError::ApiError(text)
    }
}

/// The page size of a full-namespace scan.
pub const PAGE_SIZE: usize = 1200;

/// What a full-namespace scan does after a page comes back.
pub enum PageStep {
    /// Fetch another page of rows whose id exceeds this one.
    Continue(u64),
    /// The page was empty or short: the scan is complete.
    Done,
}

/// Decides a scan's next step: stop on an empty or short page, otherwise
/// continue after the page's last id.
pub fn page_step(batch: &Vec<Chunk>, page_size: usize) -> (r: PageStep)
    ensures
        (batch@.len() == 0 || batch@.len() < page_size) <==> r is Done,
        r matches PageStep::Continue(id) ==> batch@.len() >= page_size && batch@.len() > 0 && id
            == batch@.last().id,
{
    let n = batch.len();
    if n == 0 || n < page_size {
        PageStep::Done
    } else {
        PageStep::Continue(batch[n - 1].id)
    }
}

/// Where a scan's page begins: at the start of the namespace, or strictly
/// after a previous page's last id.
pub enum PageStart {
    FromStart,
    After(u64),
}

/// The filter for the next page: the first page scans from the start, every
/// later page starts strictly after the last id seen.
pub fn next_page_start(last_id: u64) -> (r: PageStart)
    ensures
        last_id == 0 ==> r is FromStart,
        last_id > 0 ==> (r matches PageStart::After(id) && id == last_id),
{
    if last_id == 0 {
        PageStart::FromStart
    } else {
        PageStart::After(last_id)
    }
}

/// The batch size of the upload pipeline.
pub const UPLOAD_BATCH_SIZE: usize = 1000;

/// The number of in-flight upsert requests.
pub const UPLOAD_CONCURRENCY: usize = 4;

/// The delete filter attached to an upsert request: an equality over the
/// path attribute, or an OR of such equalities.
pub enum DeleteFilter {
    Single(String),
    AnyOf(Vec<String>),
}

/// Whether some string in `r` reads `p`.
pub open spec fn holds_path(r: Seq<String>, p: Seq<char>) -> bool {
    exists|j: int| 0 <= j < r.len() && (#[trigger] r[j])@ == p
}

/// A held path is still held after pushing one more string.
proof fn lemma_holds_path_push(r: Seq<String>, s: String, p: Seq<char>)
    requires
        holds_path(r, p),
    ensures
        holds_path(r.push(s), p),
{
    let j = choose|j: int| 0 <= j < r.len() && (#[trigger] r[j])@ == p;
    assert(r.push(s)[j]@ == p);
}

/// Whether a string sequence holds `s`.
fn contains_str(v: &Vec<String>, s: &str) -> (r: bool)
    ensures
        r == holds_path(v@, s@),
{
    let n = v.len();
    let mut i: usize = 0;
    while i < n
        invariant
            n == v@.len(),
            i <= n,
            forall|j: int| 0 <= j < i ==> (#[trigger] v@[j])@ != s@,
        decreases n - i,
    {
        if str_eq(v[i].as_str(), s) {
            return true;
        }
        i = i + 1;
    }
    false
}

/// The set of paths carried by a chunk sequence.
pub open spec fn paths_of(cs: Seq<Chunk>) -> Set<Seq<char>> {
    Set::new(|p: Seq<char>| exists|i: int| 0 <= i < cs.len() && cs[i].path@ == p)
}

/// The distinct paths of the chunks to delete, first occurrence first:
/// deletion is by file path, deduplicated.
pub fn stale_paths(deletes: &Vec<Chunk>) -> (r: Vec<String>)
    ensures
        forall|i: int, j: int| 0 <= i < j < r@.len() ==> (#[trigger] r@[i])@ != (#[trigger] r@[j])@,
        forall|i: int| 0 <= i < r@.len() ==> paths_of(deletes@).contains((#[trigger] r@[i])@),
        forall|i: int| 0 <= i < deletes@.len() ==> holds_path(r@, (#[trigger] deletes@[i]).path@),
{
    let mut out: Vec<String> = Vec::new();
    let n = deletes.len();
    let mut i: usize = 0;
    while i < n
        invariant
            n == deletes@.len(),
            i <= n,
            forall|a: int, b: int|
                0 <= a < b < out@.len() ==> (#[trigger] out@[a])@ != (#[trigger] out@[b])@,
            forall|a: int|
                0 <= a < out@.len() ==> paths_of(deletes@).contains((#[trigger] out@[a])@),
            forall|a: int| 0 <= a < i ==> holds_path(out@, (#[trigger] deletes@[a]).path@),
        decreases n - i,
    {
        let ghost prev = out@;
        let p = &deletes[i].path;
        if !contains_str(&out, p.as_str()) {
            out.push(p.clone());
            proof {
                assert(deletes@[i as int].path@ == out@[out@.len() - 1]@);
                assert(paths_of(deletes@).contains(out@[out@.len() - 1]@));
                assert forall|a: int| 0 <= a < i + 1 implies holds_path(
                    out@,
                    (#[trigger] deletes@[a]).path@,
                ) by {
                    if a == i as int {
                        assert(out@[out@.len() - 1]@ == deletes@[a].path@);
                    } else {
                        lemma_holds_path_push(prev, out@[out@.len() - 1], deletes@[a].path@);
                        assert(prev.push(out@[out@.len() - 1]) =~= out@);
                    }
                }
            }
        } else {
            proof {
                assert(holds_path(out@, deletes@[i as int].path@));
            }
        }
        i = i + 1;
    }
    out
}

/// Builds the delete filter for a set of stale paths: none when there is
/// nothing to delete, a single path equality for one path, an OR of
/// equalities for several.
pub fn delete_filter(paths: Vec<String>) -> (r: Option<DeleteFilter>)
    ensures
        (r is None) <==> paths@.len() == 0,
        r matches Some(DeleteFilter::Single(p)) ==> paths@.len() == 1 && p == paths@[0],
        r matches Some(DeleteFilter::AnyOf(v)) ==> paths@.len() > 1 && v@ == paths@,
        paths@.len() == 1 ==> r matches Some(DeleteFilter::Single(_)),
        paths@.len() > 1 ==> r matches Some(DeleteFilter::AnyOf(_)),
{
    if paths.len() == 0 {
        None
    } else if paths.len() == 1 {
        let mut paths = paths;
        match paths.pop() {
            Some(p) => Some(DeleteFilter::Single(p)),
            None => {
                proof {
                    assert(false);
                }
                None
            },
        }
    } else {
        Some(DeleteFilter::AnyOf(paths))
    }
}

/// A delete filter travels only on a scan's first upsert batch; every later
/// batch carries upserts alone.
pub fn filter_for_batch(batch_index: usize, filter: Option<&DeleteFilter>) -> (r: Option<
    &DeleteFilter,
>)
    ensures
        batch_index == 0 ==> r == filter,
        batch_index > 0 ==> r is None,
{
    if batch_index == 0 {
        filter
    } else {
        None
    }
}

/// A chunk as an upsert row: the fields of the data model minus the local
/// content and the search distance, the vector already base64-encoded.
pub struct ChunkForUpload {
    pub id: u64,
    pub vector: Option<String>,
    pub path: String,
    pub start_line: u32,
    pub end_line: u32,
    pub file_hash: u64,
    pub chunk_hash: u64,
    pub file_mtime: u64,
    pub file_ctime: u64,
}

impl ChunkForUpload {
    /// Shapes a chunk for upload: every identifying field is carried over
    /// unchanged, and the vector, when present, becomes the base64 of its
    /// packed little-endian floats.
    pub fn from(chunk: Chunk) -> (r: ChunkForUpload)
        ensures
            r.id == chunk.id,
            r.path == chunk.path,
            r.start_line == chunk.start_line && r.end_line == chunk.end_line,
            r.file_hash == chunk.file_hash && r.chunk_hash == chunk.chunk_hash,
            r.file_mtime == chunk.file_mtime && r.file_ctime == chunk.file_ctime,
            chunk.vector matches Some(v) ==> (r.vector matches Some(s) && s@ == b64_encode(
                pack_le(v@),
            )),
            chunk.vector is None ==> r.vector is None,
    {
        let vector = match &chunk.vector {
            Some(v) => Some(vector_to_base64(v)),
            None => None,
        };
        ChunkForUpload {
            id: chunk.id,
            vector,
            path: chunk.path,
            start_line: chunk.start_line,
            end_line: chunk.end_line,
            file_hash: chunk.file_hash,
            chunk_hash: chunk.chunk_hash,
            file_mtime: chunk.file_mtime,
            file_ctime: chunk.file_ctime,
        }
    }
}

} // verus!

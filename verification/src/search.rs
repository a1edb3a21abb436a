//! The search path: query validation, extraction of the query vector,
//! hydration of result content from file lines, the ripgrep-style output
//! format, and the decision table of the speculative search that races a
//! query against a background synchronization.

use vstd::prelude::*;
use crate::chunker::Chunk;
use crate::embeddings::{EmbedResult, EmbeddingError};
use crate::turbopuffer::TurbopufferError;
use crate::strutil::str_to_chars;

verus! {

/// Why a search failed.
pub enum SearchError {
    EmptyQuery,
    NoEmbedding,
    NamespaceNotFound,
    IndexBuildFailed(String),
    TurbopufferError(TurbopufferError),
    EmbeddingError(EmbeddingError),
    NamespaceError(String),
}

impl SearchError {
    /// The error rendered for the user.
    pub fn message(&self) -> (r: String)
        ensures
            *self is EmptyQuery ==> r@ == "Empty query provided"@,
            *self is NoEmbedding ==> r@ == "No embedding returned for query"@,
            *self is NamespaceNotFound ==> r@ == "Namespace not found"@,
            self matches SearchError::IndexBuildFailed(e) ==> r@ == "Failed to build index: "@
                + e@,
            self matches SearchError::NamespaceError(e) ==> r@
                == "Namespace and directory error: "@ + e@,
    {
        let mut s = String::new();
        match self {
            SearchError::EmptyQuery => {
                s.append("Empty query provided");
            },
            SearchError::NoEmbedding => {
                s.append("No embedding returned for query");
            },
            SearchError::NamespaceNotFound => {
                s.append("Namespace not found");
            },
            SearchError::IndexBuildFailed(e) => {
                s.append("Failed to build index: ");
                s.append(e.as_str());
            },
            SearchError::TurbopufferError(e) => {
                s.append("Turbopuffer error: ");
                s.append(e.message().as_str());
            },
            SearchError::EmbeddingError(e) => {
                s.append("Embedding error: ");
                s.append(e.message().as_str());
            },
            SearchError::NamespaceError(e) => {
                s.append("Namespace and directory error: ");
                s.append(e.as_str());
            },
        }
        s
    }
}

/// The characters str::trim strips: Unicode whitespace.
pub open spec fn is_ws_char(c: char) -> bool {
    c == ' ' || c == '\u{9}' || c == '\u{a}' || c == '\u{b}' || c == '\u{c}' || c == '\u{d}' || c
        == '\u{85}' || c == '\u{a0}' || c == '\u{1680}' || c == '\u{2000}' || c == '\u{2001}' || c
        == '\u{2002}' || c == '\u{2003}' || c == '\u{2004}' || c == '\u{2005}' || c == '\u{2006}'
        || c == '\u{2007}' || c == '\u{2008}' || c == '\u{2009}' || c == '\u{200a}' || c
        == '\u{2028}' || c == '\u{2029}' || c == '\u{202f}' || c == '\u{205f}' || c == '\u{3000}'
}

/// Decides whether a character is whitespace.
fn is_ws(c: char) -> (r: bool)
    ensures
        r == is_ws_char(c),
{
    c == ' ' || c == '\u{9}' || c == '\u{a}' || c == '\u{b}' || c == '\u{c}' || c == '\u{d}' || c
        == '\u{85}' || c == '\u{a0}' || c == '\u{1680}' || c == '\u{2000}' || c == '\u{2001}' || c
        == '\u{2002}' || c == '\u{2003}' || c == '\u{2004}' || c == '\u{2005}' || c == '\u{2006}'
        || c == '\u{2007}' || c == '\u{2008}' || c == '\u{2009}' || c == '\u{200a}' || c
        == '\u{2028}' || c == '\u{2029}' || c == '\u{202f}' || c == '\u{205f}' || c == '\u{3000}'
}

/// Whether a string is blank: nothing but whitespace (so its trim is empty).
pub open spec fn spec_blank(s: Seq<char>) -> bool {
    forall|i: int| 0 <= i < s.len() ==> is_ws_char(#[trigger] s[i])
}

/// Rejects a blank query; any other query passes.
pub fn validate_query(query: &str) -> (r: Result<(), SearchError>)
    ensures
        r is Err <==> spec_blank(query@),
        r matches Err(e) ==> e is EmptyQuery,
{
    let cs = str_to_chars(query);
    let n = cs.len();
    let mut i: usize = 0;
    while i < n
        invariant
            n == cs@.len(),
            cs@ == query@,
            i <= n,
            forall|j: int| 0 <= j < i ==> is_ws_char(#[trigger] query@[j]),
        decreases n - i,
    {
        if !is_ws(cs[i]) {
            return Ok(());
        }
        i = i + 1;
    }
    Err(SearchError::EmptyQuery)
}

/// Takes the query's vector out of an embedding result: the first chunk's
/// vector, or `NoEmbedding` when no vector came back.
pub fn query_vector_of(result: EmbedResult) -> (r: Result<Vec<u32>, SearchError>)
    ensures
        (result.chunks@.len() > 0 && result.chunks@[0].vector is Some) <==> r is Ok,
        r matches Ok(v) ==> result.chunks@[0].vector == Some(v),
        r matches Err(e) ==> e is NoEmbedding,
{
    let mut chunks = result.chunks;
    if chunks.len() == 0 {
        return Err(SearchError::NoEmbedding);
    }
    let ghost cs = chunks@;
    chunks.truncate(1);
    proof {
        assert(chunks@ =~= cs.subrange(0, 1));
    }
    match chunks.pop() {
        Some(first) => {
            proof {
                assert(first == cs[0]);
            }
            match first.vector {
                Some(v) => Ok(v),
                None => Err(SearchError::NoEmbedding),
            }
        },
        None => {
            proof {
                assert(false);
            }
            Err(SearchError::NoEmbedding)
        },
    }
}

/// The lines joined by newlines.
pub open spec fn join_lines(ls: Seq<Seq<char>>) -> Seq<char>
    decreases ls.len(),
{
    if ls.len() == 0 {
        Seq::empty()
    } else if ls.len() == 1 {
        ls[0]
    } else {
        join_lines(ls.drop_last()) + seq!['\n'] + ls.last()
    }
}

/// The line range a chunk selects from its file's lines: the 1-based
/// inclusive range, clipped to the lines that exist.
pub open spec fn spec_selected_lines(lines: Seq<Seq<char>>, start_line: u32, end_line: u32) -> Seq<
    Seq<char>,
> {
    let lo = start_line - 1;
    let hi = if end_line as int <= lines.len() {
        end_line as int
    } else {
        lines.len() as int
    };
    if lo < hi {
        lines.subrange(lo as int, hi)
    } else {
        Seq::empty()
    }
}

/// Re-reads a chunk's content from its file's lines: the chunk's line range
/// joined by newlines. A chunk whose range selects no line — the file
/// shrank or vanished — keeps the content it had; everything else is kept
/// either way.
pub fn load_chunk_content(chunk: &mut Chunk, lines: &Vec<String>)
    requires
        1 <= old(chunk).start_line <= old(chunk).end_line,
    ensures
        ({
            let sel = spec_selected_lines(
                lines@.map_values(|l: String| l@),
                old(chunk).start_line,
                old(chunk).end_line,
            );
            &&& (sel.len() > 0 ==> (final(chunk).content matches Some(s) && s@ == join_lines(
                sel,
            )))
            &&& (sel.len() == 0 ==> final(chunk).content == old(chunk).content)
        }),
        final(chunk).id == old(chunk).id && final(chunk).path == old(chunk).path,
        final(chunk).start_line == old(chunk).start_line && final(chunk).end_line == old(
            chunk,
        ).end_line,
        final(chunk).file_hash == old(chunk).file_hash && final(chunk).chunk_hash == old(
            chunk,
        ).chunk_hash,
        final(chunk).file_mtime == old(chunk).file_mtime && final(chunk).file_ctime == old(
            chunk,
        ).file_ctime,
        final(chunk).vector == old(chunk).vector && final(chunk).distance == old(chunk).distance,
{
    let ghost views = lines@.map_values(|l: String| l@);
    let lo = (chunk.start_line - 1) as usize;
    let n = lines.len();
    let hi = if (chunk.end_line as usize) <= n {
        chunk.end_line as usize
    } else {
        n
    };
    if lo >= hi {
        return ;
    }
    let mut content = String::new();
    let mut i: usize = lo;
    while i < hi
        invariant
            lo < hi <= n,
            n == lines@.len(),
            views == lines@.map_values(|l: String| l@),
            lo <= i <= hi,
            i > lo ==> content@ == join_lines(views.subrange(lo as int, i as int)),
            i == lo ==> content@ == Seq::<char>::empty(),
        decreases hi - i,
    {
        if i > lo {
            content.append("\n");
        }
        content.append(lines[i].as_str());
        proof {
            let sub = views.subrange(lo as int, i + 1 as int);
            assert(sub.drop_last() =~= views.subrange(lo as int, i as int));
            assert(sub.last() == views[i as int]);
            assert(views[i as int] == lines@[i as int]@);
            if i > lo {
                reveal_strlit("\n");
                assert("\n"@ =~= seq!['\n']);
                assert(content@ == join_lines(sub.drop_last()) + seq!['\n'] + sub.last());
            } else {
                assert(sub.len() == 1);
                assert(content@ =~= sub[0]);
            }
        }
        i = i + 1;
    }
    chunk.content = Some(content);
}

/// Decimal digits.
pub const DEC_DIGITS: [char; 10] = ['0', '1', '2', '3', '4', '5', '6', '7', '8', '9'];

/// The decimal rendering of `x`, most significant digit first.
pub open spec fn spec_dec(x: u64) -> Seq<char>
    decreases x,
{
    if x < 10 {
        seq![DEC_DIGITS@[x as int]]
    } else {
        spec_dec(x / 10) + seq![DEC_DIGITS@[(x % 10) as int]]
    }
}

/// Appends the decimal rendering of `x`.
fn push_dec(x: u64, out: &mut Vec<char>)
    ensures
        final(out)@ == old(out)@ + spec_dec(x),
    decreases x,
{
    if x < 10 {
        out.push(DEC_DIGITS[x as usize]);
    } else {
        push_dec(x / 10, out);
        out.push(DEC_DIGITS[(x % 10) as usize]);
    }
}

/// Renders `x` in decimal.
fn dec_string(x: u64) -> (r: String)
    ensures
        r@ == spec_dec(x),
{
    let mut out: Vec<char> = Vec::new();
    push_dec(x, &mut out);
    crate::strutil::chars_to_string(out)
}

/// A path relative to the root directory: the remainder after the root and
/// its separator (after the root alone when the root is the filesystem
/// root), the empty path for the root itself, and the full path when it
/// does not lie under the root.
pub open spec fn spec_rel_path(path: Seq<char>, root: Seq<char>) -> Seq<char> {
    if root == seq!['/'] && path.len() > 1 && path[0] == '/' {
        path.skip(1)
    } else if root.len() < path.len() && path.take(root.len() as int) == root && path[root.len() as int]
        == '/' {
        path.skip(root.len() as int + 1)
    } else if path == root {
        Seq::empty()
    } else {
        path
    }
}

/// Makes a path relative to the root directory.
fn rel_path(path: &str, root: &str) -> (r: String)
    ensures
        r@ == spec_rel_path(path@, root@),
{
    let pcs = str_to_chars(path);
    let rcs = str_to_chars(root);
    let pn = pcs.len();
    let rn = rcs.len();
    if rn == 1 && rcs[0] == '/' && pn > 1 && pcs[0] == '/' {
        proof {
            assert(root@ =~= seq!['/']);
        }
        let rest = crate::strutil::subrange_vec(pcs.as_slice(), 1, pn);
        proof {
            assert(pcs@.subrange(1, pn as int) =~= path@.skip(1));
        }
        return crate::strutil::chars_to_string(rest);
    }
    if rn < pn && crate::strutil::match_at(&pcs, &rcs, 0) && pcs[rn] == '/' {
        let rest = crate::strutil::subrange_vec(pcs.as_slice(), rn + 1, pn);
        proof {
            assert(pcs@.subrange(0, rn as int) =~= path@.take(rn as int));
            assert(pcs@.subrange(rn + 1 as int, pn as int) =~= path@.skip(rn + 1 as int));
        }
        crate::strutil::chars_to_string(rest)
    } else if crate::strutil::str_eq(path, root) {
        String::new()
    } else {
        let mut s = String::new();
        s.append(path);
        s
    }
}

/// The length of a string's first line: the characters before its first
/// newline, or all of it.
pub open spec fn line_len(s: Seq<char>) -> int
    decreases s.len(),
{
    if s.len() == 0 {
        0
    } else if s[0] == '\n' {
        0
    } else {
        1 + line_len(s.drop_first())
    }
}

/// A string with leading whitespace stripped.
pub open spec fn spec_trim_start(s: Seq<char>) -> Seq<char>
    decreases s.len(),
{
    if s.len() > 0 && is_ws_char(s[0]) {
        spec_trim_start(s.drop_first())
    } else {
        s
    }
}

/// A string with trailing whitespace stripped.
pub open spec fn spec_trim_end(s: Seq<char>) -> Seq<char>
    decreases s.len(),
{
    if s.len() > 0 && is_ws_char(s.last()) {
        spec_trim_end(s.drop_last())
    } else {
        s
    }
}

/// A string with whitespace stripped from both ends, as str::trim strips it.
pub open spec fn spec_trim(s: Seq<char>) -> Seq<char> {
    spec_trim_end(spec_trim_start(s))
}

/// The first line holding at least one character, blank lines skipped.
pub open spec fn spec_first_nonempty_line(s: Seq<char>) -> Option<Seq<char>>
    decreases s.len(),
{
    if s.len() == 0 {
        None
    } else {
        let l = line_len(s);
        if l > 0 {
            Some(s.take(l))
        } else {
            spec_first_nonempty_line(s.skip(1))
        }
    }
}

/// A search hit's preview: its content's first non-empty line, trimmed, or
/// a placeholder when there is no line to show.
pub open spec fn spec_preview(content: Option<Seq<char>>) -> Seq<char> {
    match content {
        None => "[no content]"@,
        Some(s) => match spec_first_nonempty_line(s) {
            Some(line) => spec_trim(line),
            None => "[no content]"@,
        },
    }
}

/// Extracts the preview of a chunk's content.
fn preview_of(content: &Option<String>) -> (r: String)
    ensures
        r@ == spec_preview(
            match content {
                Some(s) => Some(s@),
                None => None,
            },
        ),
{
    let s = match content {
        Some(s) => s,
        None => {
            let mut p = String::new();
            p.append("[no content]");
            return p;
        },
    };
    let cs = str_to_chars(s.as_str());
    let n = cs.len();
    // Skip blank lines to the first line with a character on it.
    let mut pos: usize = 0;
    proof {
        assert(cs@.skip(0) =~= cs@);
    }
    loop
        invariant
            n == cs@.len(),
            cs@ == s@,
            (match content {
                Some(x) => x@ == cs@,
                None => false,
            }),
            pos <= n,
            spec_first_nonempty_line(cs@) == spec_first_nonempty_line(cs@.skip(pos as int)),
        decreases n - pos,
    {
        if pos >= n {
            proof {
                assert(cs@.skip(pos as int) =~= Seq::<char>::empty());
            }
            let mut p = String::new();
            p.append("[no content]");
            return p;
        }
        // The current line's end.
        let mut e: usize = pos;
        proof {
            assert(cs@.skip(pos as int).skip(0) =~= cs@.skip(pos as int));
        }
        while e < n && cs[e] != '\n'
            invariant
                n == cs@.len(),
                pos <= e <= n,
                line_len(cs@.skip(pos as int)) == e - pos + line_len(cs@.skip(e as int)),
            decreases n - e,
        {
            proof {
                assert(cs@.skip(e as int)[0] == cs@[e as int]);
                assert(cs@.skip(e as int).drop_first() =~= cs@.skip(e + 1 as int));
            }
            e = e + 1;
        }
        proof {
            if e < n {
                assert(cs@.skip(e as int)[0] == cs@[e as int]);
            }
            assert(line_len(cs@.skip(pos as int)) == e - pos);
        }
        if e == pos {
            // A blank line: step over its newline.
            proof {
                assert(cs@.skip(pos as int).skip(1) =~= cs@.skip(pos + 1 as int));
            }
            pos = pos + 1;
        } else {
            // Trim the line and return it.
            let ghost fline = cs@.subrange(pos as int, e as int);
            proof {
                assert(cs@.skip(pos as int).take(e - pos) =~= fline);
                assert(spec_first_nonempty_line(cs@) == Some(fline));
            }
            let mut a: usize = pos;
            proof {
                assert(fline.subrange(0, e - pos) =~= fline);
            }
            while a < e && is_ws(cs[a])
                invariant
                    pos <= a <= e <= n == cs@.len(),
                    fline == cs@.subrange(pos as int, e as int),
                    spec_trim_start(fline) == spec_trim_start(
                        fline.subrange(a - pos, e - pos),
                    ),
                decreases e - a,
            {
                proof {
                    assert(fline.subrange(a - pos, e - pos)[0] == cs@[a as int]);
                    assert(fline.subrange(a - pos, e - pos).drop_first() =~= fline.subrange(
                        a + 1 - pos,
                        e - pos,
                    ));
                }
                a = a + 1;
            }
            proof {
                if a < e {
                    assert(fline.subrange(a - pos, e - pos)[0] == cs@[a as int]);
                }
                assert(spec_trim_start(fline) == fline.subrange(a - pos, e - pos));
            }
            let mut b: usize = e;
            while b > a && is_ws(cs[b - 1])
                invariant
                    pos <= a <= b <= e <= n == cs@.len(),
                    fline == cs@.subrange(pos as int, e as int),
                    spec_trim_start(fline) == fline.subrange(a - pos, e - pos),
                    spec_trim_end(fline.subrange(a - pos, e - pos)) == spec_trim_end(
                        fline.subrange(a - pos, b - pos),
                    ),
                decreases b,
            {
                proof {
                    assert(fline.subrange(a - pos, b - pos).last() == cs@[b - 1]);
                    assert(fline.subrange(a - pos, b - pos).drop_last() =~= fline.subrange(
                        a - pos,
                        b - 1 - pos,
                    ));
                }
                b = b - 1;
            }
            proof {
                if b > a {
                    assert(fline.subrange(a - pos, b - pos).last() == cs@[b - 1]);
                }
                assert(spec_trim_end(fline.subrange(a - pos, e - pos)) == fline.subrange(
                    a - pos,
                    b - pos,
                ));
                assert(fline.subrange(a - pos, b - pos) =~= cs@.subrange(a as int, b as int));
            }
            let body = crate::strutil::subrange_vec(cs.as_slice(), a, b);
            return crate::strutil::chars_to_string(body);
        }
    }
}

/// One output line: `path:line[:score]:preview`, the path relative to the
/// root and the score column present only when scores were requested.
pub open spec fn spec_format_chunk(c: Chunk, root: Seq<char>, show_scores: bool) -> Seq<char> {
    let head = spec_rel_path(c.path@, root) + ":"@ + spec_dec(c.start_line as u64);
    let scored = if show_scores {
        head + ":"@ + (match c.distance {
            Some(d) => d@,
            None => "n/a"@,
        })
    } else {
        head
    };
    scored + ":"@ + spec_preview(
        match c.content {
            Some(s) => Some(s@),
            None => None,
        },
    )
}

/// The search output: one line per chunk, joined by newlines.
pub open spec fn spec_format(cs: Seq<Chunk>, root: Seq<char>, show_scores: bool) -> Seq<char>
    decreases cs.len(),
{
    if cs.len() == 0 {
        Seq::empty()
    } else if cs.len() == 1 {
        spec_format_chunk(cs[0], root, show_scores)
    } else {
        spec_format(cs.drop_last(), root, show_scores) + "\n"@ + spec_format_chunk(
            cs.last(),
            root,
            show_scores,
        )
    }
}

/// Renders search results in the ripgrep style: one chunk per line as
/// `path:line[:score]:preview`, the score column inserted when requested.
pub fn chunks_to_ripgrep_format(chunks: Vec<Chunk>, root_dir: &str, show_scores: bool) -> (r:
    String)
    ensures
        r@ == spec_format(chunks@, root_dir@, show_scores),
{
    let mut out = String::new();
    let n = chunks.len();
    let mut i: usize = 0;
    while i < n
        invariant
            n == chunks@.len(),
            i <= n,
            out@ == spec_format(chunks@.take(i as int), root_dir@, show_scores),
        decreases n - i,
    {
        if i > 0 {
            out.append("\n");
        }
        let c = &chunks[i];
        let mut line = rel_path(c.path.as_str(), root_dir);
        line.append(":");
        let num = dec_string(c.start_line as u64);
        line.append(num.as_str());
        if show_scores {
            line.append(":");
            match &c.distance {
                Some(d) => {
                    line.append(d.as_str());
                },
                None => {
                    line.append("n/a");
                },
            }
        }
        line.append(":");
        let pv = preview_of(&c.content);
        line.append(pv.as_str());
        out.append(line.as_str());
        proof {
            assert(line@ == spec_format_chunk(chunks@[i as int], root_dir@, show_scores));
            let sub = chunks@.take(i + 1 as int);
            assert(sub.drop_last() =~= chunks@.take(i as int));
            assert(sub.last() == chunks@[i as int]);
            if i > 0 {
                assert(out@ == spec_format(sub.drop_last(), root_dir@, show_scores) + "\n"@
                    + spec_format_chunk(sub.last(), root_dir@, show_scores));
            } else {
                assert(sub.len() == 1);
                assert(out@ == spec_format_chunk(sub[0], root_dir@, show_scores));
            }
        }
        i = i + 1;
    }
    proof {
        assert(chunks@.take(n as int) =~= chunks@);
    }
    out
}

/// How the search task ended.
pub enum SearchOutcome {
    /// The formatted results.
    Found(String),
    /// The search failed.
    Failed(SearchError),
    /// The search task itself died; its report.
    Panicked(String),
}

/// How the synchronization task ended.
pub enum SyncOutcome {
    /// The sync finished; whether any content changed.
    Synced(bool),
    /// The sync failed; its report.
    Failed(String),
    /// The sync task itself died; its report.
    Panicked(String),
}

/// What the speculative race observed: which task finished first, and what
/// the other task then reported where the first's outcome calls for
/// awaiting it.
pub enum RaceEvent {
    /// The search finished first; the sync was awaited afterwards.
    SearchFirst(SearchOutcome, SyncOutcome),
    /// The sync finished first and reported changed content.
    SyncFirstChanged,
    /// The sync finished first and reported no change; the search was
    /// awaited afterwards.
    SyncFirstUnchanged(SearchOutcome),
    /// The sync finished first and failed; its report.
    SyncFirstFailed(String),
}

/// What the speculative search does next.
pub enum RaceAction {
    /// Return these results.
    Deliver(String),
    /// Surface this error.
    Fail(SearchError),
    /// Abort what is in flight and re-enter the race.
    Retry,
}

/// Whether a search error reports a missing namespace, the one error the
/// race recovers from.
pub open spec fn spec_namespace_missing(e: SearchError) -> bool {
    e matches SearchError::TurbopufferError(TurbopufferError::NamespaceNotFound(_))
}

/// The speculative race's decision table as a function of the observed
/// event.
pub open spec fn spec_race_decision(event: RaceEvent) -> RaceAction {
    match event {
        RaceEvent::SearchFirst(SearchOutcome::Found(res), _) => RaceAction::Deliver(res),
        RaceEvent::SearchFirst(SearchOutcome::Failed(e), sync) => {
            if spec_namespace_missing(e) {
                match sync {
                    SyncOutcome::Synced(_) => RaceAction::Retry,
                    SyncOutcome::Failed(t) => RaceAction::Fail(SearchError::IndexBuildFailed(t)),
                    SyncOutcome::Panicked(t) => RaceAction::Fail(SearchError::IndexBuildFailed(t)),
                }
            } else {
                RaceAction::Fail(e)
            }
        },
        RaceEvent::SearchFirst(SearchOutcome::Panicked(t), _) => RaceAction::Fail(
            SearchError::IndexBuildFailed(t),
        ),
        RaceEvent::SyncFirstChanged => RaceAction::Retry,
        RaceEvent::SyncFirstUnchanged(search) => match search {
            SearchOutcome::Found(res) => RaceAction::Deliver(res),
            SearchOutcome::Failed(e) => RaceAction::Fail(e),
            SearchOutcome::Panicked(t) => RaceAction::Fail(SearchError::IndexBuildFailed(t)),
        },
        RaceEvent::SyncFirstFailed(t) => RaceAction::Fail(SearchError::IndexBuildFailed(t)),
    }
}

/// Decides the speculative race. A finished search wins whenever
/// it found results. A search that failed for want of the namespace retries
/// after a successful sync and otherwise surfaces the sync's failure; any
/// other search failure stands. A sync that finished first retries the race
/// when it changed the index, defers to the search when it did not, and
/// surfaces as a failed index build when it failed.
pub fn race_decision(event: RaceEvent) -> (r: RaceAction)
    ensures
        r == spec_race_decision(event),
{
    match event {
        RaceEvent::SearchFirst(SearchOutcome::Found(res), _) => RaceAction::Deliver(res),
        RaceEvent::SearchFirst(SearchOutcome::Failed(e), sync) => {
            let missing = match &e {
                SearchError::TurbopufferError(TurbopufferError::NamespaceNotFound(_)) => true,
                _ => false,
            };
            if missing {
                match sync {
                    SyncOutcome::Synced(_) => RaceAction::Retry,
                    SyncOutcome::Failed(t) => RaceAction::Fail(SearchError::IndexBuildFailed(t)),
                    SyncOutcome::Panicked(t) => RaceAction::Fail(SearchError::IndexBuildFailed(t)),
                }
            } else {
                RaceAction::Fail(e)
            }
        },
        RaceEvent::SearchFirst(SearchOutcome::Panicked(t), _) => RaceAction::Fail(
            SearchError::IndexBuildFailed(t),
        ),
        RaceEvent::SyncFirstChanged => RaceAction::Retry,
        RaceEvent::SyncFirstUnchanged(search) => match search {
            SearchOutcome::Found(res) => RaceAction::Deliver(res),
            SearchOutcome::Failed(e) => RaceAction::Fail(e),
            SearchOutcome::Panicked(t) => RaceAction::Fail(SearchError::IndexBuildFailed(t)),
        },
        RaceEvent::SyncFirstFailed(t) => RaceAction::Fail(SearchError::IndexBuildFailed(t)),
    }
}

/// Race liveness: the decision retries only on a missing namespace healed by
/// a successful sync, or on a first sync that changed the index. After one
/// successful sync the namespace exists and a repeated sync over an
/// unchanged tree reports no change (see `lemma_diff_idempotent`), so the
/// re-raced round satisfies this lemma's premises and cannot retry again:
/// every speculative search ends within one re-race.
pub proof fn lemma_race_bounded(event: RaceEvent)
    requires
        !(event is SyncFirstChanged),
        event matches RaceEvent::SearchFirst(SearchOutcome::Failed(e), _)
            ==> !spec_namespace_missing(e),
    ensures
        !(spec_race_decision(event) is Retry),
{
}

} // verus!

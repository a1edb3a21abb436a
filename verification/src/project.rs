//! Project resolution: walk from a start path up toward the filesystem root
//! to the first directory holding a well-known project marker, and derive
//! the remote namespace name from the root's canonical path.

use vstd::prelude::*;
use vstd::utf8::encode_utf8;
use vstd::string::StringSliceAdditionalSpecFns;
use crate::hashing::{xxh3, xxh3_64};
use crate::strutil::{chars_to_string, find_last, last_index_of, lemma_last_index_of, str_to_chars, subrange_vec};

verus! {

/// Relies on std's Path::canonicalize: the absolute resolved path, or
/// nothing when resolution fails; the answer depends on the filesystem.
#[verifier::external_body]
fn canonicalize_path(path: &str) -> Option<String> {
    match std::path::Path::new(path).canonicalize() {
        Ok(p) => Some(p.to_string_lossy().to_string()),
        Err(_) => None,
    }
}

/// Relies on std's Path::join and Path::exists: whether the directory holds
/// an entry of this name; the answer depends on the filesystem.
#[verifier::external_body]
fn dir_contains(dir: &str, name: &str) -> bool {
    std::path::Path::new(dir).join(name).exists()
}

/// Relies on std's Path::exists; the answer depends on the filesystem.
#[verifier::external_body]
fn path_exists(path: &str) -> bool {
    std::path::Path::new(path).exists()
}

/// Relies on std's Path::is_dir; the answer depends on the filesystem.
#[verifier::external_body]
fn path_is_dir(path: &str) -> bool {
    std::path::Path::new(path).is_dir()
}

/// Decides a directory check from its two probe results: the path itself
/// exactly when it exists and is a directory, and otherwise the message
/// naming the probe that failed.
pub fn directory_status(path: &str, exists: bool, is_dir: bool) -> (r: Result<String, String>)
    ensures
        (exists && is_dir) ==> (r matches Ok(p) && p@ == path@),
        !exists ==> (r matches Err(e) && e@ == "Directory '"@ + path@ + "' does not exist"@),
        (exists && !is_dir) ==> (r matches Err(e) && e@ == "'"@ + path@
            + "' exists but is not a directory"@),
{
    if !exists {
        let mut e = String::new();
        e.append("Directory '");
        e.append(path);
        e.append("' does not exist");
        Err(e)
    } else if !is_dir {
        let mut e = String::new();
        e.append("'");
        e.append(path);
        e.append("' exists but is not a directory");
        Err(e)
    } else {
        let mut p = String::new();
        p.append(path);
        Ok(p)
    }
}

/// Checks that a path names an existing directory, deciding through
/// `directory_status` on what the filesystem answered.
pub fn validate_directory(path: &str) -> (r: Result<String, String>)
    ensures
        r matches Ok(p) ==> p@ == path@,
        r matches Err(e) ==> (e@ == "Directory '"@ + path@ + "' does not exist"@ || e@ == "'"@
            + path@ + "' exists but is not a directory"@),
{
    directory_status(path, path_exists(path), path_is_dir(path))
}

/// The parent of a path, as Path::parent names it on canonical paths:
/// everything before the last '/', the root's parent being nothing.
pub open spec fn spec_parent(p: Seq<char>) -> Option<Seq<char>> {
    let i = last_index_of(p, '/');
    if i > 0 {
        Some(p.take(i))
    } else if i == 0 && p.len() > 1 {
        Some(seq!['/'])
    } else {
        None
    }
}

/// Steps from a path to its parent directory.
pub fn parent_of(path: &str) -> (r: Option<String>)
    ensures
        r matches Some(s) ==> spec_parent(path@) == Some(s@) && s@.len() < path@.len(),
        r is None ==> spec_parent(path@) is None,
{
    let cs = str_to_chars(path);
    let n = cs.len();
    match find_last(&cs, '/') {
        Some(i) => {
            if i > 0 {
                let head = subrange_vec(cs.as_slice(), 0, i);
                proof {
                    assert(cs@.subrange(0, i as int) =~= path@.take(i as int));
                }
                Some(chars_to_string(head))
            } else if n > 1 {
                let mut root: Vec<char> = Vec::new();
                root.push('/');
                proof {
                    assert(root@ =~= seq!['/']);
                }
                Some(chars_to_string(root))
            } else {
                None
            }
        },
        None => None,
    }
}

/// The project markers, in the priority order they are probed in: version
/// control directories first, then language manifests, build systems and
/// editor configuration.
pub open spec fn spec_project_markers() -> Seq<Seq<char>> {
    seq![
        ".git"@, ".hg"@, ".svn"@, "_darcs"@, ".bzr"@, "Cargo.toml"@, "package.json"@,
        "tsconfig.json"@, "deno.json"@, "deno.jsonc"@, "pyproject.toml"@, "setup.py"@,
        "requirements.txt"@, "Pipfile"@, "poetry.lock"@, "environment.yml"@, "go.mod"@,
        "Gemfile"@, "composer.json"@, "mkdocs.yml"@, "_config.yml"@, "gatsby-config.js"@,
        "next.config.js"@, "nuxt.config.js"@, "docusaurus.config.js"@, "hugo.toml"@,
        "hugo.yaml"@, "stack.yaml"@, "cabal.project"@, "Gemfile.lock"@, "yarn.lock"@,
        "pnpm-lock.yaml"@, "bun.lockb"@, "pubspec.yaml"@, "mix.exs"@, "rebar.config"@,
        "deps.edn"@, "project.clj"@, "build.sbt"@, "Package.swift"@, "Podfile"@, "Cartfile"@,
        "pom.xml"@, "build.gradle"@, "build.gradle.kts"@, "build.xml"@, "CMakeLists.txt"@,
        "Makefile"@, "meson.build"@, "configure.ac"@, "configure.in"@, "Dockerfile"@,
        "docker-compose.yml"@, "Vagrantfile"@, ".editorconfig"@, ".vscode"@, ".idea"@,
    ]
}

/// The marker table, exactly as `spec_project_markers` lists it.
pub fn project_markers() -> (r: Vec<&'static str>)
    ensures
        r@.len() == spec_project_markers().len(),
        forall|k: int|
            0 <= k < r@.len() ==> (#[trigger] r@[k])@ == spec_project_markers()[k],
{
    let markers: Vec<&'static str> = vec![
        ".git",
        ".hg",
        ".svn",
        "_darcs",
        ".bzr",
        "Cargo.toml",
        "package.json",
        "tsconfig.json",
        "deno.json",
        "deno.jsonc",
        "pyproject.toml",
        "setup.py",
        "requirements.txt",
        "Pipfile",
        "poetry.lock",
        "environment.yml",
        "go.mod",
        "Gemfile",
        "composer.json",
        "mkdocs.yml",
        "_config.yml",
        "gatsby-config.js",
        "next.config.js",
        "nuxt.config.js",
        "docusaurus.config.js",
        "hugo.toml",
        "hugo.yaml",
        "stack.yaml",
        "cabal.project",
        "Gemfile.lock",
        "yarn.lock",
        "pnpm-lock.yaml",
        "bun.lockb",
        "pubspec.yaml",
        "mix.exs",
        "rebar.config",
        "deps.edn",
        "project.clj",
        "build.sbt",
        "Package.swift",
        "Podfile",
        "Cartfile",
        "pom.xml",
        "build.gradle",
        "build.gradle.kts",
        "build.xml",
        "CMakeLists.txt",
        "Makefile",
        "meson.build",
        "configure.ac",
        "configure.in",
        "Dockerfile",
        "docker-compose.yml",
        "Vagrantfile",
        ".editorconfig",
        ".vscode",
        ".idea",
    ];
    proof {
        assert forall|k: int|
            0 <= k < markers@.len() implies (#[trigger] markers@[k])@ == spec_project_markers()[k] by {}
    }
    markers
}

/// The position of the first flagged probe, or -1 when none is flagged.
pub open spec fn first_marked(probes: Seq<bool>) -> int
    decreases probes.len(),
{
    if probes.len() == 0 {
        -1
    } else if probes[0] {
        0
    } else {
        let r = first_marked(probes.drop_first());
        if r == -1 {
            -1
        } else {
            r + 1
        }
    }
}

/// `first_marked` names the first flagged probe: nothing before it is
/// flagged, it is flagged itself, and it is -1 exactly when none is.
pub proof fn lemma_first_marked(probes: Seq<bool>)
    ensures
        first_marked(probes) >= -1,
        first_marked(probes) == -1 <==> (forall|j: int| 0 <= j < probes.len() ==> !probes[j]),
        first_marked(probes) >= 0 ==> first_marked(probes) < probes.len() && probes[first_marked(
            probes,
        )] && (forall|j: int| 0 <= j < first_marked(probes) ==> !probes[j]),
    decreases probes.len(),
{
    if probes.len() == 0 {
    } else if probes[0] {
    } else {
        lemma_first_marked(probes.drop_first());
        let d = probes.drop_first();
        let r = first_marked(d);
        if r == -1 {
            assert forall|j: int| 0 <= j < probes.len() implies !probes[j] by {
                if j >= 1 {
                    assert(!d[j - 1]);
                }
            }
        } else {
            assert(probes[r + 1] == d[r]);
            assert forall|j: int| 0 <= j < r + 1 implies !probes[j] by {
                if j >= 1 {
                    assert(!d[j - 1]);
                }
            }
        }
    }
}

/// Picks the project root from the canonical path's ancestor chain and the
/// per-directory probe results: the first marker-bearing directory on the
/// walk, or the chain's head — the canonical path — when none bears one.
pub fn select_root(chain: &Vec<String>, probes: &Vec<bool>) -> (r: String)
    requires
        chain@.len() == probes@.len(),
        chain@.len() >= 1,
    ensures
        ({
            let m = first_marked(probes@);
            &&& (m >= 0 ==> m < chain@.len() && r@ == chain@[m]@)
            &&& (m == -1 ==> r@ == chain@[0]@)
        }),
{
    proof {
        lemma_first_marked(probes@);
    }
    let n = chain.len();
    let mut i: usize = 0;
    while i < n
        invariant
            n == chain@.len() == probes@.len(),
            i <= n,
            forall|j: int| 0 <= j < i ==> !probes@[j],
        decreases n - i,
    {
        if probes[i] {
            proof {
                lemma_first_marked(probes@);
                let m = first_marked(probes@);
                if m < i as int {
                    assert(!probes@[m]);
                } else if m > i as int {
                    assert(!probes@[i as int]);
                }
            }
            return chain[i].clone();
        }
        i = i + 1;
    }
    proof {
        lemma_first_marked(probes@);
    }
    chain[0].clone()
}

/// Whether the directory holds any project marker.
fn has_any_marker(dir: &str) -> bool {
    let markers = project_markers();
    let n = markers.len();
    let mut i: usize = 0;
    while i < n
        invariant
            n == markers@.len(),
        decreases n - i,
    {
        if dir_contains(dir, markers[i]) {
            return true;
        }
        i = i + 1;
    }
    false
}

/// Whether `root` is `path` itself or one of the directories on `path`'s
/// parent chain.
pub open spec fn is_ancestor_or_self(root: Seq<char>, path: Seq<char>) -> bool
    decreases path.len(),
{
    root == path || {
        let i = last_index_of(path, '/');
        if 0 < i < path.len() {
            is_ancestor_or_self(root, path.take(i))
        } else if i == 0 && path.len() > 1 {
            is_ancestor_or_self(root, seq!['/'])
        } else {
            false
        }
    }
}

/// Stepping to the parent stays on the ancestor chain.
proof fn lemma_ancestor_step(x: Seq<char>, y: Seq<char>, c: Seq<char>)
    requires
        is_ancestor_or_self(x, c),
        spec_parent(x) == Some(y),
    ensures
        is_ancestor_or_self(y, c),
    decreases c.len(),
{
    lemma_last_index_of(x, '/');
    lemma_last_index_of(c, '/');
    if x == c {
        let i = last_index_of(c, '/');
        if i > 0 {
            assert(y == c.take(i));
            assert(is_ancestor_or_self(y, c.take(i)));
        } else {
            assert(i == 0 && c.len() > 1);
            assert(y =~= seq!['/']);
            assert(is_ancestor_or_self(y, seq!['/']));
        }
    } else {
        let i = last_index_of(c, '/');
        if 0 < i < c.len() {
            lemma_ancestor_step(x, y, c.take(i));
        } else if i == 0 && c.len() > 1 {
            lemma_ancestor_step(x, y, seq!['/']);
        } else {
            assert(false);
        }
    }
}

/// Walks from the start path up toward the filesystem root: the
/// canonicalized start path together with the first directory on the walk
/// that a probe flagged as holding a project marker, through `select_root`
/// — the canonical path itself when none is flagged; nothing when the
/// start path cannot be resolved. The probes are the filesystem's answers;
/// everything decided from them is verified, and the returned root always
/// lies on the canonical path's parent chain.
pub fn find_project_root(start_path: &str) -> (r: Option<(String, String)>)
    ensures
        r matches Some(pair) ==> is_ancestor_or_self(pair.1@, pair.0@),
{
    let canon = match canonicalize_path(start_path) {
        Some(c) => c,
        None => {
            return None;
        },
    };
    // The ancestor chain of the canonical path, nearest first.
    let mut chain: Vec<String> = Vec::new();
    chain.push(canon.clone());
    let mut current = canon.clone();
    loop
        invariant
            chain@.len() >= 1,
            forall|k: int| 0 <= k < chain@.len() ==> is_ancestor_or_self((#[trigger] chain@[k])@, canon@),
            chain@[0]@ == canon@,
            is_ancestor_or_self(current@, canon@),
        decreases current@.len(),
    {
        match parent_of(current.as_str()) {
            Some(p) => {
                proof {
                    lemma_ancestor_step(current@, p@, canon@);
                }
                chain.push(p.clone());
                current = p;
            },
            None => {
                break ;
            },
        }
    }
    // Probe each directory on the chain for a marker.
    let mut probes: Vec<bool> = Vec::new();
    let n = chain.len();
    let mut i: usize = 0;
    while i < n
        invariant
            n == chain@.len(),
            i <= n,
            probes@.len() == i,
        decreases n - i,
    {
        probes.push(has_any_marker(chain[i].as_str()));
        i = i + 1;
    }
    let root = select_root(&chain, &probes);
    proof {
        lemma_first_marked(probes@);
        let m = first_marked(probes@);
        if m >= 0 {
            assert(is_ancestor_or_self(chain@[m]@, canon@));
        }
    }
    Some((canon, root))
}

/// Lower-case hexadecimal digits.
pub const HEX_DIGITS: [char; 16] = ['0', '1', '2', '3', '4', '5', '6', '7', '8', '9', 'a', 'b', 'c', 'd', 'e', 'f'];

/// The 16-digit lower-case hexadecimal rendering of `x`, most significant
/// digit first, zero-padded.
pub open spec fn spec_hex16(x: u64) -> Seq<char> {
    Seq::new(16, |i: int| HEX_DIGITS@[((x >> (((15 - i) * 4) as u64)) & 0xf) as int])
}

/// Renders `x` as 16 hexadecimal digits.
fn hex16_chars(x: u64) -> (r: Vec<char>)
    ensures
        r@ == spec_hex16(x),
{
    let mut out: Vec<char> = Vec::new();
    let mut i: usize = 0;
    while i < 16
        invariant
            i <= 16,
            out@ == spec_hex16(x).take(i as int),
        decreases 16 - i,
    {
        let shift = ((15 - i) * 4) as u64;
        let d = ((x >> shift) & 0xf) as usize;
        proof {
            assert(((x >> shift) & 0xf) < 16) by (bit_vector);
            assert(shift == ((15 - i as int) * 4) as u64);
        }
        out.push(HEX_DIGITS[d]);
        proof {
            assert(spec_hex16(x)[i as int] == HEX_DIGITS@[((x >> (((15 - i as int) * 4) as u64))
                & 0xf) as int]);
            assert(HEX_DIGITS@[d as int] == spec_hex16(x)[i as int]);
            assert(spec_hex16(x).take(i as int).push(spec_hex16(x)[i as int]) =~= spec_hex16(
                x,
            ).take(i + 1 as int));
        }
        i = i + 1;
    }
    proof {
        assert(spec_hex16(x).take(16) =~= spec_hex16(x));
    }
    out
}

/// The remote namespace name for a project root and an embedding provider:
/// a fixed prefix, the provider, and the 16 hexadecimal digits of the
/// canonical root path's hash. A change in either yields a disjoint
/// namespace.
pub open spec fn spec_namespace(provider: Seq<char>, root: Seq<char>) -> Seq<char> {
    "tg_"@ + provider + "_"@ + spec_hex16(xxh3(encode_utf8(root)))
}

/// Resolves the project root for a directory and derives the namespace from
/// it: `tg_{provider}_{hex}` with the hash of the returned root path.
/// Nothing when the directory cannot be resolved.
pub fn namespace_and_dir(directory: &str, embedding_provider: &str) -> (r: Option<(String, String)>)
    ensures
        r matches Some(pair) ==> pair.0@ == spec_namespace(embedding_provider@, pair.1@),
{
    let root = match find_project_root(directory) {
        Some(pair) => pair.1,
        None => {
            return None;
        },
    };
    let hash = xxh3_64(root.as_str().as_bytes());
    let hex = hex16_chars(hash);
    let hex_string = chars_to_string(hex);
    let mut ns = String::new();
    ns.append("tg_");
    ns.append(embedding_provider);
    ns.append("_");
    ns.append(hex_string.as_str());
    Some((ns, root))
}

} // verus!

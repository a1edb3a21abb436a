//! Filetype detection: maps a filename to a language tag through the
//! ordered default glob set of the `ignore` crate (ripgrep's set), where the
//! last matching pattern wins, and fixes for each tag the grammar and the
//! node kinds that become chunks.

use vstd::prelude::*;
use crate::strutil::str_eq;

verus! {

/// The languages the chunker recognizes.
#[derive(Clone, Copy, PartialEq, Eq, Structural)]
pub enum LangTag {
    Rust,
    Python,
    Js,
    Ts,
    Go,
    Java,
    C,
    Cpp,
    Ruby,
    Bash,
    Markdown,
}

/// The grammar value for a tag: each grammar crate exposes one fixed
/// grammar, so the value is a function of the tag alone.
pub uninterp spec fn language_for(tag: LangTag) -> tree_sitter::Language;

/// Relies on tree_sitter_rust::LANGUAGE and its conversion to a Language.
#[verifier::external_body]
fn language_rust() -> (r: tree_sitter::Language)
    ensures
        r == language_for(LangTag::Rust),
{
    tree_sitter_rust::LANGUAGE.into()
}

/// Relies on tree_sitter_python::LANGUAGE and its conversion to a Language.
#[verifier::external_body]
fn language_python() -> (r: tree_sitter::Language)
    ensures
        r == language_for(LangTag::Python),
{
    tree_sitter_python::LANGUAGE.into()
}

/// Relies on tree_sitter_javascript::LANGUAGE and its conversion to a Language.
#[verifier::external_body]
fn language_js() -> (r: tree_sitter::Language)
    ensures
        r == language_for(LangTag::Js),
{
    tree_sitter_javascript::LANGUAGE.into()
}

/// Relies on tree_sitter_typescript::LANGUAGE_TSX (the TSX dialect) and its
/// conversion to a Language.
#[verifier::external_body]
fn language_ts() -> (r: tree_sitter::Language)
    ensures
        r == language_for(LangTag::Ts),
{
    tree_sitter_typescript::LANGUAGE_TSX.into()
}

/// Relies on tree_sitter_go::LANGUAGE and its conversion to a Language.
#[verifier::external_body]
fn language_go() -> (r: tree_sitter::Language)
    ensures
        r == language_for(LangTag::Go),
{
    tree_sitter_go::LANGUAGE.into()
}

/// Relies on tree_sitter_java::LANGUAGE and its conversion to a Language.
#[verifier::external_body]
fn language_java() -> (r: tree_sitter::Language)
    ensures
        r == language_for(LangTag::Java),
{
    tree_sitter_java::LANGUAGE.into()
}

/// Relies on tree_sitter_c::LANGUAGE and its conversion to a Language.
#[verifier::external_body]
fn language_c() -> (r: tree_sitter::Language)
    ensures
        r == language_for(LangTag::C),
{
    tree_sitter_c::LANGUAGE.into()
}

/// Relies on tree_sitter_cpp::LANGUAGE and its conversion to a Language.
#[verifier::external_body]
fn language_cpp() -> (r: tree_sitter::Language)
    ensures
        r == language_for(LangTag::Cpp),
{
    tree_sitter_cpp::LANGUAGE.into()
}

/// Relies on tree_sitter_ruby::LANGUAGE and its conversion to a Language.
#[verifier::external_body]
fn language_ruby() -> (r: tree_sitter::Language)
    ensures
        r == language_for(LangTag::Ruby),
{
    tree_sitter_ruby::LANGUAGE.into()
}

/// Relies on tree_sitter_bash::LANGUAGE and its conversion to a Language.
#[verifier::external_body]
fn language_bash() -> (r: tree_sitter::Language)
    ensures
        r == language_for(LangTag::Bash),
{
    tree_sitter_bash::LANGUAGE.into()
}

/// Relies on tree_sitter_md::LANGUAGE and its conversion to a Language.
#[verifier::external_body]
fn language_markdown() -> (r: tree_sitter::Language)
    ensures
        r == language_for(LangTag::Markdown),
{
    tree_sitter_md::LANGUAGE.into()
}

/// The grammar for a tag.
pub fn language_of(tag: LangTag) -> (r: tree_sitter::Language)
    ensures
        r == language_for(tag),
{
    match tag {
        LangTag::Rust => language_rust(),
        LangTag::Python => language_python(),
        LangTag::Js => language_js(),
        LangTag::Ts => language_ts(),
        LangTag::Go => language_go(),
        LangTag::Java => language_java(),
        LangTag::C => language_c(),
        LangTag::Cpp => language_cpp(),
        LangTag::Ruby => language_ruby(),
        LangTag::Bash => language_bash(),
        LangTag::Markdown => language_markdown(),
    }
}

/// The tag's name, as the parse-failure message spells it.
pub fn tag_name(tag: LangTag) -> (r: &'static str)
    ensures
        tag == LangTag::Rust ==> r@ == "rust"@,
        tag == LangTag::Python ==> r@ == "python"@,
        tag == LangTag::Js ==> r@ == "js"@,
        tag == LangTag::Ts ==> r@ == "ts"@,
        tag == LangTag::Go ==> r@ == "go"@,
        tag == LangTag::Java ==> r@ == "java"@,
        tag == LangTag::C ==> r@ == "c"@,
        tag == LangTag::Cpp ==> r@ == "cpp"@,
        tag == LangTag::Ruby ==> r@ == "ruby"@,
        tag == LangTag::Bash ==> r@ == "bash"@,
        tag == LangTag::Markdown ==> r@ == "markdown"@,
{
    match tag {
        LangTag::Rust => "rust",
        LangTag::Python => "python",
        LangTag::Js => "js",
        LangTag::Ts => "ts",
        LangTag::Go => "go",
        LangTag::Java => "java",
        LangTag::C => "c",
        LangTag::Cpp => "cpp",
        LangTag::Ruby => "ruby",
        LangTag::Bash => "bash",
        LangTag::Markdown => "markdown",
    }
}

/// The tag a ripgrep type-definition name stands for, if any.
pub open spec fn spec_name_tag(name: Seq<char>) -> Option<LangTag> {
    if name == "rust"@ {
        Some(LangTag::Rust)
    } else if name == "py"@ || name == "python"@ {
        Some(LangTag::Python)
    } else if name == "js"@ {
        Some(LangTag::Js)
    } else if name == "ts"@ || name == "typescript"@ {
        Some(LangTag::Ts)
    } else if name == "go"@ {
        Some(LangTag::Go)
    } else if name == "java"@ {
        Some(LangTag::Java)
    } else if name == "c"@ {
        Some(LangTag::C)
    } else if name == "cpp"@ {
        Some(LangTag::Cpp)
    } else if name == "ruby"@ {
        Some(LangTag::Ruby)
    } else if name == "bash"@ || name == "sh"@ {
        Some(LangTag::Bash)
    } else if name == "md"@ || name == "markdown"@ {
        Some(LangTag::Markdown)
    } else {
        None
    }
}

/// Maps a ripgrep type-definition name to the tag it stands for.
pub fn name_to_tag(name: &str) -> (r: Option<LangTag>)
    ensures
        r == spec_name_tag(name@),
{
    if str_eq(name, "rust") {
        Some(LangTag::Rust)
    } else if str_eq(name, "py") || str_eq(name, "python") {
        Some(LangTag::Python)
    } else if str_eq(name, "js") {
        Some(LangTag::Js)
    } else if str_eq(name, "ts") || str_eq(name, "typescript") {
        Some(LangTag::Ts)
    } else if str_eq(name, "go") {
        Some(LangTag::Go)
    } else if str_eq(name, "java") {
        Some(LangTag::Java)
    } else if str_eq(name, "c") {
        Some(LangTag::C)
    } else if str_eq(name, "cpp") {
        Some(LangTag::Cpp)
    } else if str_eq(name, "ruby") {
        Some(LangTag::Ruby)
    } else if str_eq(name, "bash") || str_eq(name, "sh") {
        Some(LangTag::Bash)
    } else if str_eq(name, "md") || str_eq(name, "markdown") {
        Some(LangTag::Markdown)
    } else {
        None
    }
}

/// Whether a node of this kind is captured as a chunk for the tag.
pub open spec fn spec_captured(tag: LangTag, kind: Seq<char>) -> bool {
    match tag {
        LangTag::Rust => kind == "function_item"@ || kind == "struct_item"@ || kind
            == "impl_item"@,
        LangTag::Python => kind == "function_definition"@,
        LangTag::Js => kind == "function_declaration"@ || kind == "function_expression"@,
        LangTag::Ts => kind == "function_declaration"@ || kind == "function_expression"@,
        LangTag::Go => kind == "function_declaration"@ || kind == "method_declaration"@,
        LangTag::Java => kind == "method_declaration"@,
        LangTag::C => kind == "function_definition"@,
        LangTag::Cpp => kind == "function_definition"@,
        LangTag::Ruby => kind == "method"@ || kind == "singleton_method"@,
        LangTag::Bash => kind == "function_definition"@,
        LangTag::Markdown => kind == "fenced_code_block"@ || kind == "list"@ || kind
            == "paragraph"@,
    }
}

/// Decides whether a node of this kind is captured as a chunk for the tag.
pub fn is_captured(tag: LangTag, kind: &str) -> (r: bool)
    ensures
        r == spec_captured(tag, kind@),
{
    match tag {
        LangTag::Rust => str_eq(kind, "function_item") || str_eq(kind, "struct_item") || str_eq(
            kind,
            "impl_item",
        ),
        LangTag::Python => str_eq(kind, "function_definition"),
        LangTag::Js => str_eq(kind, "function_declaration") || str_eq(kind, "function_expression"),
        LangTag::Ts => str_eq(kind, "function_declaration") || str_eq(kind, "function_expression"),
        LangTag::Go => str_eq(kind, "function_declaration") || str_eq(kind, "method_declaration"),
        LangTag::Java => str_eq(kind, "method_declaration"),
        LangTag::C => str_eq(kind, "function_definition"),
        LangTag::Cpp => str_eq(kind, "function_definition"),
        LangTag::Ruby => str_eq(kind, "method") || str_eq(kind, "singleton_method"),
        LangTag::Bash => str_eq(kind, "function_definition"),
        LangTag::Markdown => str_eq(kind, "fenced_code_block") || str_eq(kind, "list") || str_eq(
            kind,
            "paragraph",
        ),
    }
}

#[verifier::external_type_specification]
#[verifier::external_body]
pub struct ExTypesBuilder(ignore::types::TypesBuilder);

#[verifier::external_type_specification]
#[verifier::external_body]
pub struct ExFileTypeDef(ignore::types::FileTypeDef);

#[verifier::external_type_specification]
#[verifier::external_body]
pub struct ExGlob(globset::Glob);

#[verifier::external_type_specification]
#[verifier::external_body]
pub struct ExGlobSet(globset::GlobSet);

#[verifier::external_type_specification]
#[verifier::external_body]
pub struct ExGlobSetBuilder(globset::GlobSetBuilder);

/// A type definition's name.
pub uninterp spec fn def_name_of(d: ignore::types::FileTypeDef) -> Seq<char>;

/// A type definition's glob patterns, in order.
pub uninterp spec fn def_globs_of(d: ignore::types::FileTypeDef) -> Seq<Seq<char>>;

/// The definitions a types builder holds, as (name, globs) pairs in the
/// order `definitions` returns them.
pub uninterp spec fn builder_defs(b: ignore::types::TypesBuilder) -> Seq<(Seq<char>, Seq<Seq<char>>)>;

/// The definitions a builder holds after ripgrep's defaults are installed
/// on top of `prior`: the default table is fixed, so the outcome depends on
/// the prior contents alone.
pub uninterp spec fn with_default_defs(prior: Seq<(Seq<char>, Seq<Seq<char>>)>) -> Seq<(Seq<char>, Seq<Seq<char>>)>;

/// Whether a pattern parses as a glob; parsing is a function of the
/// pattern alone.
pub uninterp spec fn glob_ok(pattern: Seq<char>) -> bool;

/// The pattern a compiled glob was built from.
pub uninterp spec fn glob_pattern(g: globset::Glob) -> Seq<char>;

/// The patterns a glob-set builder holds, in the order they were added.
pub uninterp spec fn builder_patterns(b: globset::GlobSetBuilder) -> Seq<Seq<char>>;

/// The patterns a built glob set holds, in order.
pub uninterp spec fn glob_patterns(s: globset::GlobSet) -> Seq<Seq<char>>;

/// Which patterns match a name: the indices `matches` returns, a function
/// of the set's patterns and the name alone.
pub uninterp spec fn glob_matches(patterns: Seq<Seq<char>>, name: Seq<char>) -> Seq<int>;

/// Whether building a glob set from these patterns succeeds: building is
/// deterministic in the patterns.
pub uninterp spec fn set_build_ok(patterns: Seq<Seq<char>>) -> bool;

/// Relies on ignore::types::TypesBuilder::new: a fresh builder holds no
/// definitions.
#[verifier::external_body]
fn types_builder_new() -> (r: ignore::types::TypesBuilder)
    ensures
        builder_defs(r) == Seq::<(Seq<char>, Seq<Seq<char>>)>::empty(),
{
    ignore::types::TypesBuilder::new()
}

/// Relies on ignore::types::TypesBuilder::add_defaults: it installs
/// ripgrep's fixed default type definitions.
#[verifier::external_body]
fn types_builder_add_defaults(b: &mut ignore::types::TypesBuilder)
    ensures
        builder_defs(*final(b)) == with_default_defs(builder_defs(*old(b))),
{
    b.add_defaults();
}

/// Relies on ignore::types::TypesBuilder::definitions: the installed
/// definitions, sorted by name.
#[verifier::external_body]
fn types_builder_definitions(b: &ignore::types::TypesBuilder) -> (r: Vec<
    ignore::types::FileTypeDef,
>)
    ensures
        r@.len() == builder_defs(*b).len(),
        forall|i: int|
            0 <= i < r@.len() ==> def_name_of(#[trigger] r@[i]) == builder_defs(*b)[i].0
                && def_globs_of(r@[i]) == builder_defs(*b)[i].1,
{
    b.definitions()
}

/// Relies on ignore::types::FileTypeDef::name, copied into an owned string.
#[verifier::external_body]
fn def_name(d: &ignore::types::FileTypeDef) -> (r: String)
    ensures
        r@ == def_name_of(*d),
{
    d.name().to_string()
}

/// Relies on ignore::types::FileTypeDef::globs, copied into owned strings.
#[verifier::external_body]
fn def_globs(d: &ignore::types::FileTypeDef) -> (r: Vec<String>)
    ensures
        r@.map_values(|g: String| g@) == def_globs_of(*d),
{
    d.globs().to_vec()
}

/// Relies on globset::Glob::new: it succeeds exactly when the pattern
/// parses, and the compiled glob carries that pattern.
#[verifier::external_body]
fn glob_new(pattern: &str) -> (r: Option<globset::Glob>)
    ensures
        r is Some <==> glob_ok(pattern@),
        r matches Some(g) ==> glob_pattern(g) == pattern@,
{
    match globset::Glob::new(pattern) {
        Ok(g) => Some(g),
        Err(_) => None,
    }
}

/// Relies on globset::GlobSetBuilder::new: a fresh builder holds no
/// patterns.
#[verifier::external_body]
fn glob_set_builder_new() -> (r: globset::GlobSetBuilder)
    ensures
        builder_patterns(r) == Seq::<Seq<char>>::empty(),
{
    globset::GlobSetBuilder::new()
}

/// Relies on globset::GlobSetBuilder::add: patterns keep the order they
/// were added in.
#[verifier::external_body]
fn glob_set_builder_add(b: &mut globset::GlobSetBuilder, g: globset::Glob)
    ensures
        builder_patterns(*final(b)) == builder_patterns(*old(b)).push(glob_pattern(g)),
{
    b.add(g);
}

/// Relies on globset::GlobSetBuilder::build: it succeeds exactly when the
/// patterns admit a set, and the built set holds the builder's patterns.
#[verifier::external_body]
fn glob_set_build(b: &globset::GlobSetBuilder) -> (r: Option<globset::GlobSet>)
    ensures
        r is Some <==> set_build_ok(builder_patterns(*b)),
        r matches Some(s) ==> glob_patterns(s) == builder_patterns(*b),
{
    match b.build() {
        Ok(s) => Some(s),
        Err(_) => None,
    }
}

/// Relies on globset::GlobSet::matches: the indices of every matching
/// pattern, ascending and without duplicates; which patterns match depends
/// on the set's patterns and the name alone.
#[verifier::external_body]
fn glob_set_matches(s: &globset::GlobSet, name: &str) -> (r: Vec<usize>)
    ensures
        r@.map_values(|x: usize| x as int) == glob_matches(glob_patterns(*s), name@),
        forall|k: int| 0 <= k < r@.len() ==> (#[trigger] r@[k]) < glob_patterns(*s).len(),
        forall|k1: int, k2: int| 0 <= k1 < k2 < r@.len() ==> r@[k1] < r@[k2],
{
    s.matches(name)
}

/// The (definition name, glob pattern) pairs one definition contributes:
/// one pair per parseable glob, in order.
pub open spec fn expand_globs(name: Seq<char>, globs: Seq<Seq<char>>) -> Seq<(Seq<char>, Seq<char>)>
    decreases globs.len(),
{
    if globs.len() == 0 {
        Seq::empty()
    } else {
        expand_globs(name, globs.drop_last()) + if glob_ok(globs.last()) {
            seq![(name, globs.last())]
        } else {
            Seq::empty()
        }
    }
}

/// The (definition name, glob pattern) pairs of a definition list.
pub open spec fn expand_defs(defs: Seq<(Seq<char>, Seq<Seq<char>>)>) -> Seq<(Seq<char>, Seq<char>)>
    decreases defs.len(),
{
    if defs.len() == 0 {
        Seq::empty()
    } else {
        expand_defs(defs.drop_last()) + expand_globs(defs.last().0, defs.last().1)
    }
}

/// The matcher's rows when built from ripgrep's default definitions.
pub open spec fn default_pairs() -> Seq<(Seq<char>, Seq<char>)> {
    expand_defs(with_default_defs(Seq::empty()))
}

/// The default rows' glob patterns, in order.
pub open spec fn default_patterns() -> Seq<Seq<char>> {
    Seq::new(default_pairs().len(), |k: int| default_pairs()[k].1)
}

/// Whether the default glob set builds.
pub open spec fn default_matcher_ok() -> bool {
    set_build_ok(default_patterns())
}

/// What the matcher built from ripgrep's default definitions answers for a
/// filename: a pure function of the filename.
pub open spec fn spec_default_detect(name: Seq<char>) -> Option<LangTag> {
    let pairs = default_pairs();
    let names = Seq::new(pairs.len(), |k: int| pairs[k].0);
    let patterns = Seq::new(pairs.len(), |k: int| pairs[k].1);
    spec_detect_from(names, glob_matches(patterns, name))
}

/// The filename matcher: an ordered glob set, and for each glob the name of
/// the type definition it came from.
pub struct FiletypeMatcher {
    glob_set: globset::GlobSet,
    names: Vec<String>,
}

/// The tag a match-index list resolves to: scanning the matches from the
/// last to the first, the first whose definition name is a recognized
/// language wins; nothing when no match's name maps to a tag.
pub open spec fn spec_detect_from(names: Seq<Seq<char>>, ms: Seq<int>) -> Option<LangTag>
    decreases ms.len(),
{
    if ms.len() == 0 {
        None
    } else {
        let idx = ms.last();
        let tag = if 0 <= idx < names.len() {
            spec_name_tag(names[idx])
        } else {
            None
        };
        match tag {
            Some(t) => Some(t),
            None => spec_detect_from(names, ms.drop_last()),
        }
    }
}

impl FiletypeMatcher {
    /// The definition name behind each glob, in glob order.
    pub closed spec fn spec_names(&self) -> Seq<Seq<char>> {
        self.names@.map_values(|s: String| s@)
    }

    /// The matcher's glob patterns, in order.
    pub closed spec fn spec_patterns(&self) -> Seq<Seq<char>> {
        glob_patterns(self.glob_set)
    }

    /// What the matcher answers for a filename.
    pub open spec fn spec_detect(&self, name: Seq<char>) -> Option<LangTag> {
        spec_detect_from(self.spec_names(), glob_matches(self.spec_patterns(), name))
    }

    /// Builds the matcher from ripgrep's default type definitions: one row
    /// per parseable glob of each definition, in definition order. It fails
    /// exactly when the default glob set cannot be built.
    pub fn new() -> (r: Option<FiletypeMatcher>)
        ensures
            r is Some <==> default_matcher_ok(),
            r matches Some(m) ==> {
                let pairs = default_pairs();
                &&& m.spec_names().len() == pairs.len()
                &&& m.spec_patterns().len() == pairs.len()
                &&& forall|k: int|
                    0 <= k < pairs.len() ==> m.spec_names()[k] == (#[trigger] pairs[k]).0
                        && m.spec_patterns()[k] == pairs[k].1
            },
    {
        let defs = {
            let mut b = types_builder_new();
            types_builder_add_defaults(&mut b);
            types_builder_definitions(&b)
        };
        let ghost gdefs = with_default_defs(Seq::<(Seq<char>, Seq<Seq<char>>)>::empty());
        let mut builder = glob_set_builder_new();
        let mut names: Vec<String> = Vec::new();
        let mut i: usize = 0;
        let defs_len = defs.len();
        proof {
            assert(expand_defs(gdefs.take(0)) =~= Seq::<(Seq<char>, Seq<char>)>::empty());
        }
        while i < defs_len
            invariant
                defs_len == defs@.len(),
                i <= defs_len,
                gdefs == with_default_defs(Seq::<(Seq<char>, Seq<Seq<char>>)>::empty()),
                gdefs.len() == defs@.len(),
                forall|k: int|
                    0 <= k < defs@.len() ==> def_name_of(#[trigger] defs@[k]) == gdefs[k].0
                        && def_globs_of(defs@[k]) == gdefs[k].1,
                names@.len() == expand_defs(gdefs.take(i as int)).len(),
                builder_patterns(builder).len() == expand_defs(gdefs.take(i as int)).len(),
                forall|k: int|
                    0 <= k < names@.len() ==> (#[trigger] names@[k])@ == expand_defs(
                        gdefs.take(i as int),
                    )[k].0,
                forall|k: int|
                    0 <= k < names@.len() ==> builder_patterns(builder)[k] == expand_defs(
                        gdefs.take(i as int),
                    )[k].1,
            decreases defs_len - i,
        {
            let d = &defs[i];
            let name = def_name(d);
            let globs = def_globs(d);
            let ghost gglobs = def_globs_of(defs@[i as int]);
            let mut j: usize = 0;
            let globs_len = globs.len();
            proof {
                assert(globs@.map_values(|g: String| g@).len() == gglobs.len());
                assert(expand_globs(name@, gglobs.take(0)) =~= Seq::<(Seq<char>, Seq<char>)>::empty());
            }
            while j < globs_len
                invariant
                    globs_len == globs@.len(),
                    j <= globs_len,
                    gglobs == globs@.map_values(|g: String| g@),
                    name@ == name@,
                    names@.len() == builder_patterns(builder).len(),
                    names@.len() == expand_defs(gdefs.take(i as int)).len() + expand_globs(
                        name@,
                        gglobs.take(j as int),
                    ).len(),
                    forall|k: int|
                        0 <= k < names@.len() ==> (#[trigger] names@[k])@ == (expand_defs(
                            gdefs.take(i as int),
                        ) + expand_globs(name@, gglobs.take(j as int)))[k].0,
                    forall|k: int|
                        0 <= k < names@.len() ==> builder_patterns(builder)[k] == (expand_defs(
                            gdefs.take(i as int),
                        ) + expand_globs(name@, gglobs.take(j as int)))[k].1,
                decreases globs_len - j,
            {
                proof {
                    assert(gglobs.take(j + 1 as int).drop_last() =~= gglobs.take(j as int));
                    assert(gglobs.take(j + 1 as int).last() == gglobs[j as int]);
                    assert(gglobs[j as int] == globs@[j as int]@);
                }
                match glob_new(globs[j].as_str()) {
                    Some(g) => {
                        glob_set_builder_add(&mut builder, g);
                        names.push(name.clone());
                        proof {
                            let pre = expand_defs(gdefs.take(i as int));
                            let a = pre + expand_globs(name@, gglobs.take(j as int));
                            let b2 = pre + expand_globs(name@, gglobs.take(j + 1 as int));
                            assert(expand_globs(name@, gglobs.take(j + 1 as int)) == expand_globs(
                                name@,
                                gglobs.take(j as int),
                            ).push((name@, gglobs[j as int])));
                            assert(b2 =~= a.push((name@, gglobs[j as int])));
                        }
                    },
                    None => {
                        proof {
                            assert(expand_globs(name@, gglobs.take(j + 1 as int)) =~= expand_globs(
                                name@,
                                gglobs.take(j as int),
                            ));
                        }
                    },
                }
                j = j + 1;
            }
            proof {
                assert(gglobs.take(globs_len as int) =~= gglobs);
                assert(gdefs.take(i + 1 as int).drop_last() =~= gdefs.take(i as int));
                assert(gdefs.take(i + 1 as int).last() == gdefs[i as int]);
                assert(expand_defs(gdefs.take(i + 1 as int)) == expand_defs(gdefs.take(i as int))
                    + expand_globs(gdefs[i as int].0, gdefs[i as int].1));
                assert(def_name_of(defs@[i as int]) == gdefs[i as int].0);
                assert(name@ == gdefs[i as int].0);
                assert(gglobs == gdefs[i as int].1);
            }
            i = i + 1;
        }
        proof {
            assert(gdefs.take(defs_len as int) =~= gdefs);
        }
        proof {
            assert(builder_patterns(builder) =~= default_patterns());
        }
        match glob_set_build(&builder) {
            Some(glob_set) => {
                let m = FiletypeMatcher { glob_set, names };
                proof {
                    assert(m.spec_names().len() == names@.len());
                    assert forall|k: int| 0 <= k < default_pairs().len() implies m.spec_names()[k]
                        == (#[trigger] default_pairs()[k]).0 && m.spec_patterns()[k]
                        == default_pairs()[k].1 by {
                        assert(m.spec_names()[k] == names@[k]@);
                    }
                }
                Some(m)
            },
            None => None,
        }
    }

    /// Maps a filename to a language tag: among the matching glob patterns,
    /// scanned from the last added backwards, the first whose definition
    /// name is a recognized language wins.
    pub fn detect_language(&self, filename: &str) -> (r: Option<LangTag>)
        ensures
            r == self.spec_detect(filename@),
    {
        let matches = glob_set_matches(&self.glob_set, filename);
        let ghost gms = glob_matches(self.spec_patterns(), filename@);
        let mut k = matches.len();
        proof {
            assert(gms.take(k as int) =~= gms);
        }
        while k > 0
            invariant
                k <= matches@.len(),
                matches@.map_values(|x: usize| x as int) == gms,
                gms == glob_matches(self.spec_patterns(), filename@),
                spec_detect_from(self.spec_names(), gms) == spec_detect_from(
                    self.spec_names(),
                    gms.take(k as int),
                ),
            decreases k,
        {
            k = k - 1;
            let idx = matches[k];
            proof {
                assert(gms.take(k + 1 as int).last() == gms[k as int]);
                assert(gms.take(k + 1 as int).drop_last() =~= gms.take(k as int));
                assert(gms[k as int] == matches@[k as int] as int);
            }
            if idx < self.names.len() {
                let tag = name_to_tag(self.names[idx].as_str());
                proof {
                    assert(self.spec_names()[idx as int] == self.names@[idx as int]@);
                }
                match tag {
                    Some(t) => {
                        return Some(t);
                    },
                    None => {},
                }
            }
        }
        proof {
            assert(gms.take(0) =~= Seq::<int>::empty());
        }
        None
    }
}

} // verus!

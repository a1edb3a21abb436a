//! Semantic code search over a source directory: a syntactic chunker that
//! turns source files into stable content-addressed chunks, an incremental
//! synchronizer that diffs local chunks against a remote vector namespace,
//! and a speculative search path that races a query against a background
//! synchronization.

pub mod attach;
pub mod chunker;
pub mod config;
pub mod embeddings;
pub mod filetype;
pub mod hashing;
pub mod markdown;
pub mod project;
pub mod search;
pub mod strutil;
pub mod sync;
pub mod syntax;
pub mod turbopuffer;
pub mod vectors;

use vstd::prelude::*;
use crate::strutil::lower_of;

verus! {

/// Whether an environment variable's value switches verbose logging on:
/// the string "1", or "true" in any casing.
pub fn verbose_value(value: &str) -> (r: bool)
    ensures
        r == (value@ == "1"@ || lower_of(value@) == "true"@),
{
    crate::strutil::str_eq(value, "1") || crate::strutil::str_eq(
        crate::strutil::lowercase(value).as_str(),
        "true",
    )
}

/// Sets the process verbosity flag once: a flag already set keeps its value.
pub fn set_verbose(flag: Option<bool>, verbose: bool) -> (r: Option<bool>)
    ensures
        flag is None ==> r == Some(verbose),
        flag is Some ==> r == flag,
{
    match flag {
        None => Some(verbose),
        Some(v) => Some(v),
    }
}

/// Whether verbose logging is on: an environment variable's value decides
/// when one is set, else the process flag, else off.
pub fn is_verbose(env_value: Option<&str>, flag: Option<bool>) -> (r: bool)
    ensures
        env_value matches Some(v) ==> r == (v@ == "1"@ || lower_of(v@) == "true"@),
        env_value is None ==> r == (flag == Some(true)),
{
    match env_value {
        Some(v) => verbose_value(v),
        None => match flag {
            Some(b) => b,
            None => false,
        },
    }
}

} // verus!

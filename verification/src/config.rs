//! User settings: the remote index region and the embedding provider, and
//! how missing values are filled in on first use. Reading and writing the
//! settings file, and probing regions, are the caller's; the defaulting
//! rules are here.

use vstd::prelude::*;

verus! {

/// The persisted settings.
pub struct Settings {
    pub turbopuffer_region: Option<String>,
    pub embedding_provider: Option<String>,
}

impl Default for Settings {
    /// Settings with nothing chosen yet.
    fn default() -> (r: Settings)
        ensures
            r.turbopuffer_region is None,
            r.embedding_provider is None,
    {
        Settings { turbopuffer_region: None, embedding_provider: None }
    }
}

/// The region used when none is configured and none can be probed.
pub fn fallback_region() -> (r: &'static str)
    ensures
        r@ == "gcp-us-east4"@,
{
    "gcp-us-east4"
}

/// Fills the missing settings: a missing region becomes the probed one, or
/// the fallback when probing failed; a missing provider becomes the chosen
/// one, which may itself be absent. The flag reports whether anything was
/// filled in, so the caller knows to rewrite the settings file.
pub fn apply_setting_defaults(
    settings: Settings,
    probed_region: Option<String>,
    chosen_provider: Option<String>,
) -> (r: (Settings, bool))
    ensures
        settings.turbopuffer_region matches Some(reg) ==> r.0.turbopuffer_region == Some(reg),
        settings.turbopuffer_region is None ==> r.0.turbopuffer_region == (match probed_region {
            Some(p) => Some(p),
            None => r.0.turbopuffer_region,
        }) && (probed_region is None ==> (r.0.turbopuffer_region matches Some(f) && f@
            == "gcp-us-east4"@)),
        settings.embedding_provider matches Some(p) ==> r.0.embedding_provider == Some(p),
        settings.embedding_provider is None ==> r.0.embedding_provider == chosen_provider,
        r.1 == (settings.turbopuffer_region is None || settings.embedding_provider is None),
{
    let Settings { turbopuffer_region, embedding_provider } = settings;
    let mut changed = false;
    let turbopuffer_region = match turbopuffer_region {
        Some(reg) => Some(reg),
        None => {
            changed = true;
            match probed_region {
                Some(p) => Some(p),
                None => {
                    let mut f = String::new();
                    f.append(fallback_region());
                    Some(f)
                },
            }
        },
    };
    let embedding_provider = match embedding_provider {
        Some(p) => Some(p),
        None => {
            changed = true;
            chosen_provider
        },
    };
    (Settings { turbopuffer_region, embedding_provider }, changed)
}

} // verus!

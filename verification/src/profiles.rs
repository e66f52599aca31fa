//! The profile store and the resolver. A configuration file holds a mapping
//! from profile name to profile body; the store turns the parsed entries
//! into named profiles and refuses an empty mapping. The resolver overrides
//! a baseline profile with the first loaded profile, and falls back to the
//! baseline whenever loading failed: file-sourced configuration is
//! best-effort and never blocks a run.

use vstd::prelude::*;

use crate::config::Config;
use crate::path::FilePath;
use crate::path::Seg;

verus! {

/// Why configuration material could not be used.
#[derive(Clone, Copy, PartialEq, Eq, Structural, Debug)]
pub enum ConfigError {
    /// The configuration file could not be opened or read.
    IoError,
    /// The content is not a mapping of profile name to profile body.
    MalformedConfig,
    /// The mapping holds zero profiles.
    EmptyConfig,
    /// No relative path exists between two paths.
    NoRelativePath,
    /// A path could not be canonicalized against the filesystem.
    CanonicalizationFailure,
}

/// What one loaded profile must be: its entry's body, under the entry's key
/// as its name, carrying the originating file's path, and still well-formed.
pub open spec fn is_named_profile(entry: (String, Config), out: Config, path: Seq<Seg>) -> bool {
    &&& out == (Config { name: entry.0, config: out.config, ..entry.1 })
    &&& (out.config matches Some(p) && p@ == path)
    &&& out.wf()
}

/// Turns the parsed entries of one configuration file into profiles: every
/// profile takes its entry's key as its name and the originating file's
/// path, all other fields unchanged; a file with zero entries is refused
/// with `EmptyConfig`.
#[verifier::rlimit(60)]
pub fn load_profiles(entries: Vec<(String, Config)>, config_path: &FilePath) -> (r: Result<
    Vec<Config>,
    ConfigError,
>)
    requires
        forall|i: int| 0 <= i < entries@.len() ==> entries@[i].1.wf(),
    ensures
        entries@.len() == 0 <==> (r matches Err(e) && e == ConfigError::EmptyConfig),
        entries@.len() > 0 ==> r is Ok,
        r matches Ok(out) ==> {
            &&& out@.len() == entries@.len()
            &&& forall|i: int|
                0 <= i < out@.len() ==> #[trigger] is_named_profile(
                    entries@[i],
                    out@[i],
                    config_path@,
                )
        },
{
    if entries.len() == 0 {
        return Err(ConfigError::EmptyConfig);
    }
    let mut out: Vec<Config> = Vec::new();
    let mut rest = entries;
    let ghost all = rest@;
    while rest.len() > 0
        invariant
            all.len() == out@.len() + rest@.len(),
            rest@ =~= all.skip(out@.len() as int),
            forall|i: int| 0 <= i < all.len() ==> all[i].1.wf(),
            forall|i: int|
                0 <= i < out@.len() ==> #[trigger] is_named_profile(all[i], out@[i], config_path@),
        decreases rest@.len(),
    {
        let ghost k = out@.len() as int;
        let (name, body) = rest.remove(0);
        proof {
            assert(all[k] == (name, body));
        }
        let profile = Config { name, config: Some(config_path.clone_path()), ..body };
        out.push(profile);
        proof {
            assert(is_named_profile(all[k], out@[k], config_path@));
            assert(rest@ =~= all.skip(out@.len() as int));
        }
    }
    Ok(out)
}

/// Picks the final profile: the first loaded profile when loading yielded
/// any, and the baseline otherwise. A load failure of any kind degrades to
/// the baseline unchanged.
pub fn resolve_profiles(baseline: Config, loaded: Result<Vec<Config>, ConfigError>) -> (r: Config)
    ensures
        loaded is Err ==> r == baseline,
        loaded matches Ok(cs) ==> (if cs@.len() == 0 {
            r == baseline
        } else {
            r == cs@[0]
        }),
{
    match loaded {
        Result::Err(_) => baseline,
        Result::Ok(mut cs) => {
            if cs.len() == 0 {
                baseline
            } else {
                cs.remove(0)
            }
        },
    }
}

} // verus!

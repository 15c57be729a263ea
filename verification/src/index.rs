//! Decisions about the locally cached index of environment descriptions.

use vstd::prelude::*;

verus! {

/// Number of seconds after which a cached copy of the index counts as stale.
pub const REFRESH_INTERVAL_SECS: i64 = 86400;

/// Decides whether the cached index, stamped at `stamp` (seconds since the
/// epoch), is still fresh at time `now` and need not be downloaded again.
pub fn index_is_fresh(now: i64, stamp: i64) -> (fresh: bool)
    ensures
        fresh == (now - stamp < REFRESH_INTERVAL_SECS),
{
    let diff: i128 = (now as i128) - (stamp as i128);
    diff < REFRESH_INTERVAL_SECS as i128
}

/// The directory to search for a tag's environment files: the index base with
/// the tag's `host/owner/repo` segments appended.
pub fn index_lookup_path(index_base: &str, tag: &str) -> (r: String)
    ensures
        r@ == index_base@ + seq!['/'] + tag@,
{
    proof {
        reveal_strlit("/");
        assert("/"@ =~= seq!['/']);
    }
    let mut r = index_base.to_owned();
    r.append("/");
    r.append(tag);
    r
}

/// The fallback chain for the file handed to the launcher: an explicit file
/// flag first, then the file found under an explicitly given tag, then the
/// file found directly in the working directory, then the file found under
/// the tag derived from the working directory's remote.
pub fn choose_nix_file(
    explicit: Option<String>,
    by_tag: Option<String>,
    in_dir: Option<String>,
    by_derived_tag: Option<String>,
) -> (r: Option<String>)
    ensures
        r == if explicit is Some {
            explicit
        } else if by_tag is Some {
            by_tag
        } else if in_dir is Some {
            in_dir
        } else {
            by_derived_tag
        },
{
    match explicit {
        Some(f) => Some(f),
        None => match by_tag {
            Some(f) => Some(f),
            None => match in_dir {
                Some(f) => Some(f),
                None => by_derived_tag,
            },
        },
    }
}

} // verus!

//! Loading a lock file's text in whichever layout it is written: a missing or
//! blank file is an empty lock; a file with a `[resolutions` table is read as
//! the two-tier layout; one with an `[actions` table as the flat layout; any
//! other text is refused.

use vstd::prelude::*;
use crate::flat::{self, FlatData, flat_resolutions, flat_commits, actions_marker};
use crate::text::{chars_of, trim, trim_chars, has_substring};
use crate::tiered::{TieredLock, two_tier_marker};
use crate::two_tier::{self, TwoTierData, two_tier_resolutions, two_tier_commits};

verus! {

/// What a refused lock file is reported as.
pub const UNRECOGNIZED_LOCK_FORMAT: &'static str = "unrecognized lock file format";

/// Why a lock file's text could not be loaded.
#[derive(Debug, Clone, PartialEq, Eq)]
pub enum LoadError<E> {
    /// The layout was recognized but its text did not parse.
    Parse(E),
    /// The text is in no known layout.
    Unrecognized,
}

/// Nothing but whitespace.
pub open spec fn blank(s: Seq<char>) -> bool {
    trim(s).len() == 0
}

/// `r` is what the two-tier reader `f` made of `c`: the lock of the data it
/// read, or its parse error.
pub open spec fn read_two_tier<E, F: FnOnce(&str) -> Result<TwoTierData, E>>(
    r: Result<TieredLock, LoadError<E>>,
    f: F,
    c: &str,
) -> bool {
    match r {
        Ok(l) => exists|d: TwoTierData|
            call_ensures(f, (c,), Ok::<TwoTierData, E>(d)) && l.resolution_map() == two_tier_resolutions(
                d.resolutions@,
            ) && l.action_map() == two_tier_commits(d.actions@),
        Err(LoadError::Parse(e)) => call_ensures(f, (c,), Err::<TwoTierData, E>(e)),
        Err(LoadError::Unrecognized) => false,
    }
}

/// `r` is what the flat reader `f` made of `c`: the lock of the data it read,
/// or its parse error.
pub open spec fn read_flat<E, F: FnOnce(&str) -> Result<FlatData, E>>(
    r: Result<TieredLock, LoadError<E>>,
    f: F,
    c: &str,
) -> bool {
    match r {
        Ok(l) => exists|d: FlatData|
            call_ensures(f, (c,), Ok::<FlatData, E>(d)) && l.resolution_map() == flat_resolutions(d.actions@)
                && l.action_map() == flat_commits(d.actions@),
        Err(LoadError::Parse(e)) => call_ensures(f, (c,), Err::<FlatData, E>(e)),
        Err(LoadError::Unrecognized) => false,
    }
}

/// The lock in `content`, the text of the lock file (`None` when there is
/// none). A missing or blank file is an empty lock. Text with a `[resolutions`
/// table is the two-tier layout, read by `parse_two_tier`; otherwise text with
/// an `[actions` table is the flat layout, read by `parse_flat`; a parse error
/// is returned as it is. Any other text is refused as unrecognized.
pub fn load_lock_text<E, F, G>(content: Option<&str>, parse_two_tier: F, parse_flat: G) -> (r: Result<
    TieredLock,
    LoadError<E>,
>) where
    F: FnOnce(&str) -> Result<TwoTierData, E>,
    G: FnOnce(&str) -> Result<FlatData, E>,

    requires
        content matches Some(c) ==> call_requires(parse_two_tier, (c,)) && call_requires(parse_flat, (c,)),
    ensures
        r matches Ok(l) ==> l.wf(),
        (content matches Some(c) ==> blank(c@)) ==> (r matches Ok(l) && l.resolution_map() =~= Map::empty()
            && l.action_map() =~= Map::empty()),
        content matches Some(c) ==> (!blank(c@) && has_substring(c@, two_tier_marker()) ==> read_two_tier(
            r,
            parse_two_tier,
            c,
        )),
        content matches Some(c) ==> (!blank(c@) && !has_substring(c@, two_tier_marker()) && has_substring(
            c@,
            actions_marker(),
        ) ==> read_flat(r, parse_flat, c)),
        content matches Some(c) ==> (!blank(c@) && !has_substring(c@, two_tier_marker()) && !has_substring(
            c@,
            actions_marker(),
        ) ==> r matches Err(LoadError::Unrecognized)),
{
    let c = match content {
        None => return Ok(TieredLock::empty()),
        Some(c) => c,
    };
    let v = chars_of(c);
    if trim_chars(&v).len() == 0 {
        return Ok(TieredLock::empty());
    }
    match two_tier::try_parse(c, parse_two_tier) {
        Err(e) => return Err(LoadError::Parse(e)),
        Ok(Some(lock)) => return Ok(lock),
        Ok(None) => {},
    }
    match flat::try_parse(c, parse_flat) {
        Err(e) => Err(LoadError::Parse(e)),
        Ok(Some(lock)) => Ok(lock),
        Ok(None) => Err(LoadError::Unrecognized),
    }
}

} // verus!

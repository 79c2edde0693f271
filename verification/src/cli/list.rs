//! Which discovered monitors `list` prints.
use vstd::prelude::*;

use crate::platform::paths::{ext_sock, stem_prefix};
use crate::text::{chars_ends_with, chars_of, chars_starts_with, ends_with, starts_with, str_eq};

verus! {

/// The arguments of `list`.
pub struct ListArgs {
    /// The directory to scan (by convention when absent).
    pub dir: Option<String>,
    /// Only monitors in this state.
    pub state: Option<String>,
    /// Only monitors whose socket answers.
    pub live_only: bool,
}

/// A listed monitor is shown unless `--live-only` hides a dead one or
/// `--state` asks for a state it is not in (a dead monitor has no state).
pub open spec fn shown(live: bool, state: Option<Seq<char>>, want_state: Option<Seq<char>>, live_only: bool) -> bool {
    &&& !(live_only && !live)
    &&& match want_state {
        None => true,
        Some(w) => state == Some(w),
    }
}

/// See `shown`; `state` is the state string a live monitor reported.
pub fn keep(live: bool, state: &Option<String>, want_state: &Option<String>, live_only: bool) -> (r: bool)
    ensures
        r == shown(
            live,
            match state {
                Some(s) => Some(s@),
                None => None,
            },
            match want_state {
                Some(w) => Some(w@),
                None => None,
            },
            live_only,
        ),
{
    if live_only && !live {
        return false;
    }
    match want_state {
        Some(w) => match state {
            Some(s) => str_eq(s.as_str(), w.as_str()),
            None => false,
        },
        None => true,
    }
}

/// A directory entry `list` considers: `hbmon-*.sock`.
pub fn is_listed_entry(name: &str) -> (r: bool)
    ensures
        r == (starts_with(name@, stem_prefix()) && ends_with(name@, ext_sock())),
{
    let n = chars_of(name);
    let stem = chars_of("hbmon-");
    let sock = chars_of(".sock");
    proof {
        reveal_strlit("hbmon-");
        reveal_strlit(".sock");
        assert(stem@ =~= stem_prefix());
        assert(sock@ =~= ext_sock());
    }
    chars_starts_with(n.as_slice(), stem.as_slice()) && chars_ends_with(n.as_slice(), sock.as_slice())
}

/// What `list` shows: everything without filters; `--live-only` hides
/// exactly the dead monitors; `--state` shows exactly the live monitors in
/// that state, so never a dead one.
pub proof fn law_list_filters(live: bool, state: Option<Seq<char>>, w: Seq<char>, live_only: bool)
    ensures
        shown(live, state, None, false),
        shown(live, state, None, true) <==> live,
        shown(live, state, Some(w), false) <==> state == Some(w),
        shown(live, state, Some(w), live_only) ==> state == Some(w),
{
}

} // verus!

//! Decisions of the command-line tools that stand apart from their I/O:
//! which files `cleanup` may sweep, which listed monitors `list` shows, and
//! the `events` stream logic.
pub mod events;
pub mod exec;
pub mod kill;
pub mod list;
pub mod log;
pub mod shutdown;
pub mod status;
pub mod wait;
pub mod watch;

use vstd::prelude::*;

use crate::platform::paths::{
    ext_jsonl, ext_out, ext_pid, ext_sock, from_env, from_explicit, law_artifact_in_any_dir_recovers_uuid,
    lemma_after_last_concat, lemma_name_has_no_separator, stem_prefix, uuid_from_base, uuid_of_base,
    SockAddr,
};
use crate::util::uuid::uuid_check;
use crate::text::{after_last, chars_after_last, chars_ends_with, chars_of, chars_starts_with, ends_with, starts_with};

verus! {

/// The arguments of `cleanup`.
pub struct CleanupArgs {
    /// Remove files older than this many seconds (default 86400).
    pub older_than: u64,
    /// The directory to sweep (by convention when absent).
    pub dir: Option<String>,
}

pub open spec fn seq_views(s: Seq<String>) -> Seq<Seq<char>> {
    s.map_values(|x: String| x@)
}

/// Whether `cleanup` may remove the artifact `name` (age permitting): never
/// a file of a live monitor, whatever its age.
pub open spec fn may_sweep(name: Seq<char>, live: Seq<Seq<char>>) -> bool {
    match uuid_of_base(name) {
        Some(u) => !live.contains(u),
        None => true,
    }
}

fn contains_string(v: &[String], x: &str) -> (r: bool)
    ensures
        r == seq_views(v@).contains(x@),
{
    let n = v.len();
    for i in 0..n
        invariant
            n == v@.len(),
            forall|j: int| 0 <= j < i ==> seq_views(v@)[j] != x@,
    {
        if crate::text::str_eq(v[i].as_str(), x) {
            assert(seq_views(v@)[i as int] == x@);
            return true;
        }
    }
    false
}

/// See `may_sweep`; `live` lists the uuids whose socket answers.
pub fn sweep_decision(name: &str, live: &[String]) -> (r: bool)
    ensures
        r == may_sweep(name@, seq_views(live@)),
{
    match uuid_from_base(name) {
        Some(u) => !contains_string(live, u.as_str()),
        None => true,
    }
}

/// A live monitor's files are never swept: every artifact name that
/// carries a live uuid is kept.
pub proof fn law_live_family_protected(u: Seq<char>, name: Seq<char>, live: Seq<Seq<char>>)
    requires
        live.contains(u),
        uuid_of_base(name) == Some(u),
    ensures
        !may_sweep(name, live),
{
}

/// Files of no live monitor are swept (age permitting): a name carrying a
/// uuid that no live monitor has, and a name carrying no uuid at all.
pub proof fn law_dead_files_swept(name: Seq<char>, live: Seq<Seq<char>>)
    ensures
        uuid_of_base(name) matches Some(u) && !live.contains(u) ==> may_sweep(name, live),
        uuid_of_base(name) is None ==> may_sweep(name, live),
{
}

/// A file name `cleanup` considers: `hbmon-` and an artifact extension.
pub open spec fn is_artifact(name: Seq<char>) -> bool {
    starts_with(name, stem_prefix()) && (ends_with(name, ext_sock()) || ends_with(name, ext_pid())
        || ends_with(name, ext_jsonl()) || ends_with(name, ext_out()))
}

fn lit(s: &str) -> (r: Vec<char>)
    ensures
        r@ == s@,
{
    chars_of(s)
}

/// See `is_artifact`.
pub fn is_artifact_name(name: &str) -> (r: bool)
    ensures
        r == is_artifact(name@),
{
    let n = chars_of(name);
    let stem = lit("hbmon-");
    let sock = lit(".sock");
    let pid = lit(".pid");
    let jsonl = lit(".jsonl");
    let out = lit(".out");
    proof {
        reveal_strlit("hbmon-");
        reveal_strlit(".sock");
        reveal_strlit(".pid");
        reveal_strlit(".jsonl");
        reveal_strlit(".out");
        assert(stem@ =~= stem_prefix());
        assert(sock@ =~= ext_sock());
        assert(pid@ =~= ext_pid());
        assert(jsonl@ =~= ext_jsonl());
        assert(out@ =~= ext_out());
    }
    chars_starts_with(n.as_slice(), stem.as_slice()) && (chars_ends_with(n.as_slice(), sock.as_slice())
        || chars_ends_with(n.as_slice(), pid.as_slice()) || chars_ends_with(
        n.as_slice(),
        jsonl.as_slice(),
    ) || chars_ends_with(n.as_slice(), out.as_slice()))
}

/// Where to probe whether the monitor owning `path` is alive: only a
/// `.sock` file itself (probing a `.jsonl` or `.pid` path would test the
/// wrong file). The file name is the text after the last `/`.
pub fn live_probe_addr(uuid: &str, path: &str) -> (r: Option<SockAddr>)
    ensures
        match r {
            Some(a) => ends_with(after_last(path@, '/'), ext_sock()) && a@ == path@,
            None => !ends_with(after_last(path@, '/'), ext_sock()),
        },
{
    let pc = chars_of(path);
    let file = chars_after_last(pc.as_slice(), '/');
    let sock = lit(".sock");
    proof {
        reveal_strlit(".sock");
        assert(sock@ =~= ext_sock());
    }
    if chars_ends_with(file.as_slice(), sock.as_slice()) {
        Some(from_explicit(path))
    } else {
        None
    }
}

/// What entry `(name, path)` contributes to the probe list: the uuid that
/// `name` carries and `path` itself, when `path` may be probed.
pub open spec fn probe_of(name: Seq<char>, path: Seq<char>) -> Option<(Seq<char>, Seq<char>)> {
    match uuid_of_base(name) {
        Some(u) => if ends_with(after_last(path, '/'), ext_sock()) {
            Some((u, path))
        } else {
            None
        },
        None => None,
    }
}

/// `cleanup` probes a monitor through its socket file: in any directory,
/// `hbmon-<uuid>.sock` is probed for that uuid at that path, and the
/// monitor's log, pid and output files are never probed.
pub proof fn law_probe_sockets_only(dir: Seq<char>, u: Seq<char>, ext: Seq<char>)
    requires
        uuid_check(u) is Ok,
        dir.len() == 0 || dir.last() == '/' || dir.last() == '\\',
        ext == ext_sock() || ext == ext_jsonl() || ext == ext_pid() || ext == ext_out(),
    ensures
        ext == ext_sock() ==> probe_of(stem_prefix() + u + ext, dir + stem_prefix() + u + ext) == Some(
            (u, dir + stem_prefix() + u + ext),
        ),
        ext != ext_sock() ==> probe_of(stem_prefix() + u + ext, dir + stem_prefix() + u + ext) is None,
{
    let w = stem_prefix() + u + ext;
    law_artifact_in_any_dir_recovers_uuid(Seq::empty(), u, ext);
    assert(Seq::<char>::empty() + stem_prefix() + u + ext =~= w);
    lemma_name_has_no_separator(u, ext);
    let path = dir + stem_prefix() + u + ext;
    assert(path =~= dir + w);
    lemma_after_last_concat(dir, w, '/');
    let b = after_last(dir, '/') + w;
    let n = b.len();
    assert(b.skip(n - w.len()) =~= w);
    if ext == ext_sock() {
        assert(b.skip(n - 5) =~= ext_sock());
    } else {
        assert(b[n - 1] == w[w.len() - 1]);
        assert(!ends_with(b, ext_sock())) by {
            if ends_with(b, ext_sock()) {
                assert(b.skip(n - 5)[4] == 'k');
            }
        }
    }
}

/// The probe list of a directory listing, in entry order.
pub open spec fn candidates(entries: Seq<(String, String)>) -> Seq<(Seq<char>, Seq<char>)>
    decreases entries.len(),
{
    if entries.len() == 0 {
        seq![]
    } else {
        let prev = candidates(entries.drop_last());
        match probe_of(entries.last().0@, entries.last().1@) {
            Some(c) => prev.push(c),
            None => prev,
        }
    }
}

/// The monitors `cleanup` should probe: for each `(file name, path)` entry
/// that names a uuid and may be probed (see `live_probe_addr`), that uuid
/// and its address, in entry order.
pub fn live_candidates(entries: &[(String, String)]) -> (r: Vec<(String, SockAddr)>)
    ensures
        r@.len() == candidates(entries@).len(),
        forall|k: int| 0 <= k < r@.len() ==> (#[trigger] r@[k].0@, r@[k].1@) == candidates(entries@)[k],
{
    let mut out: Vec<(String, SockAddr)> = Vec::new();
    let n = entries.len();
    let mut i: usize = 0;
    while i < n
        invariant
            n == entries@.len(),
            i <= n,
            out@.len() == candidates(entries@.take(i as int)).len(),
            forall|k: int|
                0 <= k < out@.len() ==> (#[trigger] out@[k].0@, out@[k].1@) == candidates(
                    entries@.take(i as int),
                )[k],
        decreases n - i,
    {
        let name = &entries[i].0;
        let path = &entries[i].1;
        proof {
            assert(entries@.take(i + 1).drop_last() =~= entries@.take(i as int));
            assert(entries@.take(i + 1).last() == entries@[i as int]);
        }
        match uuid_from_base(name.as_str()) {
            Some(u) => match live_probe_addr(u.as_str(), path.as_str()) {
                Some(a) => {
                    out.push((u, a));
                },
                None => {},
            },
            None => {},
        }
        i = i + 1;
    }
    proof {
        assert(entries@.take(n as int) =~= entries@);
    }
    out
}

/// Which socket a client talks to: an explicit `--sock` first, then a
/// non-empty `$HBMON_SOCK`, then the newest convention socket found.
pub open spec fn resolved_sock(
    explicit: Option<Seq<char>>,
    env: Option<Seq<char>>,
    newest: Option<Seq<char>>,
) -> Result<Seq<char>, Seq<char>> {
    match explicit {
        Some(p) => Ok(p),
        None => match env {
            Some(e) if e.len() > 0 => Ok(e),
            _ => match newest {
                Some(a) => Ok(a),
                None => Err("no monitor found: pass --sock or set HBMON_SOCK"@),
            },
        },
    }
}

/// The discovery order `--sock` > `$HBMON_SOCK` > newest socket: an
/// explicit socket wins over everything; without one, a non-empty
/// `$HBMON_SOCK` wins over any socket found; an unset or empty
/// `$HBMON_SOCK` falls back to the newest socket; with none of the three
/// there is no monitor to talk to.
pub proof fn law_socket_discovery_order(
    p: Seq<char>,
    e: Seq<char>,
    env: Option<Seq<char>>,
    newest: Option<Seq<char>>,
    a: Seq<char>,
)
    ensures
        resolved_sock(Some(p), env, newest) == Ok::<Seq<char>, Seq<char>>(p),
        e.len() > 0 ==> resolved_sock(None, Some(e), newest) == Ok::<Seq<char>, Seq<char>>(e),
        (env is None || env == Some(Seq::<char>::empty())) ==> resolved_sock(None, env, Some(a))
            == Ok::<Seq<char>, Seq<char>>(a),
        (env is None || env == Some(Seq::<char>::empty())) ==> resolved_sock(None, env, None) is Err,
{
}

/// Resolves the socket a client talks to from `--sock`, the value of
/// `$HBMON_SOCK` (if set) and the newest convention socket (if any).
pub fn resolve_sock(explicit: Option<String>, env: Option<String>, newest: Option<SockAddr>) -> (r:
    Result<SockAddr, String>)
    ensures
        match r {
            Ok(a) => resolved_sock(
                match explicit {
                    Some(p) => Some(p@),
                    None => None,
                },
                match env {
                    Some(e) => Some(e@),
                    None => None,
                },
                match newest {
                    Some(n) => Some(n@),
                    None => None,
                },
            ) == Ok::<Seq<char>, Seq<char>>(a@),
            Err(e) => resolved_sock(
                match explicit {
                    Some(p) => Some(p@),
                    None => None,
                },
                match env {
                    Some(e) => Some(e@),
                    None => None,
                },
                match newest {
                    Some(n) => Some(n@),
                    None => None,
                },
            ) == Err::<Seq<char>, Seq<char>>(e@),
        },
{
    match explicit {
        Some(p) => Ok(from_explicit(p.as_str())),
        None => {
            match env {
                Some(e) => {
                    if chars_of(e.as_str()).len() > 0 {
                        return Ok(from_env(e.as_str()));
                    }
                },
                None => {},
            }
            match newest {
                Some(a) => Ok(a),
                None => Err(String::from_str("no monitor found: pass --sock or set HBMON_SOCK")),
            }
        },
    }
}

} // verus!

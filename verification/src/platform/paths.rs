//! Artifact naming convention: a monitor `<uuid>` owns `hbmon-<uuid>.sock`,
//! `.jsonl`, `.pid` and `.out` under `/tmp` (a named pipe
//! `\\.\pipe\hbmon-<uuid>` on Windows), and every artifact name gives its
//! uuid back.
use vstd::prelude::*;

use crate::util::uuid::{is_uuid_char, uuid_check};

use crate::text::{after_last, last_pos, lemma_last_pos_absent_suffix, chars_after_last, chars_ends_with, chars_of, chars_range, chars_starts_with, ends_with, push_chars, starts_with, string_of};

verus! {

/// Address of a monitor's transport: a Unix socket path, or a Windows pipe name.
pub struct SockAddr {
    name: String,
}

impl View for SockAddr {
    type V = Seq<char>;

    closed spec fn view(&self) -> Seq<char> {
        self.name@
    }
}

impl SockAddr {
    /// The address text (the pipe name, on Windows).
    pub fn pipe_name(&self) -> (r: &str)
        ensures
            r@ == self@,
    {
        self.name.as_str()
    }
}

pub open spec fn tmp_prefix() -> Seq<char> {
    seq!['/', 't', 'm', 'p', '/', 'h', 'b', 'm', 'o', 'n', '-']
}

pub open spec fn stem_prefix() -> Seq<char> {
    seq!['h', 'b', 'm', 'o', 'n', '-']
}

/// `\\.\pipe\`, the namespace of Windows named pipes.
pub open spec fn pipe_ns() -> Seq<char> {
    seq!['\\', '\\', '.', '\\', 'p', 'i', 'p', 'e', '\\']
}

pub open spec fn ext_sock() -> Seq<char> {
    seq!['.', 's', 'o', 'c', 'k']
}

pub open spec fn ext_jsonl() -> Seq<char> {
    seq!['.', 'j', 's', 'o', 'n', 'l']
}

pub open spec fn ext_pid() -> Seq<char> {
    seq!['.', 'p', 'i', 'd']
}

pub open spec fn ext_out() -> Seq<char> {
    seq!['.', 'o', 'u', 't']
}

/// `/tmp/hbmon-<uuid><ext>`.
pub open spec fn artifact_path(uuid: Seq<char>, ext: Seq<char>) -> Seq<char> {
    tmp_prefix() + uuid + ext
}

/// `\\.\pipe\hbmon-<uuid>`.
pub open spec fn pipe_of(uuid: Seq<char>) -> Seq<char> {
    pipe_ns() + stem_prefix() + uuid
}

/// The first artifact extension `b` ends with, removed (`b` unchanged
/// without one).
pub open spec fn strip_artifact_ext(b: Seq<char>) -> Seq<char> {
    if ends_with(b, ext_sock()) {
        b.take(b.len() - 5)
    } else if ends_with(b, ext_jsonl()) {
        b.take(b.len() - 6)
    } else if ends_with(b, ext_pid()) {
        b.take(b.len() - 4)
    } else if ends_with(b, ext_out()) {
        b.take(b.len() - 4)
    } else {
        b
    }
}

/// The uuid an artifact name or path carries: its last path component
/// (after `/` and `\`), less `hbmon-` and one artifact extension; `None`
/// without the prefix or when nothing is left.
pub open spec fn uuid_of_base(base: Seq<char>) -> Option<Seq<char>> {
    let b = after_last(after_last(base, '/'), '\\');
    if starts_with(b, stem_prefix()) {
        let u = strip_artifact_ext(b.skip(6));
        if u.len() == 0 {
            None
        } else {
            Some(u)
        }
    } else {
        None
    }
}

fn lit_chars(s: &str) -> (r: Vec<char>)
    ensures
        r@ == s@,
{
    chars_of(s)
}

fn ext_vec(which: u8) -> (r: Vec<char>)
    requires
        which < 4,
    ensures
        which == 0 ==> r@ == ext_sock(),
        which == 1 ==> r@ == ext_jsonl(),
        which == 2 ==> r@ == ext_pid(),
        which == 3 ==> r@ == ext_out(),
{
    let mut v: Vec<char> = Vec::new();
    v.push('.');
    if which == 0 {
        v.push('s');
        v.push('o');
        v.push('c');
        v.push('k');
    } else if which == 1 {
        v.push('j');
        v.push('s');
        v.push('o');
        v.push('n');
        v.push('l');
    } else if which == 2 {
        v.push('p');
        v.push('i');
        v.push('d');
    } else {
        v.push('o');
        v.push('u');
        v.push('t');
    }
    assert(which == 0 ==> v@ =~= ext_sock());
    assert(which == 1 ==> v@ =~= ext_jsonl());
    assert(which == 2 ==> v@ =~= ext_pid());
    assert(which == 3 ==> v@ =~= ext_out());
    v
}

fn stem_vec() -> (r: Vec<char>)
    ensures
        r@ == stem_prefix(),
{
    let mut v: Vec<char> = Vec::new();
    v.push('h');
    v.push('b');
    v.push('m');
    v.push('o');
    v.push('n');
    v.push('-');
    assert(v@ =~= stem_prefix());
    v
}

fn pipe_ns_vec() -> (r: Vec<char>)
    ensures
        r@ == pipe_ns(),
{
    let mut v: Vec<char> = Vec::new();
    v.push('\\');
    v.push('\\');
    v.push('.');
    v.push('\\');
    v.push('p');
    v.push('i');
    v.push('p');
    v.push('e');
    v.push('\\');
    assert(v@ =~= pipe_ns());
    v
}

/// The uuid in an artifact name (`hbmon-<uuid>.sock`, `.jsonl`, `.pid`,
/// `.out`, a bare `hbmon-<uuid>` or a pipe name), see `uuid_of_base`.
pub fn uuid_from_base(base: &str) -> (r: Option<String>)
    ensures
        match r {
            None => uuid_of_base(base@) == None::<Seq<char>>,
            Some(u) => uuid_of_base(base@) == Some(u@),
        },
{
    let bc = chars_of(base);
    let b1 = chars_after_last(bc.as_slice(), '/');
    let b = chars_after_last(b1.as_slice(), '\\');
    let stem = stem_vec();
    if !chars_starts_with(b.as_slice(), stem.as_slice()) {
        return None;
    }
    let rest = chars_range(b.as_slice(), 6, b.len());
    assert(rest@ == b@.skip(6));
    let n = rest.len();
    let u: Vec<char> = if chars_ends_with(rest.as_slice(), ext_vec(0).as_slice()) {
        chars_range(rest.as_slice(), 0, n - 5)
    } else if chars_ends_with(rest.as_slice(), ext_vec(1).as_slice()) {
        chars_range(rest.as_slice(), 0, n - 6)
    } else if chars_ends_with(rest.as_slice(), ext_vec(2).as_slice()) {
        chars_range(rest.as_slice(), 0, n - 4)
    } else if chars_ends_with(rest.as_slice(), ext_vec(3).as_slice()) {
        chars_range(rest.as_slice(), 0, n - 4)
    } else {
        chars_range(rest.as_slice(), 0, n)
    };
    assert(rest@.subrange(0, n as int) == rest@);
    if u.len() == 0 {
        None
    } else {
        Some(string_of(u.as_slice()))
    }
}

fn artifact(uuid: &str, which: u8) -> (r: String)
    requires
        which < 4,
    ensures
        which == 0 ==> r@ == artifact_path(uuid@, ext_sock()),
        which == 1 ==> r@ == artifact_path(uuid@, ext_jsonl()),
        which == 2 ==> r@ == artifact_path(uuid@, ext_pid()),
        which == 3 ==> r@ == artifact_path(uuid@, ext_out()),
{
    let mut v: Vec<char> = Vec::new();
    v.push('/');
    v.push('t');
    v.push('m');
    v.push('p');
    v.push('/');
    let stem = stem_vec();
    push_chars(&mut v, stem.as_slice());
    let u = chars_of(uuid);
    push_chars(&mut v, u.as_slice());
    let e = ext_vec(which);
    push_chars(&mut v, e.as_slice());
    assert(v@ =~= tmp_prefix() + uuid@ + e@);
    string_of(v.as_slice())
}

/// Default transport address of monitor `uuid`: `/tmp/hbmon-<uuid>.sock`.
pub fn default_sock(uuid: &str) -> (r: SockAddr)
    ensures
        r@ == artifact_path(uuid@, ext_sock()),
{
    SockAddr { name: artifact(uuid, 0) }
}

/// Default event log of monitor `uuid`: `/tmp/hbmon-<uuid>.jsonl`.
pub fn default_log(uuid: &str) -> (r: String)
    ensures
        r@ == artifact_path(uuid@, ext_jsonl()),
{
    artifact(uuid, 1)
}

/// Default pid file of monitor `uuid`: `/tmp/hbmon-<uuid>.pid`.
pub fn default_pidfile(uuid: &str) -> (r: String)
    ensures
        r@ == artifact_path(uuid@, ext_pid()),
{
    artifact(uuid, 2)
}

/// Default build output file of monitor `uuid`: `/tmp/hbmon-<uuid>.out`.
pub fn default_out(uuid: &str) -> (r: String)
    ensures
        r@ == artifact_path(uuid@, ext_out()),
{
    artifact(uuid, 3)
}

/// Windows transport address of monitor `uuid`: `\\.\pipe\hbmon-<uuid>`.
pub fn default_pipe(uuid: &str) -> (r: SockAddr)
    ensures
        r@ == pipe_of(uuid@),
{
    let mut v = pipe_ns_vec();
    let stem = stem_vec();
    push_chars(&mut v, stem.as_slice());
    let u = chars_of(uuid);
    push_chars(&mut v, u.as_slice());
    assert(v@ =~= pipe_of(uuid@));
    SockAddr { name: string_of(v.as_slice()) }
}

/// An explicit `--sock` path is the address itself.
pub fn from_explicit(p: &str) -> (r: SockAddr)
    ensures
        r@ == p@,
{
    SockAddr { name: String::from_str(p) }
}

/// A `$HBMON_SOCK` value is the address itself.
pub fn from_env(s: &str) -> (r: SockAddr)
    ensures
        r@ == s@,
{
    SockAddr { name: String::from_str(s) }
}

/// Windows pipe name for an explicit `--sock`: a full pipe name is kept; a
/// Unix-style artifact path gives its uuid's pipe; any other value is put in
/// the pipe namespace as is.
pub open spec fn explicit_pipe(p: Seq<char>) -> Seq<char> {
    if starts_with(p, pipe_ns()) {
        p
    } else {
        match uuid_of_base(p) {
            Some(u) => pipe_of(u),
            None => pipe_ns() + p,
        }
    }
}

/// See `explicit_pipe`.
pub fn from_explicit_windows(p: &str) -> (r: String)
    ensures
        r@ == explicit_pipe(p@),
{
    let pc = chars_of(p);
    let ns = pipe_ns_vec();
    if chars_starts_with(pc.as_slice(), ns.as_slice()) {
        return String::from_str(p);
    }
    match uuid_from_base(p) {
        Some(u) => {
            let a = default_pipe(u.as_str());
            sock_display(&a)
        },
        None => {
            let mut v = ns;
            push_chars(&mut v, pc.as_slice());
            string_of(v.as_slice())
        },
    }
}

/// Windows address for a `$HBMON_SOCK` value: a full pipe name is kept,
/// a bare name is put in the pipe namespace.
pub fn from_env_windows(s: &str) -> (r: SockAddr)
    ensures
        r@ == (if starts_with(s@, pipe_ns()) {
            s@
        } else {
            pipe_ns() + s@
        }),
{
    let sc = chars_of(s);
    let mut v = pipe_ns_vec();
    if chars_starts_with(sc.as_slice(), v.as_slice()) {
        return SockAddr { name: String::from_str(s) };
    }
    push_chars(&mut v, sc.as_slice());
    SockAddr { name: string_of(v.as_slice()) }
}

/// Address text for handshakes and log lines.
pub fn sock_display(a: &SockAddr) -> (r: String)
    ensures
        r@ == a@,
{
    a.name.clone()
}

/// `s` has no character outside the uuid alphabet.
pub open spec fn uuid_chars(s: Seq<char>) -> bool {
    forall|i: int| 0 <= i < s.len() ==> is_uuid_char(#[trigger] s[i])
}

proof fn lemma_no_char_after(s: Seq<char>, c: char, j: int)
    requires
        0 <= j <= s.len(),
        forall|k: int| j <= k < s.len() ==> s[k] != c,
        j > 0 ==> s[j - 1] == c,
    ensures
        last_pos(s, c) == j - 1,
    decreases j,
{
    lemma_last_pos_absent_suffix(s, c, j);
    if j > 0 {
        assert(s.take(j).last() == c);
    } else {
        assert(s.take(0).len() == 0);
    }
}

/// An artifact extension cannot end a string of uuid characters.
proof fn lemma_ext_not_in_uuid(u: Seq<char>, ext: Seq<char>)
    requires
        uuid_chars(u),
        ext.len() > 0,
        ext[0] == '.',
    ensures
        !ends_with(u, ext),
{
    if ends_with(u, ext) {
        assert(u.skip(u.len() - ext.len())[0] == '.');
        assert(is_uuid_char(u[u.len() - ext.len()]));
    }
}

proof fn lemma_artifact_uuid(u: Seq<char>, ext: Seq<char>)
    requires
        u.len() > 0,
        uuid_chars(u),
        ext == ext_sock() || ext == ext_jsonl() || ext == ext_pid() || ext == ext_out(),
    ensures
        uuid_of_base(artifact_path(u, ext)) == Some(u),
{
    let s = artifact_path(u, ext);
    assert forall|k: int| 5 <= k < s.len() implies s[k] != '/' by {
        if k < 11 {
        } else if k < 11 + u.len() {
            assert(s[k] == u[k - 11]);
            assert(is_uuid_char(u[k - 11]));
        } else {
            assert(s[k] == ext[k - 11 - u.len()]);
        }
    }
    lemma_no_char_after(s, '/', 5);
    let b = after_last(s, '/');
    assert(b =~= stem_prefix() + u + ext);
    assert forall|k: int| 0 <= k < b.len() implies b[k] != '\\' by {
        if k < 6 {
        } else if k < 6 + u.len() {
            assert(b[k] == u[k - 6]);
            assert(is_uuid_char(u[k - 6]));
        } else {
            assert(b[k] == ext[k - 6 - u.len()]);
        }
    }
    lemma_no_char_after(b, '\\', 0);
    assert(after_last(b, '\\') =~= b);
    assert(b.take(6) =~= stem_prefix());
    let r = b.skip(6);
    assert(r =~= u + ext);
    let n = r.len();
    if ext == ext_sock() {
        assert(r.skip(n - 5) =~= ext_sock());
        assert(r.take(n - 5) =~= u);
    } else if ext == ext_jsonl() {
        assert(r[n - 1] == 'l');
        assert(!ends_with(r, ext_sock())) by {
            if ends_with(r, ext_sock()) {
                assert(r.skip(n - 5)[4] == 'k');
            }
        }
        assert(r.skip(n - 6) =~= ext_jsonl());
        assert(r.take(n - 6) =~= u);
    } else if ext == ext_pid() {
        assert(r[n - 1] == 'd');
        assert(!ends_with(r, ext_sock())) by {
            if ends_with(r, ext_sock()) {
                assert(r.skip(n - 5)[4] == 'k');
            }
        }
        assert(!ends_with(r, ext_jsonl())) by {
            if ends_with(r, ext_jsonl()) {
                assert(r.skip(n - 6)[5] == 'l');
            }
        }
        assert(r.skip(n - 4) =~= ext_pid());
        assert(r.take(n - 4) =~= u);
    } else {
        assert(r[n - 1] == 't');
        assert(!ends_with(r, ext_sock())) by {
            if ends_with(r, ext_sock()) {
                assert(r.skip(n - 5)[4] == 'k');
            }
        }
        assert(!ends_with(r, ext_jsonl())) by {
            if ends_with(r, ext_jsonl()) {
                assert(r.skip(n - 6)[5] == 'l');
            }
        }
        assert(!ends_with(r, ext_pid())) by {
            if ends_with(r, ext_pid()) {
                assert(r.skip(n - 4)[3] == 'd');
            }
        }
        assert(r.skip(n - 4) =~= ext_out());
        assert(r.take(n - 4) =~= u);
    }
}

proof fn lemma_pipe_uuid(u: Seq<char>)
    requires
        u.len() > 0,
        uuid_chars(u),
    ensures
        uuid_of_base(pipe_of(u)) == Some(u),
{
    let s = pipe_of(u);
    assert forall|k: int| 0 <= k < s.len() implies s[k] != '/' by {
        if k >= 15 {
            assert(s[k] == u[k - 15]);
            assert(is_uuid_char(u[k - 15]));
        }
    }
    lemma_no_char_after(s, '/', 0);
    assert(after_last(s, '/') =~= s);
    assert forall|k: int| 9 <= k < s.len() implies s[k] != '\\' by {
        if k >= 15 {
            assert(s[k] == u[k - 15]);
            assert(is_uuid_char(u[k - 15]));
        }
    }
    lemma_no_char_after(s, '\\', 9);
    let b = after_last(s, '\\');
    assert(b =~= stem_prefix() + u);
    assert(b.take(6) =~= stem_prefix());
    assert(b.skip(6) =~= u);
    lemma_ext_not_in_uuid(u, ext_sock());
    lemma_ext_not_in_uuid(u, ext_jsonl());
    lemma_ext_not_in_uuid(u, ext_pid());
    lemma_ext_not_in_uuid(u, ext_out());
}

/// Every artifact of a monitor, and its pipe name, gives back the uuid it
/// was named after, for every uuid the `--uuid` check accepts; and an
/// explicit Unix-style socket path becomes that monitor's pipe on Windows.
pub proof fn law_artifact_names_recover_uuid(u: Seq<char>)
    requires
        uuid_check(u) is Ok,
    ensures
        uuid_of_base(artifact_path(u, ext_sock())) == Some(u),
        uuid_of_base(artifact_path(u, ext_jsonl())) == Some(u),
        uuid_of_base(artifact_path(u, ext_pid())) == Some(u),
        uuid_of_base(artifact_path(u, ext_out())) == Some(u),
        uuid_of_base(pipe_of(u)) == Some(u),
        explicit_pipe(artifact_path(u, ext_sock())) == pipe_of(u),
{
    lemma_artifact_uuid(u, ext_sock());
    lemma_artifact_uuid(u, ext_jsonl());
    lemma_artifact_uuid(u, ext_pid());
    lemma_artifact_uuid(u, ext_out());
    lemma_pipe_uuid(u);
    let s = artifact_path(u, ext_sock());
    assert(!starts_with(s, pipe_ns())) by {
        if starts_with(s, pipe_ns()) {
            assert(s.take(9)[0] == '\\');
        }
    }
}

/// `last_pos` never points outside its string.
proof fn lemma_last_pos_range(s: Seq<char>, c: char)
    ensures
        -1 <= last_pos(s, c) < s.len(),
        last_pos(s, c) >= 0 ==> s[last_pos(s, c)] == c,
    decreases s.len(),
{
    if s.len() > 0 && s.last() != c {
        lemma_last_pos_range(s.drop_last(), c);
    }
}

/// What follows the last `c` of `x + y`, when `y` holds no `c`.
pub(crate) proof fn lemma_after_last_concat(x: Seq<char>, y: Seq<char>, c: char)
    requires
        forall|k: int| 0 <= k < y.len() ==> y[k] != c,
    ensures
        after_last(x + y, c) == after_last(x, c) + y,
{
    let s = x + y;
    assert forall|k: int| x.len() <= k < s.len() implies s[k] != c by {
        assert(s[k] == y[k - x.len()]);
    }
    lemma_last_pos_absent_suffix(s, c, x.len() as int);
    assert(s.take(x.len() as int) =~= x);
    lemma_last_pos_range(x, c);
    assert(after_last(s, c) =~= after_last(x, c) + y);
}

/// A directory part that is empty or ends in a separator disappears from a
/// path once the last component is taken: after the last `/`, then after
/// the last `\`, only the file name `w` is left.
proof fn lemma_dir_dropped(dir: Seq<char>, w: Seq<char>)
    requires
        dir.len() == 0 || dir.last() == '/' || dir.last() == '\\',
        forall|k: int| 0 <= k < w.len() ==> w[k] != '/' && w[k] != '\\',
    ensures
        after_last(after_last(dir + w, '/'), '\\') == w,
{
    lemma_after_last_concat(dir, w, '/');
    let d2 = after_last(dir, '/');
    lemma_after_last_concat(d2, w, '\\');
    lemma_last_pos_range(dir, '/');
    if dir.len() == 0 || dir.last() == '/' {
        assert(d2.len() == 0);
    } else {
        assert(last_pos(dir, '/') == last_pos(dir.drop_last(), '/'));
        lemma_last_pos_range(dir.drop_last(), '/');
        assert(d2.len() > 0);
        assert(d2.last() == dir.last());
    }
    assert(after_last(d2, '\\').len() == 0);
    assert(after_last(d2, '\\') + w =~= w);
}

/// `hbmon-<uuid><ext>` holds no path separator.
pub(crate) proof fn lemma_name_has_no_separator(u: Seq<char>, ext: Seq<char>)
    requires
        uuid_chars(u),
        ext.len() == 0 || ext == ext_sock() || ext == ext_jsonl() || ext == ext_pid() || ext == ext_out(),
    ensures
        forall|k: int|
            0 <= k < (stem_prefix() + u + ext).len() ==> (stem_prefix() + u + ext)[k] != '/' && (
            stem_prefix() + u + ext)[k] != '\\',
{
    let w = stem_prefix() + u + ext;
    assert forall|k: int| 0 <= k < w.len() implies w[k] != '/' && w[k] != '\\' by {
        if k < 6 {
        } else if k < 6 + u.len() {
            assert(w[k] == u[k - 6]);
            assert(is_uuid_char(u[k - 6]));
        } else {
            assert(w[k] == ext[k - 6 - u.len()]);
        }
    }
}

/// A monitor's artifact names give back its uuid in any directory: for
/// every uuid the `--uuid` check accepts, every directory part that is
/// empty or ends in `/` or `\`, and the socket, log, pid and output
/// extensions or none, `<dir>hbmon-<uuid><ext>` carries `<uuid>`.
pub proof fn law_artifact_in_any_dir_recovers_uuid(dir: Seq<char>, u: Seq<char>, ext: Seq<char>)
    requires
        uuid_check(u) is Ok,
        dir.len() == 0 || dir.last() == '/' || dir.last() == '\\',
        ext.len() == 0 || ext == ext_sock() || ext == ext_jsonl() || ext == ext_pid() || ext == ext_out(),
    ensures
        uuid_of_base(dir + stem_prefix() + u + ext) == Some(u),
{
    let w = stem_prefix() + u + ext;
    lemma_name_has_no_separator(u, ext);
    assert(dir + stem_prefix() + u + ext =~= dir + w);
    lemma_dir_dropped(dir, w);
    if ext.len() == 0 {
        assert(w.take(6) =~= stem_prefix());
        assert(w.skip(6) =~= u);
        lemma_ext_not_in_uuid(u, ext_sock());
        lemma_ext_not_in_uuid(u, ext_jsonl());
        lemma_ext_not_in_uuid(u, ext_pid());
        lemma_ext_not_in_uuid(u, ext_out());
    } else {
        let slash = seq!['/', 't', 'm', 'p', '/'];
        lemma_dir_dropped(slash, w);
        assert(slash + w =~= artifact_path(u, ext));
        lemma_artifact_uuid(u, ext);
    }
}

/// A directory entry that names a monitor socket: `hbmon-*.sock`.
pub open spec fn is_sock_name(name: Seq<char>) -> bool {
    starts_with(name, stem_prefix()) && ends_with(name, ext_sock())
}

/// The newest socket among `entries` from index `i` on, given the best so
/// far: an entry counts when its name is a socket name and its modification
/// time is known; a later entry wins only when strictly newer.
pub open spec fn newest_from(
    entries: Seq<(Seq<char>, Seq<char>, Option<i128>)>,
    i: int,
    best: Option<(i128, Seq<char>)>,
) -> Option<(i128, Seq<char>)>
    decreases entries.len() - i,
{
    if i < 0 || i >= entries.len() {
        best
    } else {
        let (name, path, mtime) = entries[i];
        let newer = match (mtime, best) {
            (Some(t), Some((bt, _))) => t > bt,
            (Some(_), None) => true,
            (None, _) => false,
        };
        let next = if is_sock_name(name) && newer {
            Some((mtime->0, path))
        } else {
            best
        };
        newest_from(entries, i + 1, next)
    }
}

/// A socket entry whose modification time is known.
pub open spec fn dated_sock(e: (Seq<char>, Seq<char>, Option<i128>)) -> bool {
    is_sock_name(e.0) && e.2 is Some
}

/// The newest socket is chosen among dated socket entries (from index `i`
/// on, against the best so far): there is one exactly when such an entry
/// exists (or a best was given); the one chosen is such an entry (or the
/// best given), and nothing considered is newer.
pub proof fn law_newest_is_newest(
    es: Seq<(Seq<char>, Seq<char>, Option<i128>)>,
    i: int,
    best: Option<(i128, Seq<char>)>,
)
    requires
        0 <= i <= es.len(),
    ensures
        (newest_from(es, i, best) is None) <==> (best is None && forall|k: int|
            i <= k < es.len() ==> !dated_sock(#[trigger] es[k])),
        newest_from(es, i, best) matches Some((t, p)) ==> {
            &&& (best == Some((t, p)) || exists|k: int|
                i <= k < es.len() && dated_sock(#[trigger] es[k]) && es[k].2 == Some(t) && es[k].1 == p)
            &&& forall|k: int| i <= k < es.len() && dated_sock(#[trigger] es[k]) ==> es[k].2->0 <= t
            &&& best matches Some((bt, _)) ==> bt <= t
        },
    decreases es.len() - i,
{
    if i < es.len() {
        let (name, path, mtime) = es[i];
        let newer = match (mtime, best) {
            (Some(t), Some((bt, _))) => t > bt,
            (Some(_), None) => true,
            (None, _) => false,
        };
        let next = if is_sock_name(name) && newer {
            Some((mtime->0, path))
        } else {
            best
        };
        law_newest_is_newest(es, i + 1, next);
        let r = newest_from(es, i, best);
        assert(r == newest_from(es, i + 1, next));
        if r is None {
            assert forall|k: int| i <= k < es.len() implies !dated_sock(#[trigger] es[k]) by {
                if k > i {
                } else {
                    assert(!(is_sock_name(name) && newer));
                }
            }
        }
        match r {
            Some((t, p)) => {
                assert forall|k: int| i <= k < es.len() && dated_sock(#[trigger] es[k]) implies es[k].2->0
                    <= t by {
                    if k == i {
                        match next {
                            Some((nt, _)) => assert(nt <= t),
                            None => {},
                        }
                    }
                }
                if best != Some((t, p)) {
                    if next == Some((t, p)) && is_sock_name(name) && newer {
                        assert(dated_sock(es[i]) && es[i].2 == Some(t) && es[i].1 == p);
                    } else {
                        let k = choose|k: int|
                            i + 1 <= k < es.len() && dated_sock(#[trigger] es[k]) && es[k].2 == Some(t)
                                && es[k].1 == p;
                        assert(dated_sock(es[k]));
                    }
                }
            },
            None => {},
        }
    }
}

/// The views of `(file name, path, modification time)` entries.
pub open spec fn entry_views(entries: Seq<(String, String, Option<i128>)>) -> Seq<
    (Seq<char>, Seq<char>, Option<i128>),
> {
    entries.map_values(|e: (String, String, Option<i128>)| (e.0@, e.1@, e.2))
}

/// The most recently modified monitor socket of a directory listing:
/// `(file name, path, modification time in nanoseconds, if known)` entries
/// in listing order; among equally new ones the first listed wins.
pub fn newest_sock_among(entries: &[(String, String, Option<i128>)]) -> (r: Option<SockAddr>)
    ensures
        match newest_from(entry_views(entries@), 0, None) {
            Some((_, p)) => r is Some && r->0@ == p,
            None => r is None,
        },
{
    let ghost es = entry_views(entries@);
    let stem = chars_of("hbmon-");
    let sock = chars_of(".sock");
    proof {
        reveal_strlit("hbmon-");
        reveal_strlit(".sock");
        assert(stem@ =~= stem_prefix());
        assert(sock@ =~= ext_sock());
    }
    let mut best: Option<(i128, usize)> = None;
    let n = entries.len();
    let mut i: usize = 0;
    while i < n
        invariant
            n == entries@.len(),
            es == entry_views(entries@),
            stem@ == stem_prefix(),
            sock@ == ext_sock(),
            i <= n,
            newest_from(es, 0, None) == newest_from(
                es,
                i as int,
                match best {
                    Some((t, j)) => Some((t, es[j as int].1)),
                    None => None,
                },
            ),
            match best {
                Some((_, j)) => j < n,
                None => true,
            },
        decreases n - i,
    {
        let e = &entries[i];
        assert(es[i as int] == (e.0@, e.1@, e.2));
        let nc = chars_of(e.0.as_str());
        let named = chars_starts_with(nc.as_slice(), stem.as_slice()) && chars_ends_with(
            nc.as_slice(),
            sock.as_slice(),
        );
        match e.2 {
            Some(t) => {
                if named {
                    match best {
                        Some((bt, _)) => {
                            if t > bt {
                                best = Some((t, i));
                            }
                        },
                        None => {
                            best = Some((t, i));
                        },
                    }
                }
            },
            None => {},
        }
        i = i + 1;
    }
    match best {
        Some((_, j)) => Some(SockAddr { name: entries[j].1.clone() }),
        None => None,
    }
}

} // verus!

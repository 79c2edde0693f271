//! Recognising missing-dependency messages in build output: a fixed table
//! of regular expressions, tried in order on the first 300 characters of a
//! line; the first pattern that matches names the dependency kind.
use vstd::prelude::*;

use crate::text::{chars_of, string_of};

verus! {

/// How many characters of a line are kept for matching and reporting.
pub const MATCH_TEXT_MAX: usize = 300;

/// How many patterns the table holds.
pub const DEP_PATTERN_COUNT: usize = 10;

/// What compiling `pattern` with `regex::Regex::new` and asking
/// `Regex::is_match` on `text` answers: `None` when the pattern does not
/// compile, otherwise whether it matches somewhere in `text`.
pub uninterp spec fn regex_verdict(pattern: Seq<char>, text: Seq<char>) -> Option<bool>;

/// `regex::Regex::new(pattern)` followed by `Regex::is_match(text)`.
/// Claimed: the answer is a function of the two strings alone, named
/// `regex_verdict`; nothing is claimed of what the regular expression
/// language means.
#[verifier::external_body]
fn regex_is_match(pattern: &str, text: &str) -> (r: Option<bool>)
    ensures
        r == regex_verdict(pattern@, text@),
{
    match regex::Regex::new(pattern) {
        Ok(re) => Some(re.is_match(text)),
        Err(_) => None,
    }
}

/// Row `i` of the pattern table: `(pattern id, category, regular expression)`.
pub open spec fn dep_pattern(i: int) -> (Seq<char>, Seq<char>, Seq<char>) {
    if i == 0 {
        ("cmd_not_found"@, "dep_missing:command"@, "(?i)command not found"@)
    } else if i == 1 {
        ("no_such_file"@, "dep_missing:path"@, "No such file or directory"@)
    } else if i == 2 {
        ("npm_module"@, "dep_missing:npm"@, "Cannot find module ['\"]?(\\S+)['\"]?"@)
    } else if i == 3 {
        (
            "py_module"@,
            "dep_missing:pymod"@,
            "ModuleNotFoundError: No module named ['\"]?(\\S+)['\"]?"@,
        )
    } else if i == 4 {
        ("cargo_manifest"@, "dep_missing:crates"@, "error: failed to parse manifest"@)
    } else if i == 5 {
        ("cabal_pkg"@, "dep_missing:cabal"@, "error: package ID specification .* lacked"@)
    } else if i == 6 {
        ("c_header"@, "dep_missing:header"@, "fatal error: .*: No such file"@)
    } else if i == 7 {
        ("ld_lib"@, "dep_missing:lib"@, "Could not find .* in"@)
    } else if i == 8 {
        ("pkg_config"@, "dep_missing:pkg"@, "Package .* was not found"@)
    } else {
        ("link_fail"@, "dep_missing:link"@, "error: linking with \\S+ failed"@)
    }
}

/// Row `i` of the pattern table.
pub fn dep_pattern_at(i: usize) -> (r: (&'static str, &'static str, &'static str))
    requires
        i < DEP_PATTERN_COUNT,
    ensures
        (r.0@, r.1@, r.2@) == dep_pattern(i as int),
{
    if i == 0 {
        ("cmd_not_found", "dep_missing:command", "(?i)command not found")
    } else if i == 1 {
        ("no_such_file", "dep_missing:path", "No such file or directory")
    } else if i == 2 {
        ("npm_module", "dep_missing:npm", "Cannot find module ['\"]?(\\S+)['\"]?")
    } else if i == 3 {
        ("py_module", "dep_missing:pymod", "ModuleNotFoundError: No module named ['\"]?(\\S+)['\"]?")
    } else if i == 4 {
        ("cargo_manifest", "dep_missing:crates", "error: failed to parse manifest")
    } else if i == 5 {
        ("cabal_pkg", "dep_missing:cabal", "error: package ID specification .* lacked")
    } else if i == 6 {
        ("c_header", "dep_missing:header", "fatal error: .*: No such file")
    } else if i == 7 {
        ("ld_lib", "dep_missing:lib", "Could not find .* in")
    } else if i == 8 {
        ("pkg_config", "dep_missing:pkg", "Package .* was not found")
    } else {
        ("link_fail", "dep_missing:link", "error: linking with \\S+ failed")
    }
}

/// A recognised missing-dependency message.
pub struct DepMatch {
    pub pattern_id: String,
    pub category: String,
    pub match_text: String,
}

impl View for DepMatch {
    type V = (Seq<char>, Seq<char>, Seq<char>);

    open spec fn view(&self) -> (Seq<char>, Seq<char>, Seq<char>) {
        (self.pattern_id@, self.category@, self.match_text@)
    }
}

/// The part of a line that is matched and reported: its first 300 characters.
pub open spec fn clip(line: Seq<char>) -> Seq<char> {
    if line.len() <= MATCH_TEXT_MAX {
        line
    } else {
        line.take(MATCH_TEXT_MAX as int)
    }
}

/// The index of the first `Some(true)` in `vs` at or after `from`.
pub open spec fn first_hit_from(vs: Seq<Option<bool>>, from: int) -> Option<int>
    decreases vs.len() - from,
{
    if from < 0 || from >= vs.len() {
        None
    } else if vs[from] == Some(true) {
        Some(from)
    } else {
        first_hit_from(vs, from + 1)
    }
}

/// The match reported for verdicts `vs` (one per table row) on `text`: the
/// first row whose pattern matched.
pub open spec fn match_of(vs: Seq<Option<bool>>, text: Seq<char>) -> Option<
    (Seq<char>, Seq<char>, Seq<char>),
> {
    match first_hit_from(vs, 0) {
        Some(i) => Some((dep_pattern(i).0, dep_pattern(i).1, text)),
        None => None,
    }
}

/// The verdict of every table row on `text`.
pub open spec fn verdicts_on(text: Seq<char>) -> Seq<Option<bool>> {
    Seq::new(DEP_PATTERN_COUNT as nat, |i: int| regex_verdict(dep_pattern(i).2, text))
}

/// What `match_line` reports for `line`.
pub open spec fn dep_of(line: Seq<char>) -> Option<(Seq<char>, Seq<char>, Seq<char>)> {
    match_of(verdicts_on(clip(line)), clip(line))
}

/// The match for `verdicts` (row `i`'s answer at index `i`) on the clipped
/// line `short`: the first row that matched, with `short` as its text. A
/// row whose pattern did not compile counts as no match.
pub fn dep_match_from(verdicts: &[Option<bool>], short: String) -> (r: Option<DepMatch>)
    requires
        verdicts@.len() == DEP_PATTERN_COUNT,
    ensures
        match r {
            Some(m) => match_of(verdicts@, short@) == Some(m@),
            None => match_of(verdicts@, short@) is None,
        },
{
    let mut i: usize = 0;
    while i < DEP_PATTERN_COUNT
        invariant
            verdicts@.len() == DEP_PATTERN_COUNT,
            i <= DEP_PATTERN_COUNT,
            first_hit_from(verdicts@, 0) == first_hit_from(verdicts@, i as int),
        decreases DEP_PATTERN_COUNT - i,
    {
        match verdicts[i] {
            Some(true) => {
                let (id, cat, _) = dep_pattern_at(i);
                return Some(
                    DepMatch {
                        pattern_id: id.to_string(),
                        category: cat.to_string(),
                        match_text: short,
                    },
                );
            },
            _ => {},
        }
        i = i + 1;
    }
    None
}

/// The first 300 characters of `line`.
pub fn clip_line(line: &str) -> (r: String)
    ensures
        r@ == clip(line@),
{
    let cs = chars_of(line);
    if cs.len() <= MATCH_TEXT_MAX {
        string_of(cs.as_slice())
    } else {
        let mut head: Vec<char> = Vec::new();
        let mut i: usize = 0;
        while i < MATCH_TEXT_MAX
            invariant
                cs@ == line@,
                cs@.len() > MATCH_TEXT_MAX,
                i <= MATCH_TEXT_MAX,
                head@ == cs@.take(i as int),
            decreases MATCH_TEXT_MAX - i,
        {
            head.push(cs[i]);
            i = i + 1;
            assert(head@ =~= cs@.take(i as int));
        }
        string_of(head.as_slice())
    }
}

/// Recognises a missing-dependency message: the first 300 characters of
/// `line` are tried against each table row in order, and the first row
/// whose pattern matches is reported with those characters.
pub fn match_line(line: &str) -> (r: Option<DepMatch>)
    ensures
        match r {
            Some(m) => dep_of(line@) == Some(m@),
            None => dep_of(line@) is None,
        },
{
    let short = clip_line(line);
    let mut verdicts: Vec<Option<bool>> = Vec::new();
    let mut i: usize = 0;
    while i < DEP_PATTERN_COUNT
        invariant
            i <= DEP_PATTERN_COUNT,
            short@ == clip(line@),
            verdicts@ == verdicts_on(short@).take(i as int),
        decreases DEP_PATTERN_COUNT - i,
    {
        let (_, _, pattern) = dep_pattern_at(i);
        let v = regex_is_match(pattern, short.as_str());
        verdicts.push(v);
        i = i + 1;
        assert(verdicts@ =~= verdicts_on(short@).take(i as int));
    }
    assert(verdicts@ =~= verdicts_on(short@));
    dep_match_from(verdicts.as_slice(), short)
}

/// What scanning the tail of an output file reports: among the last 50
/// `lines`, newest first, the first one `match_line` recognises.
pub open spec fn dep_in_tail(lines: Seq<Seq<char>>, k: int) -> Option<
    (Seq<char>, Seq<char>, Seq<char>),
>
    decreases 50 - k,
{
    if k < 0 || k >= 50 || k >= lines.len() {
        None
    } else {
        match dep_of(lines[lines.len() - 1 - k]) {
            Some(m) => Some(m),
            None => dep_in_tail(lines, k + 1),
        }
    }
}

/// Looks through the last 50 `lines` of a build's output, newest first,
/// for a missing-dependency message.
pub fn scan_tail_for_dep(lines: &[String]) -> (r: Option<DepMatch>)
    ensures
        match r {
            Some(m) => dep_in_tail(lines@.map_values(|l: String| l@), 0) == Some(m@),
            None => dep_in_tail(lines@.map_values(|l: String| l@), 0) is None,
        },
{
    let ghost ls = lines@.map_values(|l: String| l@);
    let n = lines.len();
    let mut k: usize = 0;
    while k < 50 && k < n
        invariant
            n == lines@.len(),
            ls == lines@.map_values(|l: String| l@),
            k <= 50,
            dep_in_tail(ls, 0) == dep_in_tail(ls, k as int),
        decreases 50 - k,
    {
        let line = &lines[n - 1 - k];
        assert(ls[n - 1 - k] == line@);
        match match_line(line.as_str()) {
            Some(m) => {
                return Some(m);
            },
            None => {},
        }
        k = k + 1;
    }
    None
}

/// A reported match carries at most the first 300 characters of the
/// line, and those are a prefix of it; its pattern id and category come
/// from one row of the table.
pub proof fn law_match_text_is_clipped_prefix(line: Seq<char>)
    ensures
        match dep_of(line) {
            Some((id, cat, text)) => text.len() <= MATCH_TEXT_MAX && line.take(text.len() as int)
                == text && exists|i: int|
                0 <= i < DEP_PATTERN_COUNT && #[trigger] dep_pattern(i).0 == id && dep_pattern(i).1
                    == cat,
            None => true,
        },
{
    let vs = verdicts_on(clip(line));
    if line.len() > MATCH_TEXT_MAX {
        assert(line.take(MATCH_TEXT_MAX as int).len() == MATCH_TEXT_MAX);
    } else {
        assert(line.take(line.len() as int) =~= line);
    }
    match first_hit_from(vs, 0) {
        Some(i) => {
            lemma_first_hit_in_range(vs, 0);
            assert(dep_pattern(i).0 == dep_pattern(i).0);
        },
        None => {},
    }
}

/// The table is read in order: the first row whose pattern matched
/// decides the report, and with no row matched there is none.
pub proof fn law_first_matching_row_wins(vs: Seq<Option<bool>>, text: Seq<char>, i: int)
    ensures
        (0 <= i < vs.len() && vs[i] == Some(true) && forall|j: int|
            0 <= j < i ==> #[trigger] vs[j] != Some(true)) ==> match_of(vs, text) == Some(
            (dep_pattern(i).0, dep_pattern(i).1, text),
        ),
        (forall|j: int| 0 <= j < vs.len() ==> #[trigger] vs[j] != Some(true)) ==> match_of(vs, text)
            is None,
{
    if 0 <= i < vs.len() && vs[i] == Some(true) && forall|j: int| 0 <= j < i ==> #[trigger] vs[j] != Some(true) {
        lemma_first_hit_is(vs, 0, i);
    }
    if forall|j: int| 0 <= j < vs.len() ==> #[trigger] vs[j] != Some(true) {
        lemma_first_hit_in_range(vs, 0);
    }
}

proof fn lemma_first_hit_is(vs: Seq<Option<bool>>, from: int, i: int)
    requires
        0 <= from <= i < vs.len(),
        vs[i] == Some(true),
        forall|j: int| from <= j < i ==> #[trigger] vs[j] != Some(true),
    ensures
        first_hit_from(vs, from) == Some(i),
    decreases i - from,
{
    if from < i {
        lemma_first_hit_is(vs, from + 1, i);
    }
}

/// A line of at most 300 characters is reported whole; a longer one by its
/// first 300.
pub proof fn law_clip_keeps_first_300(line: Seq<char>)
    ensures
        line.len() <= MATCH_TEXT_MAX ==> clip(line) == line,
        line.len() > MATCH_TEXT_MAX ==> clip(line) == line.take(MATCH_TEXT_MAX as int),
{
}

/// The newest matching line wins: among the last 50 lines, from the
/// `k`-th newest on, the report is that of the newest line with a match.
pub proof fn law_newest_dep_line_wins(lines: Seq<Seq<char>>, k: int, j: int)
    requires
        0 <= k <= j,
        j < 50,
        j < lines.len(),
        dep_of(lines[lines.len() - 1 - j]) is Some,
        forall|m: int| k <= m < j ==> #[trigger] dep_of(lines[lines.len() - 1 - m]) is None,
    ensures
        dep_in_tail(lines, k) == dep_of(lines[lines.len() - 1 - j]),
    decreases j - k,
{
    if k < j {
        assert(dep_of(lines[lines.len() - 1 - k]) is None);
        law_newest_dep_line_wins(lines, k + 1, j);
    }
}

/// A hit found from `from` on lies in `vs`.
proof fn lemma_first_hit_in_range(vs: Seq<Option<bool>>, from: int)
    ensures
        match first_hit_from(vs, from) {
            Some(i) => from <= i < vs.len() && vs[i] == Some(true),
            None => true,
        },
    decreases vs.len() - from,
{
    if from >= 0 && from < vs.len() && vs[from] != Some(true) {
        lemma_first_hit_in_range(vs, from + 1);
    }
}

} // verus!

//! `/proc/<pid>/io`: the bytes a process read from and wrote to storage.
use vstd::prelude::*;

use crate::text::{
    chars_of, chars_skip, chars_starts_with, lines_of, parse_u64, spec_lines, spec_parse_u64,
    spec_trim, starts_with, trim_chars, views,
};

verus! {

/// A parsed number, or 0 when the text is not one.
pub open spec fn or_zero(o: Option<u64>) -> u64 {
    match o {
        Some(v) => v,
        None => 0,
    }
}

/// The value of a `key` line: the rest of the line, trimmed, as a number
/// (0 when it is not one).
pub open spec fn field_value(line: Seq<char>, key: Seq<char>) -> u64 {
    or_zero(spec_parse_u64(spec_trim(line.skip(key.len() as int))))
}

/// The value of the last line of `ls` that starts with `key`, or `acc`
/// when none does.
pub open spec fn last_field(ls: Seq<Seq<char>>, key: Seq<char>, acc: u64) -> u64
    decreases ls.len(),
{
    if ls.len() == 0 {
        acc
    } else {
        last_field(
            ls.drop_first(),
            key,
            if starts_with(ls[0], key) {
                field_value(ls[0], key)
            } else {
                acc
            },
        )
    }
}

/// `(read_bytes, write_bytes)` of an `io` file: for each key the last line
/// that carries it wins, a value that is not a number counts as 0, and a
/// missing key gives 0.
pub fn parse_io_content(s: &str) -> (r: (u64, u64))
    ensures
        r.0 == last_field(spec_lines(s@), "read_bytes:"@, 0),
        r.1 == last_field(spec_lines(s@), "write_bytes:"@, 0),
{
    let text = chars_of(s);
    let lines = lines_of(text.as_slice());
    let ghost ls = views(lines@);
    let rk = chars_of("read_bytes:");
    let wk = chars_of("write_bytes:");
    proof {
        reveal_strlit("read_bytes:");
        reveal_strlit("write_bytes:");
    }
    let mut r: u64 = 0;
    let mut w: u64 = 0;
    let n = lines.len();
    assert(ls.skip(0) =~= ls);
    let mut i: usize = 0;
    while i < n
        invariant
            n == lines@.len(),
            ls == views(lines@),
            ls == spec_lines(s@),
            rk@ == "read_bytes:"@,
            wk@ == "write_bytes:"@,
            rk@.len() == 11,
            wk@.len() == 12,
            i <= n,
            last_field(ls, rk@, 0) == last_field(ls.skip(i as int), rk@, r),
            last_field(ls, wk@, 0) == last_field(ls.skip(i as int), wk@, w),
        decreases n - i,
    {
        let line = &lines[i];
        assert(ls.skip(i as int).drop_first() =~= ls.skip(i + 1));
        assert(ls.skip(i as int)[0] == line@);
        if chars_starts_with(line.as_slice(), rk.as_slice()) {
            let v = trim_chars(chars_skip(line.as_slice(), 11).as_slice());
            r = match parse_u64(v.as_slice()) {
                Some(x) => x,
                None => 0,
            };
            assert(!starts_with(line@, wk@)) by {
                reveal_strlit("read_bytes:");
                reveal_strlit("write_bytes:");
                assert(line@.take(11)[0] == rk@[0]);
                if starts_with(line@, wk@) {
                    assert(line@.take(12)[0] == wk@[0]);
                }
            }
        } else if chars_starts_with(line.as_slice(), wk.as_slice()) {
            let v = trim_chars(chars_skip(line.as_slice(), 12).as_slice());
            w = match parse_u64(v.as_slice()) {
                Some(x) => x,
                None => 0,
            };
        }
        i = i + 1;
    }
    assert(ls.skip(n as int) =~= Seq::<Seq<char>>::empty());
    (r, w)
}

proof fn lemma_no_key_keeps_acc(ls: Seq<Seq<char>>, key: Seq<char>, acc: u64)
    requires
        forall|m: int| 0 <= m < ls.len() ==> !starts_with(#[trigger] ls[m], key),
    ensures
        last_field(ls, key, acc) == acc,
    decreases ls.len(),
{
    if ls.len() > 0 {
        assert(!starts_with(ls[0], key));
        let t = ls.drop_first();
        assert forall|m: int| 0 <= m < t.len() implies !starts_with(#[trigger] t[m], key) by {
            assert(t[m] == ls[m + 1]);
        }
        lemma_no_key_keeps_acc(t, key, acc);
    }
}

/// The last line that starts with the key gives the value, whatever came
/// before it; with no such line the value is the starting one (0 for an
/// `io` file).
pub proof fn law_last_key_line_wins(ls: Seq<Seq<char>>, key: Seq<char>, acc: u64, j: int)
    ensures
        (0 <= j < ls.len() && starts_with(ls[j], key) && forall|m: int|
            j < m < ls.len() ==> !starts_with(#[trigger] ls[m], key)) ==> last_field(ls, key, acc)
            == field_value(ls[j], key),
        (forall|m: int| 0 <= m < ls.len() ==> !starts_with(#[trigger] ls[m], key)) ==> last_field(
            ls,
            key,
            acc,
        ) == acc,
    decreases ls.len(),
{
    if forall|m: int| 0 <= m < ls.len() ==> !starts_with(#[trigger] ls[m], key) {
        lemma_no_key_keeps_acc(ls, key, acc);
    }
    if 0 <= j < ls.len() && starts_with(ls[j], key) && forall|m: int|
        j < m < ls.len() ==> !starts_with(#[trigger] ls[m], key) {
        let t = ls.drop_first();
        let acc2 = if starts_with(ls[0], key) { field_value(ls[0], key) } else { acc };
        if j == 0 {
            assert forall|m: int| 0 <= m < t.len() implies !starts_with(#[trigger] t[m], key) by {
                assert(t[m] == ls[m + 1]);
            }
            lemma_no_key_keeps_acc(t, key, acc2);
        } else {
            assert(t[j - 1] == ls[j]);
            assert forall|m: int| j - 1 < m < t.len() implies !starts_with(#[trigger] t[m], key) by {
                assert(t[m] == ls[m + 1]);
            }
            law_last_key_line_wins(t, key, acc2, j - 1);
        }
    }
}

} // verus!

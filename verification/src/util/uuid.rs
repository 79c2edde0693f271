//! Monitor identifiers: generation (16 lowercase hex characters) and the
//! check that keeps a user-supplied `--uuid` from escaping the artifact
//! directory when it is spliced into `hbmon-<uuid>.*` paths.
use vstd::prelude::*;

use crate::text::{chars_of, string_of};
use rand::RngCore;

verus! {

/// `format!("{:?}", s)` of a string slice: its `Debug` rendering.
pub uninterp spec fn str_debug(s: Seq<char>) -> Seq<char>;

/// Renders `s` with `format!("{:?}", s)` (quoted, escaped). Claimed: the
/// result is `str_debug(s)`, a function of `s` alone.
#[verifier::external_body]
fn debug_of(s: &str) -> (r: String)
    ensures
        r@ == str_debug(s@),
{
    format!("{:?}", s)
}

/// A character allowed in a uuid: ASCII letter or digit, `-` or `_`.
pub open spec fn is_uuid_char(c: char) -> bool {
    let u = c as u32;
    (0x30 <= u && u <= 0x39) || (0x41 <= u && u <= 0x5a) || (0x61 <= u && u <= 0x7a) || c == '-'
        || c == '_'
}

/// Length in bytes of the UTF-8 encoding of `s` (`str::len`).
pub open spec fn byte_len(s: Seq<char>) -> nat {
    vstd::utf8::encode_utf8(s).len()
}

/// The outcome of checking a uuid: `Ok` for 1 to 64 bytes of
/// `[A-Za-z0-9_-]`; a length error first, then a charset error.
pub open spec fn uuid_check(u: Seq<char>) -> Result<(), Seq<char>> {
    if u.len() == 0 || byte_len(u) > 64 {
        Err("invalid --uuid (len 1..=64): "@ + str_debug(u))
    } else if !(forall|i: int| 0 <= i < u.len() ==> is_uuid_char(#[trigger] u[i])) {
        Err("invalid --uuid (charset [A-Za-z0-9_-]): "@ + str_debug(u))
    } else {
        Ok(())
    }
}

pub fn uuid_char(c: char) -> (r: bool)
    ensures
        r == is_uuid_char(c),
{
    let u = c as u32;
    (0x30 <= u && u <= 0x39) || (0x41 <= u && u <= 0x5a) || (0x61 <= u && u <= 0x7a) || c == '-'
        || c == '_'
}

/// Checks an explicit `--uuid` (see `uuid_check`); the error names the
/// offending value.
pub fn validate_uuid(u: &str) -> (r: Result<(), String>)
    ensures
        match (r, uuid_check(u@)) {
            (Ok(()), Ok(())) => true,
            (Err(m), Err(e)) => m@ == e,
            _ => false,
        },
{
    let nbytes = u.as_bytes().len();
    if u.is_empty() || nbytes > 64 {
        let mut m = String::from_str("invalid --uuid (len 1..=64): ");
        let d = debug_of(u);
        m.append(d.as_str());
        return Err(m);
    }
    let cs = chars_of(u);
    let n = cs.len();
    for i in 0..n
        invariant
            n == u@.len(),
            cs@ == u@,
            u@.len() > 0,
            byte_len(u@) <= 64,
            forall|j: int| 0 <= j < i ==> is_uuid_char(#[trigger] u@[j]),
    {
        if !uuid_char(cs[i]) {
            assert(!is_uuid_char(u@[i as int]));
            let mut m = String::from_str("invalid --uuid (charset [A-Za-z0-9_-]): ");
            let d = debug_of(u);
            m.append(d.as_str());
            return Err(m);
        }
    }
    Ok(())
}

/// Lowercase hexadecimal digit of `n < 16`.
pub open spec fn hex_digit(n: nat) -> char {
    if n < 10 {
        (48 + n) as char
    } else {
        (87 + n) as char
    }
}

/// Two lowercase hex digits per byte, high nibble first.
pub open spec fn hex_of(b: Seq<u8>) -> Seq<char>
    decreases b.len(),
{
    if b.len() == 0 {
        seq![]
    } else {
        hex_of(b.drop_last()) + seq![hex_digit((b.last() / 16) as nat), hex_digit((b.last() % 16) as nat)]
    }
}

fn hex_char(n: u8) -> (c: char)
    requires
        n < 16,
    ensures
        c == hex_digit(n as nat),
{
    if n < 10 {
        (n + 48) as char
    } else {
        (n + 87) as char
    }
}

/// Lowercase hex encoding of `b`.
pub fn hex_encode(b: &[u8]) -> (r: String)
    ensures
        r@ == hex_of(b@),
{
    let mut out: Vec<char> = Vec::new();
    let n = b.len();
    for i in 0..n
        invariant
            n == b@.len(),
            out@ == hex_of(b@.take(i as int)),
    {
        let byte = b[i];
        let hi = byte >> 4;
        let lo = byte & 0xf;
        assert(hi == byte / 16 && lo == byte % 16) by (bit_vector)
            requires
                hi == byte >> 4,
                lo == byte & 0xf,
        ;
        out.push(hex_char(hi));
        out.push(hex_char(lo));
        assert(b@.take(i + 1).drop_last() == b@.take(i as int));
    }
    assert(b@.take(n as int) == b@);
    string_of(out.as_slice())
}

/// Eight bytes from `rand::thread_rng().fill_bytes`. Nothing is claimed
/// about them: they are random.
#[verifier::external_body]
fn random_bytes() -> [u8; 8] {
    let mut bytes = [0u8; 8];
    rand::thread_rng().fill_bytes(&mut bytes);
    bytes
}

/// A fresh random uuid: 16 lowercase hex characters (64 random bits).
pub fn generate_uuid() -> (r: String)
    ensures
        exists|b: Seq<u8>| b.len() == 8 && r@ == hex_of(b),
{
    let bytes = random_bytes();
    let v: Vec<u8> = bytes_vec(&bytes);
    hex_encode(v.as_slice())
}

fn bytes_vec(a: &[u8; 8]) -> (r: Vec<u8>)
    ensures
        r@ == a@,
{
    let mut v: Vec<u8> = Vec::new();
    for i in 0..8
        invariant
            v@ == a@.take(i as int),
    {
        v.push(a[i]);
        assert(a@.take(i + 1) == a@.take(i as int).push(a@[i as int]));
    }
    assert(a@.take(8) == a@);
    v
}

proof fn lemma_hex_of_shape(b: Seq<u8>)
    ensures
        hex_of(b).len() == 2 * b.len(),
        forall|i: int| 0 <= i < hex_of(b).len() ==> is_uuid_char(#[trigger] hex_of(b)[i]),
    decreases b.len(),
{
    if b.len() > 0 {
        lemma_hex_of_shape(b.drop_last());
        let hi = (b.last() / 16) as nat;
        let lo = (b.last() % 16) as nat;
        assert(is_uuid_char(hex_digit(hi)) && is_uuid_char(hex_digit(lo)));
        let h = hex_of(b);
        assert forall|i: int| 0 <= i < h.len() implies is_uuid_char(#[trigger] h[i]) by {
            if i < h.len() - 2 {
                assert(h[i] == hex_of(b.drop_last())[i]);
            }
        }
    }
}

proof fn lemma_ascii_char(c: char)
    requires
        (c as u32) <= 127,
    ensures
        '\0' <= c <= '\u{7f}',
{
}

/// Every generated uuid passes the `--uuid` check.
pub proof fn law_generated_uuid_is_valid(b: Seq<u8>)
    requires
        b.len() == 8,
    ensures
        uuid_check(hex_of(b)) == Ok::<(), Seq<char>>(()),
{
    lemma_hex_of_shape(b);
    let h = hex_of(b);
    assert(vstd::utf8::is_ascii_chars(h)) by {
        assert forall|i: int| 0 <= i < h.len() implies '\0' <= #[trigger] h[i] <= '\u{7f}' by {
            let c = h[i];
            assert(is_uuid_char(c));
            lemma_ascii_char(c);
        }
    }
    vstd::utf8::is_ascii_chars_encode_utf8(h);
}

/// What the `--uuid` check accepts: every 1 to 64 characters of
/// `[A-Za-z0-9_-]`, and nothing empty, nothing longer than 64 bytes, and
/// nothing holding another character (a path separator or a dot, say).
pub proof fn law_uuid_check_accepts(u: Seq<char>, i: int)
    ensures
        0 < u.len() <= 64 && (forall|k: int| 0 <= k < u.len() ==> is_uuid_char(#[trigger] u[k]))
            ==> uuid_check(u) is Ok,
        u.len() == 0 ==> uuid_check(u) is Err,
        byte_len(u) > 64 ==> uuid_check(u) is Err,
        0 <= i < u.len() && !is_uuid_char(u[i]) ==> uuid_check(u) is Err,
        !is_uuid_char('/') && !is_uuid_char('\\') && !is_uuid_char('.') && !is_uuid_char(' '),
        is_uuid_char('a') && is_uuid_char('z') && is_uuid_char('A') && is_uuid_char('Z') && is_uuid_char('0')
            && is_uuid_char('9') && is_uuid_char('-') && is_uuid_char('_'),
{
    if 0 < u.len() <= 64 && (forall|k: int| 0 <= k < u.len() ==> is_uuid_char(#[trigger] u[k])) {
        assert(vstd::utf8::is_ascii_chars(u)) by {
            assert forall|k: int| 0 <= k < u.len() implies '\0' <= #[trigger] u[k] <= '\u{7f}' by {
                assert(is_uuid_char(u[k]));
                lemma_ascii_char(u[k]);
            }
        }
        vstd::utf8::is_ascii_chars_encode_utf8(u);
    }
}

} // verus!

//! Storage form of the API key. On disk the key is kept as `dpapi:` followed
//! by the hex digits of what the system's data protection made of it; a
//! value without that prefix is a key stored in the clear by older versions.
//! The protection itself is the operating system's and is called by the
//! app; these functions decide what is written and what is read back.
use vstd::prelude::*;
use vstd::utf8::{decode_utf8, encode_utf8, valid_utf8};
use crate::text::{chars_of, string_of};

verus! {

/// The marker of a protected key.
pub open spec fn seal_prefix() -> Seq<char> {
    seq!['d', 'p', 'a', 'p', 'i', ':']
}

pub open spec fn has_seal_prefix(s: Seq<char>) -> bool {
    s.len() >= 6 && s.subrange(0, 6) == seal_prefix()
}

/// Lowercase hexadecimal digit of `v` (0 to 15).
pub open spec fn hex_digit(v: int) -> char {
    if v < 10 {
        (48 + v) as char
    } else {
        (87 + v) as char
    }
}

/// Two lowercase hex digits per byte, as `format!("{b:02x}")` writes them.
pub open spec fn hex_of(bytes: Seq<u8>) -> Seq<char>
    decreases bytes.len(),
{
    if bytes.len() == 0 {
        Seq::empty()
    } else {
        hex_of(bytes.drop_last()) + seq![hex_digit((bytes.last() / 16) as int), hex_digit((bytes.last() % 16) as int)]
    }
}

/// The value of a hex digit, either case.
pub open spec fn hex_value(c: char) -> Option<int> {
    if '0' <= c <= '9' {
        Some(c as int - 48)
    } else if 'a' <= c <= 'f' {
        Some(c as int - 87)
    } else if 'A' <= c <= 'F' {
        Some(c as int - 55)
    } else {
        None
    }
}

/// The byte that a two-character group stands for, as `u8::from_str_radix`
/// reads it in base 16: two hex digits, or `+` and one hex digit.
pub open spec fn pair_value(a: char, b: char) -> Option<u8> {
    if a == '+' {
        match hex_value(b) {
            Some(y) => Some(y as u8),
            None => None,
        }
    } else {
        match (hex_value(a), hex_value(b)) {
            (Some(x), Some(y)) => Some((16 * x + y) as u8),
            _ => None,
        }
    }
}

/// The bytes that a hex text stands for; `None` for an odd length or a
/// group that is not a byte.
pub open spec fn bytes_of_hex(s: Seq<char>) -> Option<Seq<u8>>
    decreases s.len(),
{
    if s.len() == 0 {
        Some(Seq::empty())
    } else if s.len() == 1 {
        None
    } else {
        match (bytes_of_hex(s.subrange(0, s.len() - 2)), pair_value(s[s.len() - 2], s.last())) {
            (Some(b), Some(v)) => Some(b.push(v)),
            _ => None,
        }
    }
}

/// What is stored for the key `plain`, given what the system protection
/// returned for it (`None` when it failed or is not available): nothing for
/// an empty key, the marked hex digits of the protected bytes, or the key
/// itself.
pub open spec fn sealed(plain: Seq<char>, protected: Option<Seq<u8>>) -> Seq<char> {
    if plain.len() == 0 {
        Seq::empty()
    } else {
        match protected {
            Some(c) => seal_prefix() + hex_of(c),
            None => plain,
        }
    }
}

/// The protected bytes that a stored value holds, if it is marked and its
/// digits are well formed.
pub open spec fn sealed_bytes(stored: Seq<char>) -> Option<Seq<u8>> {
    if has_seal_prefix(stored) {
        bytes_of_hex(stored.skip(6))
    } else {
        None
    }
}

/// The key read back from `stored`, given what the system returned on
/// unprotecting its bytes: an unmarked value is the key itself; a marked one
/// gives the unprotected bytes as UTF-8 text, or nothing when they cannot be
/// had (another user or machine) or are not UTF-8.
pub open spec fn opened(stored: Seq<char>, unprotected: Option<Seq<u8>>) -> Seq<char> {
    if !has_seal_prefix(stored) {
        stored
    } else {
        match unprotected {
            Some(b) => if valid_utf8(b) {
                decode_utf8(b)
            } else {
                Seq::empty()
            },
            None => Seq::empty(),
        }
    }
}

/// The contents of optional bytes.
pub open spec fn bytes_view(b: Option<Vec<u8>>) -> Option<Seq<u8>> {
    match b {
        Some(v) => Some(v@),
        None => None,
    }
}

/// `String::from_utf8`: the text of `bytes` when they are valid UTF-8.
#[verifier::external_body]
fn utf8_text(bytes: Vec<u8>) -> (r: Option<String>)
    ensures
        r is Some <==> valid_utf8(bytes@),
        r matches Some(s) ==> s@ == decode_utf8(bytes@),
{
    String::from_utf8(bytes).ok()
}

fn hex_digit_exec(v: u8) -> (c: char)
    requires
        v < 16,
    ensures
        c == hex_digit(v as int),
{
    if v < 10 {
        (48 + v) as char
    } else {
        (87 + v) as char
    }
}

fn hex_value_exec(c: char) -> (r: Option<u8>)
    ensures
        r matches Some(v) ==> hex_value(c) == Some(v as int),
        r is None ==> hex_value(c) is None,
{
    if '0' <= c && c <= '9' {
        Some((c as u32 - 48) as u8)
    } else if 'a' <= c && c <= 'f' {
        Some((c as u32 - 87) as u8)
    } else if 'A' <= c && c <= 'F' {
        Some((c as u32 - 55) as u8)
    } else {
        None
    }
}

fn pair_value_exec(a: char, b: char) -> (r: Option<u8>)
    ensures
        r == pair_value(a, b),
{
    if a == '+' {
        hex_value_exec(b)
    } else {
        match (hex_value_exec(a), hex_value_exec(b)) {
            (Some(x), Some(y)) => Some(16 * x + y),
            _ => None,
        }
    }
}

/// Lowercase hex digits of `bytes`, two per byte.
pub fn to_hex(bytes: &[u8]) -> (r: String)
    ensures
        r@ == hex_of(bytes@),
{
    let mut out: Vec<char> = Vec::new();
    let mut i: usize = 0;
    while i < bytes.len()
        invariant
            i <= bytes@.len(),
            out@ == hex_of(bytes@.subrange(0, i as int)),
        decreases bytes@.len() - i,
    {
        let b = bytes[i];
        out.push(hex_digit_exec(b / 16));
        out.push(hex_digit_exec(b % 16));
        assert(bytes@.subrange(0, i + 1).drop_last() =~= bytes@.subrange(0, i as int));
        i = i + 1;
        assert(out@ =~= hex_of(bytes@.subrange(0, i as int)));
    }
    assert(bytes@.subrange(0, bytes@.len() as int) =~= bytes@);
    string_of(out.as_slice())
}

fn bytes_of_hex_chars(v: &Vec<char>) -> (r: Option<Vec<u8>>)
    ensures
        r matches Some(b) ==> bytes_of_hex(v@) == Some(b@),
        r is None ==> bytes_of_hex(v@) is None,
{
    if v.len() % 2 != 0 {
        proof {
            lemma_odd_is_none(v@);
        }
        return None;
    }
    let mut out: Vec<u8> = Vec::new();
    let mut i: usize = 0;
    while i < v.len()
        invariant
            v@.len() % 2 == 0,
            i <= v@.len(),
            i % 2 == 0,
            bytes_of_hex(v@.subrange(0, i as int)) == Some(out@),
        decreases v@.len() - i,
    {
        let ghost pre = v@.subrange(0, i + 2);
        assert(pre.subrange(0, pre.len() - 2) =~= v@.subrange(0, i as int));
        match pair_value_exec(v[i], v[i + 1]) {
            Some(x) => {
                out.push(x);
            },
            None => {
                proof {
                    lemma_none_extends(v@, i + 2);
                }
                return None;
            },
        }
        i = i + 2;
    }
    assert(v@.subrange(0, v@.len() as int) =~= v@);
    Some(out)
}

proof fn lemma_odd_is_none(s: Seq<char>)
    requires
        s.len() % 2 == 1,
    ensures
        bytes_of_hex(s) is None,
    decreases s.len(),
{
    if s.len() > 1 {
        lemma_odd_is_none(s.subrange(0, s.len() - 2));
    }
}

proof fn lemma_none_extends(s: Seq<char>, n: int)
    requires
        0 <= n <= s.len(),
        n % 2 == 0,
        (s.len() - n) % 2 == 0,
        bytes_of_hex(s.subrange(0, n)) is None,
    ensures
        bytes_of_hex(s) is None,
    decreases s.len() - n,
{
    if n == s.len() {
        assert(s.subrange(0, n) =~= s);
    } else {
        let t = s.subrange(0, n + 2);
        assert(t.subrange(0, t.len() - 2) =~= s.subrange(0, n));
        lemma_none_extends(s, n + 2);
    }
}

/// The bytes written in the hex text `s` (either case; a group may also be
/// `+` and one digit), or `None`.
pub fn from_hex(s: &str) -> (r: Option<Vec<u8>>)
    ensures
        r matches Some(b) ==> bytes_of_hex(s@) == Some(b@),
        r is None ==> bytes_of_hex(s@) is None,
{
    bytes_of_hex_chars(&chars_of(s))
}

fn has_prefix(v: &Vec<char>) -> (b: bool)
    ensures
        b == has_seal_prefix(v@),
{
    let r = v.len() >= 6 && v[0] == 'd' && v[1] == 'p' && v[2] == 'a' && v[3] == 'p' && v[4] == 'i'
        && v[5] == ':';
    proof {
        if v@.len() >= 6 {
            if r {
                assert(v@.subrange(0, 6) =~= seal_prefix());
            } else {
                if v@.subrange(0, 6) == seal_prefix() {
                    assert(v@.subrange(0, 6)[0] == v@[0]);
                    assert(v@.subrange(0, 6)[1] == v@[1]);
                    assert(v@.subrange(0, 6)[2] == v@[2]);
                    assert(v@.subrange(0, 6)[3] == v@[3]);
                    assert(v@.subrange(0, 6)[4] == v@[4]);
                    assert(v@.subrange(0, 6)[5] == v@[5]);
                }
            }
        }
    }
    r
}

/// The value to store for the key `plain`. `protected` is what the system
/// protection returned for the key's bytes (`None` when it failed or is not
/// available, in which case the key is kept as it is rather than lost).
pub fn seal(plain: &str, protected: Option<Vec<u8>>) -> (r: String)
    ensures
        r@ == sealed(plain@, bytes_view(protected)),
{
    if plain.is_empty() {
        return String::new();
    }
    match protected {
        Some(c) => {
            let mut out = String::from_str("dpapi:");
            out.append(to_hex(c.as_slice()).as_str());
            proof {
                reveal_strlit("dpapi:");
                assert(out@ =~= seal_prefix() + hex_of(c@));
            }
            out
        },
        None => String::from_str(plain),
    }
}

/// The protected bytes that the stored value holds, to be handed to the
/// system for unprotecting; `None` for a key stored in the clear or digits
/// that are not well formed.
pub fn sealed_cipher(stored: &str) -> (r: Option<Vec<u8>>)
    ensures
        r matches Some(b) ==> sealed_bytes(stored@) == Some(b@),
        r is None ==> sealed_bytes(stored@) is None,
{
    let v = chars_of(stored);
    if !has_prefix(&v) {
        return None;
    }
    let mut rest: Vec<char> = Vec::new();
    let mut i: usize = 6;
    while i < v.len()
        invariant
            6 <= i <= v@.len(),
            rest@ == v@.subrange(6, i as int),
        decreases v@.len() - i,
    {
        rest.push(v[i]);
        assert(v@.subrange(6, i + 1) =~= v@.subrange(6, i as int).push(v@[i as int]));
        i = i + 1;
    }
    assert(rest@ =~= v@.skip(6));
    bytes_of_hex_chars(&rest)
}

/// The key in the clear, read back from the stored value. `unprotected` is
/// what the system returned for the bytes of `sealed_cipher(stored)`
/// (`None` when there were none or it could not unprotect them).
pub fn open(stored: &str, unprotected: Option<Vec<u8>>) -> (r: String)
    ensures
        r@ == opened(stored@, bytes_view(unprotected)),
{
    let v = chars_of(stored);
    if !has_prefix(&v) {
        return String::from_str(stored);
    }
    match unprotected {
        Some(b) => match utf8_text(b) {
            Some(s) => s,
            None => String::new(),
        },
        None => String::new(),
    }
}

/// Hex digits read back give the bytes they were written from.
pub proof fn lemma_hex_roundtrip(bytes: Seq<u8>)
    ensures
        bytes_of_hex(hex_of(bytes)) == Some(bytes),
    decreases bytes.len(),
{
    if bytes.len() > 0 {
        let h = hex_of(bytes);
        lemma_hex_roundtrip(bytes.drop_last());
        lemma_hex_len(bytes.drop_last());
        assert(h.subrange(0, h.len() - 2) =~= hex_of(bytes.drop_last()));
        let x = bytes.last();
        assert(pair_value(hex_digit((x / 16) as int), hex_digit((x % 16) as int)) == Some(x));
        assert(bytes.drop_last().push(x) =~= bytes);
    }
}

proof fn lemma_hex_len(bytes: Seq<u8>)
    ensures
        hex_of(bytes).len() == 2 * bytes.len(),
    decreases bytes.len(),
{
    if bytes.len() > 0 {
        lemma_hex_len(bytes.drop_last());
    }
}

/// A key that the system protected is stored marked, and reading the mark
/// back gives exactly the protected bytes; given the key's own UTF-8 bytes
/// back from the system, the key comes back unchanged.
pub proof fn lemma_seal_then_open_protected(plain: Seq<char>, protected: Seq<u8>)
    requires
        plain.len() > 0,
    ensures
        sealed_bytes(sealed(plain, Some(protected))) == Some(protected),
        opened(sealed(plain, Some(protected)), Some(encode_utf8(plain))) == plain,
{
    let s = sealed(plain, Some(protected));
    assert(s.subrange(0, 6) =~= seal_prefix());
    assert(s.skip(6) =~= hex_of(protected));
    lemma_hex_roundtrip(protected);
    vstd::utf8::encode_utf8_valid_utf8(plain);
    vstd::utf8::encode_utf8_decode_utf8(plain);
}

/// A key kept in the clear (protection unavailable) reads back as itself,
/// whatever the system says, unless the key itself begins with the mark;
/// an empty key stays empty.
pub proof fn lemma_seal_then_open_clear(plain: Seq<char>, unprotected: Option<Seq<u8>>)
    requires
        !has_seal_prefix(plain),
    ensures
        opened(sealed(plain, None), unprotected) == plain,
{
    if plain.len() == 0 {
        assert(sealed(plain, None) =~= plain);
    }
}

} // verus!

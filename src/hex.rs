use crate::error::{parse_error, parse_error_at, GitObjectError};
use vstd::prelude::*;

verus! {

/// Number of bytes in an object hash.
pub const HASH_LEN: usize = 20;

/// Number of characters in the hexadecimal form of an object hash.
pub const HEX_LEN: usize = 40;

/// The storage location of the object whose hexadecimal hash is `h`: the
/// object root `.git/objects/`, a directory named by the first two digits,
/// and a file named by the rest.
pub open spec fn object_path(h: Seq<char>) -> Seq<char> {
    ".git/objects/"@ + h.subrange(0, 2) + seq!['/'] + h.subrange(2, h.len() as int)
}

/// The lowercase hexadecimal digit for `n < 16`.
pub open spec fn hex_digit(n: int) -> char {
    if n < 10 {
        (n + 48) as char
    } else {
        (n + 87) as char
    }
}

/// Lowercase hexadecimal text of a byte string: two digits per byte, high nibble first.
pub open spec fn hex_of(b: Seq<u8>) -> Seq<char> {
    Seq::new(
        2 * b.len(),
        |i: int|
            if i % 2 == 0 {
                hex_digit(b[i / 2] as int / 16)
            } else {
                hex_digit(b[i / 2] as int % 16)
            },
    )
}

/// The value of a hexadecimal digit of either case, if `c` is one.
pub open spec fn hex_value(c: char) -> Option<u8> {
    if '0' <= c <= '9' {
        Some((c as u32 - 48) as u8)
    } else if 'a' <= c <= 'f' {
        Some((c as u32 - 87) as u8)
    } else if 'A' <= c <= 'F' {
        Some((c as u32 - 55) as u8)
    } else {
        None
    }
}

/// `s` is the hexadecimal form of a hash: exactly 40 hex digits.
pub open spec fn is_hash_hex(s: Seq<char>) -> bool {
    &&& s.len() == HEX_LEN
    &&& forall|i: int| 0 <= i < s.len() ==> (#[trigger] hex_value(s[i])) is Some
}

/// The first index at or after `from` that holds no hex digit, or the length
/// of `s` where there is none.
pub open spec fn first_non_hex(s: Seq<char>, from: int) -> int
    decreases s.len() - from,
{
    if from < 0 || from >= s.len() {
        s.len() as int
    } else if hex_value(s[from]) is None {
        from
    } else {
        first_non_hex(s, from + 1)
    }
}

/// Where a malformed hash string goes wrong: at the end of the 40 digits, or
/// of the string if it is shorter, when its length is wrong; else at its
/// first character that is no hex digit.
pub open spec fn hex_error_at(s: Seq<char>) -> int {
    if s.len() < HEX_LEN {
        s.len() as int
    } else if s.len() > HEX_LEN {
        HEX_LEN as int
    } else {
        first_non_hex(s, 0)
    }
}

/// The bytes that a well-formed hexadecimal hash stands for.
pub open spec fn hash_of_hex(s: Seq<char>) -> Seq<u8> {
    Seq::new(
        s.len() / 2,
        |i: int| (16 * hex_value(s[2 * i])->0 + hex_value(s[2 * i + 1])->0) as u8,
    )
}

/// Relies on `String::push`: appends one character at the end.
#[verifier::external_body]
pub(crate) fn push_char(s: &mut String, c: char)
    ensures
        final(s)@ == old(s)@.push(c),
{
    s.push(c);
}

fn hex_digit_char(n: u8) -> (c: char)
    requires
        n < 16,
    ensures
        c == hex_digit(n as int),
{
    if n < 10 {
        (n + 48) as char
    } else {
        (n + 87) as char
    }
}

/// Lowercase hexadecimal text of `hash`.
pub fn hash_to_str(hash: &[u8]) -> (r: String)
    ensures
        r@ == hex_of(hash@),
{
    let mut s = String::new();
    let mut i: usize = 0;
    while i < hash.len()
        invariant
            i <= hash@.len(),
            s@.len() == 2 * i,
            forall|j: int| 0 <= j < 2 * i ==> s@[j] == #[trigger] hex_of(hash@)[j],
        decreases hash@.len() - i,
    {
        let b = hash[i];
        let hi = hex_digit_char(b / 16);
        let lo = hex_digit_char(b % 16);
        push_char(&mut s, hi);
        push_char(&mut s, lo);
        i = i + 1;
    }
    assert(s@ =~= hex_of(hash@));
    s
}

fn hex_digit_value(c: char) -> (r: Option<u8>)
    ensures
        r == hex_value(c),
{
    if '0' <= c && c <= '9' {
        Some((c as u32 - 48) as u8)
    } else if 'a' <= c && c <= 'f' {
        Some((c as u32 - 87) as u8)
    } else if 'A' <= c && c <= 'F' {
        Some((c as u32 - 55) as u8)
    } else {
        None
    }
}

/// Reads the 40-digit hexadecimal form of a hash back into its 20 bytes.
/// Digits of either case are accepted; anything else is a `ParseError`.
pub fn str_to_hash(s: String) -> (r: Result<Vec<u8>, GitObjectError>)
    ensures
        match r {
            Ok(v) => is_hash_hex(s@) && v@ == hash_of_hex(s@),
            Err(e) => !is_hash_hex(s@) && parse_error_at(e, hex_error_at(s@)),
        },
{
    let text = s.as_str();
    let n = text.unicode_len();
    if n < HEX_LEN {
        return Err(parse_error("a hash is 40 hexadecimal digits", n));
    }
    if n > HEX_LEN {
        return Err(parse_error("a hash is 40 hexadecimal digits", HEX_LEN));
    }
    let mut v: Vec<u8> = Vec::new();
    let mut i: usize = 0;
    while i < HASH_LEN
        invariant
            i <= HASH_LEN,
            text@ == s@,
            s@.len() == HEX_LEN,
            v@.len() == i,
            forall|j: int| 0 <= j < 2 * i ==> (#[trigger] hex_value(s@[j])) is Some,
            forall|j: int| 0 <= j < i ==> v@[j] == #[trigger] hash_of_hex(s@)[j],
            first_non_hex(s@, 0) == first_non_hex(s@, 2 * i),
        decreases HASH_LEN - i,
    {
        let hi = match hex_digit_value(text.get_char(2 * i)) {
            Some(h) => h,
            None => {
                return Err(parse_error("not a hexadecimal digit", 2 * i));
            },
        };
        assert(first_non_hex(s@, 2 * i as int) == first_non_hex(s@, 2 * i + 1));
        let lo = match hex_digit_value(text.get_char(2 * i + 1)) {
            Some(l) => l,
            None => {
                assert(first_non_hex(s@, 2 * i + 1) == 2 * i + 1);
                return Err(parse_error("not a hexadecimal digit", 2 * i + 1));
            },
        };
        assert(first_non_hex(s@, 2 * i + 1) == first_non_hex(s@, 2 * i + 2));
        v.push(hi * 16 + lo);
        i = i + 1;
    }
    assert(v@ =~= hash_of_hex(s@));
    Ok(v)
}

/// Where the object with hexadecimal hash `hash` is stored: the first two
/// digits name a directory under the object root, the rest the file in it.
pub fn hash_to_path_str(hash: &str) -> (r: String)
    requires
        hash@.len() >= 2,
    ensures
        r@ == object_path(hash@),
{
    let mut path = String::from_str(".git/objects/");
    path.append(hash.substring_char(0, 2));
    path.append("/");
    path.append(hash.substring_char(2, hash.unicode_len()));
    proof {
        reveal_strlit(".git/objects/");
        reveal_strlit("/");
    }
    path
}

} // verus!

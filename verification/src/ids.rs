//! Short identifiers: their shape, the random generator behind them, and a
//! deterministic enumeration of the identifier space used as a fallback
//! when random probing keeps colliding.

use vstd::prelude::*;

verus! {

/// Every short identifier has exactly this many characters.
pub const SHORT_ID_LEN: usize = 7;

/// How many short identifiers exist: 64 to the 7th power. A store can
/// never hand out more distinct identifiers than this.
pub const ID_SPACE: u64 = 4398046511104;

/// The URL-safe alphabet that identifiers are drawn from: ASCII letters,
/// digits, underscore and hyphen.
pub open spec fn is_url_safe_char(c: char) -> bool {
    ('a' <= c && c <= 'z') || ('A' <= c && c <= 'Z') || ('0' <= c && c <= '9') || c == '_' || c
        == '-'
}

/// A well-shaped short identifier: exactly `SHORT_ID_LEN` characters, all
/// from the URL-safe alphabet.
pub open spec fn valid_short_id(s: Seq<char>) -> bool {
    &&& s.len() == SHORT_ID_LEN
    &&& forall|i: int| 0 <= i < s.len() ==> is_url_safe_char(s[i])
}

/// Relies on nanoid::format with nanoid's URL-safe alphabet: it returns a
/// string of exactly the requested number of characters, each picked from
/// that alphabet. The picks are random, so nothing relates two calls.
#[verifier::external_body]
pub(crate) fn random_short_id() -> (id: String)
    ensures
        valid_short_id(id@),
{
    nanoid::format(nanoid::rngs::default, &nanoid::alphabet::SAFE, SHORT_ID_LEN)
}

/// Relies on std's String::push: it appends exactly the given character.
#[verifier::external_body]
fn push_char(s: &mut String, c: char)
    ensures
        final(s)@ == old(s)@.push(c),
{
    s.push(c);
}

/// 64 to the `n`th power.
pub open spec fn pow64(n: nat) -> nat
    decreases n,
{
    if n == 0 {
        1
    } else {
        64 * pow64((n - 1) as nat)
    }
}

/// `ID_SPACE` is the size of the identifier space.
pub proof fn lemma_id_space()
    ensures
        pow64(SHORT_ID_LEN as nat) == ID_SPACE,
{
    reveal_with_fuel(pow64, 8);
}

/// The character standing for one base-64 digit.
pub open spec fn digit_char_of(d: int) -> char {
    if 0 <= d < 26 {
        ((d + 97) as u32) as char  // 'a' to 'z'
    } else if 26 <= d < 52 {
        ((d - 26 + 65) as u32) as char  // 'A' to 'Z'
    } else if 52 <= d < 62 {
        ((d - 52 + 48) as u32) as char  // '0' to '9'
    } else if d == 62 {
        '_'
    } else {
        '-'
    }
}

/// Each digit gets its own character, and one from the URL-safe alphabet.
proof fn lemma_digit_char(d1: int, d2: int)
    requires
        0 <= d1 < 64,
        0 <= d2 < 64,
    ensures
        is_url_safe_char(digit_char_of(d1)),
        digit_char_of(d1) == digit_char_of(d2) ==> d1 == d2,
{
}

/// The identifier standing for `j`, written least-significant digit first,
/// padded to `len` characters.
pub open spec fn encode_digits(j: nat, len: nat) -> Seq<char>
    decreases len,
{
    if len == 0 {
        Seq::empty()
    } else {
        seq![digit_char_of((j % 64) as int)] + encode_digits(j / 64, (len - 1) as nat)
    }
}

/// An encoded identifier has `len` characters, all URL-safe.
proof fn lemma_encode_digits_shape(j: nat, len: nat)
    ensures
        encode_digits(j, len).len() == len,
        forall|i: int| 0 <= i < len ==> is_url_safe_char(#[trigger] encode_digits(j, len)[i]),
    decreases len,
{
    if len > 0 {
        lemma_digit_char((j % 64) as int, 0);
        lemma_encode_digits_shape(j / 64, (len - 1) as nat);
        let s = encode_digits(j, len);
        let tail = encode_digits(j / 64, (len - 1) as nat);
        assert forall|i: int| 0 <= i < len implies is_url_safe_char(s[i]) by {
            if i > 0 {
                assert(s[i] == tail[i - 1]);
            }
        }
    }
}

/// Distinct numbers below 64 to the `len`th power encode to distinct
/// identifiers.
pub proof fn lemma_encode_digits_injective(j1: nat, j2: nat, len: nat)
    requires
        j1 < pow64(len),
        j2 < pow64(len),
        encode_digits(j1, len) == encode_digits(j2, len),
    ensures
        j1 == j2,
    decreases len,
{
    if len > 0 {
        let s1 = encode_digits(j1, len);
        let s2 = encode_digits(j2, len);
        let t1 = encode_digits(j1 / 64, (len - 1) as nat);
        let t2 = encode_digits(j2 / 64, (len - 1) as nat);
        lemma_encode_digits_shape(j1 / 64, (len - 1) as nat);
        lemma_encode_digits_shape(j2 / 64, (len - 1) as nat);
        assert(s1[0] == digit_char_of((j1 % 64) as int));
        assert(s2[0] == digit_char_of((j2 % 64) as int));
        lemma_digit_char((j1 % 64) as int, (j2 % 64) as int);
        assert(j1 % 64 == j2 % 64);
        assert(t1 =~= t2) by {
            assert forall|i: int| 0 <= i < t1.len() implies t1[i] == t2[i] by {
                assert(t1[i] == s1[i + 1]);
                assert(t2[i] == s2[i + 1]);
            }
        }
        assert(j1 / 64 < pow64((len - 1) as nat)) by {
            vstd::arithmetic::div_mod::lemma_fundamental_div_mod(j1 as int, 64);
        }
        assert(j2 / 64 < pow64((len - 1) as nat)) by {
            vstd::arithmetic::div_mod::lemma_fundamental_div_mod(j2 as int, 64);
        }
        lemma_encode_digits_injective(j1 / 64, j2 / 64, (len - 1) as nat);
        vstd::arithmetic::div_mod::lemma_fundamental_div_mod(j1 as int, 64);
        vstd::arithmetic::div_mod::lemma_fundamental_div_mod(j2 as int, 64);
    }
}

/// The executable character for one base-64 digit.
fn digit_char(d: u8) -> (c: char)
    requires
        d < 64,
    ensures
        c == digit_char_of(d as int),
{
    if d < 26 {
        (d + 97) as char
    } else if d < 52 {
        (d - 26 + 65) as char
    } else if d < 62 {
        (d - 52 + 48) as char
    } else if d == 62 {
        '_'
    } else {
        '-'
    }
}

/// The `j`th identifier of the space, a well-shaped short identifier.
/// Distinct numbers give distinct identifiers.
pub fn encode_id(j: u64) -> (id: String)
    requires
        j < ID_SPACE,
    ensures
        id@ == encode_digits(j as nat, SHORT_ID_LEN as nat),
        valid_short_id(id@),
{
    let mut id = String::new();
    let mut rem: u64 = j;
    let mut k: usize = 0;
    while k < SHORT_ID_LEN
        invariant
            k <= SHORT_ID_LEN,
            id@ + encode_digits(rem as nat, (SHORT_ID_LEN - k) as nat) == encode_digits(
                j as nat,
                SHORT_ID_LEN as nat,
            ),
        decreases SHORT_ID_LEN - k,
    {
        let ghost id_before: Seq<char> = id@;
        let ghost rem_before: nat = rem as nat;
        let d: u8 = (rem % 64) as u8;
        let c = digit_char(d);
        push_char(&mut id, c);
        rem = rem / 64;
        k += 1;
        proof {
            let left: nat = (SHORT_ID_LEN - k) as nat;
            assert(encode_digits(rem_before, (left + 1) as nat) == seq![
                digit_char_of((rem_before % 64) as int),
            ] + encode_digits(rem_before / 64, left));
            assert(id@ + encode_digits(rem as nat, left) =~= id_before + encode_digits(
                rem_before,
                (left + 1) as nat,
            ));
        }
    }
    proof {
        assert(id@ + encode_digits(rem as nat, 0) =~= id@);
        lemma_encode_digits_shape(j as nat, SHORT_ID_LEN as nat);
    }
    id
}

} // verus!

//! Radar session ids: 128-bit values that travel as hyphenated hexadecimal
//! text (`67e55044-10b1-426f-9247-bb680e5fe0c8`). The server writes them and
//! the game side reads them back, and the other way round.

use std::str::FromStr;
use vstd::prelude::*;
use vstd::string::StringSliceAdditionalSpecFns;
use vstd::utf8::encode_utf8;

verus! {

/// The value of an ASCII hexadecimal digit, in either case.
pub open spec fn hex_digit_value(c: u8) -> Option<int> {
    if 48 <= c <= 57 {
        Some(c - 48)
    } else if 97 <= c <= 102 {
        Some(c - 87)
    } else if 65 <= c <= 70 {
        Some(c - 55)
    } else {
        None
    }
}

/// The lower-case ASCII digit of a value below 16.
pub open spec fn lower_hex_digit(d: int) -> u8 {
    if d < 10 {
        (48 + d) as u8
    } else {
        (87 + d) as u8
    }
}

/// Whether a position of the 36-character text holds a hyphen.
pub open spec fn hyphen_at(p: int) -> bool {
    p == 8 || p == 13 || p == 18 || p == 23
}

/// The hyphens before position `p`.
pub open spec fn hyphens_before(p: int) -> int {
    (if p > 8 {
        1int
    } else {
        0
    }) + (if p > 13 {
        1int
    } else {
        0
    }) + (if p > 18 {
        1int
    } else {
        0
    }) + (if p > 23 {
        1int
    } else {
        0
    })
}

/// The position in the text of digit `n` (0 to 31, most significant first).
pub open spec fn digit_pos(n: int) -> int {
    n + (if n >= 8 {
        1int
    } else {
        0
    }) + (if n >= 12 {
        1int
    } else {
        0
    }) + (if n >= 16 {
        1int
    } else {
        0
    }) + (if n >= 20 {
        1int
    } else {
        0
    })
}

/// The last `k` hexadecimal digits of `x`, most significant first.
pub open spec fn hex_digits(x: nat, k: nat) -> Seq<int>
    decreases k,
{
    if k == 0 {
        Seq::empty()
    } else {
        hex_digits(x / 16, (k - 1) as nat).push((x % 16) as int)
    }
}

/// The hyphenated lower-case text of an id: its 32 hexadecimal digits in
/// groups of 8, 4, 4, 4 and 12.
pub open spec fn spec_id_text(id: u128) -> Seq<u8> {
    Seq::new(
        36,
        |p: int|
            if hyphen_at(p) {
                45u8
            } else {
                lower_hex_digit(hex_digits(id as nat, 32)[p - hyphens_before(p)])
            },
    )
}

/// Whether text is a hyphenated id: 36 characters, hyphens in their four
/// places and hexadecimal digits (in either case) everywhere else.
pub open spec fn is_hyphenated_id(t: Seq<u8>) -> bool {
    &&& t.len() == 36
    &&& t[8] == 45 && t[13] == 45 && t[18] == 45 && t[23] == 45
    &&& forall|n: int| 0 <= n < 32 ==> (#[trigger] hex_digit_value(t[digit_pos(n)])) is Some
}

/// The value of the first `k` digits of a hyphenated id.
pub open spec fn digits_value(t: Seq<u8>, k: nat) -> int
    decreases k,
{
    if k == 0 {
        0
    } else {
        digits_value(t, (k - 1) as nat) * 16 + hex_digit_value(t[digit_pos(k - 1)]).unwrap()
    }
}

/// Name for what `Uuid::parse_str` gives for text: the id it denotes, or
/// `None` when it is not one of the forms the crate reads.
pub uninterp spec fn parsed_id(text: Seq<u8>) -> Option<u128>;

/// Calls `uuid::Uuid::parse_str` and takes the id as a `u128`. Trusted: the
/// result is `parsed_id` of the text; for a hyphenated id it is the value of
/// its 32 digits, as the crate's parser reads them. The other forms it reads
/// (32 bare digits, braces, a `urn:uuid:` prefix) are not written out.
#[verifier::external_body]
fn parse_uuid(text: &str) -> (r: Option<u128>)
    ensures
        r == parsed_id(text.spec_bytes()),
        is_hyphenated_id(text.spec_bytes()) ==> r == Some(digits_value(text.spec_bytes(), 32) as u128),
{
    uuid::Uuid::from_str(text).ok().map(|u| u.as_u128())
}

/// Formats an id with `uuid::Uuid`'s `Display` (which is its `LowerHex`).
/// Trusted: the text is the hyphenated lower-case form of the id's 16
/// big-endian bytes, as the crate's formatter writes it.
#[verifier::external_body]
fn format_uuid(id: u128) -> (r: String)
    ensures
        encode_utf8(r@) == spec_id_text(id),
{
    format!("{}", uuid::Uuid::from_u128(id))
}

/// The text of a session id, as the server hands it out and the game sends
/// it back.
pub fn id_text(id: u128) -> (r: String)
    ensures
        encode_utf8(r@) == spec_id_text(id),
{
    format_uuid(id)
}

/// Reads a session id from text.
pub fn parse_id(text: &str) -> (r: Option<u128>)
    ensures
        r == parsed_id(text.spec_bytes()),
        is_hyphenated_id(text.spec_bytes()) ==> r == Some(digits_value(text.spec_bytes(), 32) as u128),
{
    parse_uuid(text)
}

/// `16^k`.
pub open spec fn pow16(k: nat) -> nat
    decreases k,
{
    if k == 0 {
        1
    } else {
        16 * pow16((k - 1) as nat)
    }
}

/// `x` divided by 16, `k` times.
pub open spec fn shift16(x: nat, k: nat) -> nat
    decreases k,
{
    if k == 0 {
        x
    } else {
        shift16(x / 16, (k - 1) as nat)
    }
}

/// The value of `k` digits.
pub open spec fn seq_value(ds: Seq<int>) -> int
    decreases ds.len(),
{
    if ds.len() == 0 {
        0
    } else {
        seq_value(ds.drop_last()) * 16 + ds.last()
    }
}

proof fn lemma_digits(x: nat, k: nat)
    ensures
        hex_digits(x, k).len() == k,
        forall|i: int| 0 <= i < k ==> 0 <= #[trigger] hex_digits(x, k)[i] < 16,
        seq_value(hex_digits(x, k)) + shift16(x, k) * pow16(k) == x,
    decreases k,
{
    if k > 0 {
        let k1 = (k - 1) as nat;
        lemma_digits(x / 16, k1);
        let ds = hex_digits(x, k);
        assert(ds.drop_last() =~= hex_digits(x / 16, k1));
        let h = shift16(x / 16, k1);
        let p = pow16(k1);
        assert(seq_value(hex_digits(x / 16, k1)) + h * p == x / 16);
        assert(x == 16 * (x / 16) + x % 16) by (nonlinear_arith);
        assert(h * (16 * p) == 16 * (h * p)) by (nonlinear_arith);
        assert(seq_value(ds) == seq_value(hex_digits(x / 16, k1)) * 16 + x % 16);
        assert(shift16(x, k) == h);
        assert(pow16(k) == 16 * p);
        let sv = seq_value(hex_digits(x / 16, k1));
        assert(sv * 16 + x % 16 + h * (16 * p) == x) by (nonlinear_arith)
            requires
                sv + h * p == x / 16,
                x == 16 * (x / 16) + x % 16,
                h * (16 * p) == 16 * (h * p),
        ;
    } else {
        assert(pow16(0) == 1);
        assert(shift16(x, 0) == x);
        assert(hex_digits(x, 0) =~= Seq::<int>::empty());
        assert(x * 1 == x);
    }
}

proof fn lemma_pow16_32()
    ensures
        pow16(32) == 0x1_0000_0000_0000_0000_0000_0000_0000_0000,
{
    reveal_with_fuel(pow16, 33);
}

proof fn lemma_text_digits(id: u128, k: nat)
    requires
        k <= 32,
    ensures
        digits_value(spec_id_text(id), k) == seq_value(hex_digits(id as nat, 32).subrange(0, k as int)),
    decreases k,
{
    let t = spec_id_text(id);
    let ds = hex_digits(id as nat, 32);
    lemma_digits(id as nat, 32);
    if k > 0 {
        let k1 = (k - 1) as nat;
        lemma_text_digits(id, k1);
        let n = k - 1;
        assert(!hyphen_at(digit_pos(n)));
        assert(digit_pos(n) - hyphens_before(digit_pos(n)) == n);
        assert(ds.subrange(0, k as int).drop_last() =~= ds.subrange(0, k1 as int));
        let d = ds[n as int];
        assert(0 <= d < 16);
        assert(t[digit_pos(n)] == lower_hex_digit(d));
        assert(hex_digit_value(lower_hex_digit(d)) == Some(d));
    }
}

/// A session id written as text reads back as the same id: the text is a
/// hyphenated id, and the value of its digits is the id.
pub proof fn lemma_id_text_round_trip(id: u128)
    ensures
        is_hyphenated_id(spec_id_text(id)),
        digits_value(spec_id_text(id), 32) == id,
{
    let t = spec_id_text(id);
    let ds = hex_digits(id as nat, 32);
    lemma_digits(id as nat, 32);
    assert forall|n: int| 0 <= n < 32 implies (#[trigger] hex_digit_value(t[digit_pos(n)])) is Some by {
        assert(!hyphen_at(digit_pos(n)));
        assert(digit_pos(n) - hyphens_before(digit_pos(n)) == n);
        assert(0 <= ds[n] < 16);
    }
    lemma_text_digits(id, 32);
    assert(ds.subrange(0, 32) =~= ds);
    lemma_pow16_32();
    let h = shift16(id as nat, 32);
    assert(seq_value(ds) + h * pow16(32) == id);
    assert(seq_value(ds) >= 0) by {
        lemma_seq_value_nonneg(ds);
    }
    assert(h == 0) by (nonlinear_arith)
        requires
            seq_value(ds) + h * 0x1_0000_0000_0000_0000_0000_0000_0000_0000 == id as int,
            seq_value(ds) >= 0,
            id < 0x1_0000_0000_0000_0000_0000_0000_0000_0000,
            h >= 0,
    ;
}

proof fn lemma_seq_value_nonneg(ds: Seq<int>)
    requires
        forall|i: int| 0 <= i < ds.len() ==> 0 <= #[trigger] ds[i],
    ensures
        seq_value(ds) >= 0,
    decreases ds.len(),
{
    if ds.len() > 0 {
        lemma_seq_value_nonneg(ds.drop_last());
    }
}

} // verus!

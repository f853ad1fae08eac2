//! Byte-level string helpers shared by the parsers.

use vstd::prelude::*;
use vstd::utf8::*;
use vstd::string::StringSliceAdditionalSpecFns;

verus! {

broadcast use vstd::utf8::encode_utf8_decode_utf8;

/// Name for what `String::from_utf8_lossy` makes of a byte sequence.
pub uninterp spec fn utf8_lossy(bytes: Seq<u8>) -> Seq<char>;

/// The text of some bytes: the decoded text where they are valid UTF-8,
/// otherwise what `String::from_utf8_lossy` makes of them.
pub open spec fn lossy_text(bytes: Seq<u8>) -> Seq<char> {
    if valid_utf8(bytes) {
        decode_utf8(bytes)
    } else {
        utf8_lossy(bytes)
    }
}

/// Calls `String::from_utf8_lossy` and takes ownership of the result.
/// Trusted: the result is `utf8_lossy` of the bytes, and for valid UTF-8
/// input it is exactly the decoded text (std documents that a valid slice
/// is returned unchanged). What replaces invalid sequences is left unsaid.
#[verifier::external_body]
pub(crate) fn lossy_string(bytes: &[u8]) -> (s: String)
    ensures
        s@ == utf8_lossy(bytes@),
        valid_utf8(bytes@) ==> s@ == decode_utf8(bytes@),
{
    String::from_utf8_lossy(bytes).into_owned()
}

/// Byte-wise equality of two slices.
pub fn bytes_eq(a: &[u8], b: &[u8]) -> (r: bool)
    ensures
        r == (a@ == b@),
{
    if a.len() != b.len() {
        return false;
    }
    let mut i: usize = 0;
    while i < a.len()
        invariant
            a@.len() == b@.len(),
            i <= a@.len(),
            forall|j: int| 0 <= j < i ==> a@[j] == b@[j],
        decreases a@.len() - i,
    {
        if a[i] != b[i] {
            return false;
        }
        i = i + 1;
    }
    assert(a@ =~= b@);
    true
}

/// Equality of two strings, decided on their UTF-8 bytes.
pub fn str_eq(a: &str, b: &str) -> (r: bool)
    ensures
        r == (a@ == b@),
{
    let ab = a.as_bytes();
    let bb = b.as_bytes();
    let r = bytes_eq(ab, bb);
    proof {
        if r {
            assert(decode_utf8(encode_utf8(a@)) == a@);
            assert(decode_utf8(encode_utf8(b@)) == b@);
        }
    }
    r
}

/// Two texts are equal exactly when their UTF-8 encodings are.
pub proof fn lemma_chars_eq_bytes(a: Seq<char>, b: Seq<char>)
    ensures
        (a == b) == (encode_utf8(a) == encode_utf8(b)),
{
    if encode_utf8(a) == encode_utf8(b) {
        assert(decode_utf8(encode_utf8(a)) == a);
        assert(decode_utf8(encode_utf8(b)) == b);
    }
}

/// `p` occurs in `s` at position `at`.
pub open spec fn occurs_at(s: Seq<u8>, p: Seq<u8>, at: int) -> bool {
    0 <= at && at + p.len() <= s.len() && s.subrange(at, at + p.len()) == p
}

/// `p` is a prefix of `s`.
pub open spec fn has_prefix(s: Seq<u8>, p: Seq<u8>) -> bool {
    occurs_at(s, p, 0)
}

/// `p` is a suffix of `s`.
pub open spec fn has_suffix(s: Seq<u8>, p: Seq<u8>) -> bool {
    occurs_at(s, p, s.len() - p.len())
}

/// `p` occurs somewhere in `s`.
pub open spec fn contains_bytes(s: Seq<u8>, p: Seq<u8>) -> bool {
    exists|at: int| occurs_at(s, p, at)
}

/// Whether `p` occurs in `s` at `at`.
pub fn bytes_occur_at(s: &[u8], p: &[u8], at: usize) -> (r: bool)
    ensures
        r == occurs_at(s@, p@, at as int),
{
    if at > s.len() || p.len() > s.len() - at {
        return false;
    }
    let mut j: usize = 0;
    while j < p.len()
        invariant
            at + p@.len() <= s@.len(),
            s@.len() == s.len(),
            j <= p@.len(),
            forall|k: int| 0 <= k < j ==> s@[at + k] == p@[k],
        decreases p@.len() - j,
    {
        if s[at + j] != p[j] {
            assert(s@.subrange(at as int, at + p@.len())[j as int] != p@[j as int]);
            return false;
        }
        j = j + 1;
    }
    assert(s@.subrange(at as int, at + p@.len()) =~= p@);
    true
}

/// Byte prefix test, as `str::starts_with` does it.
pub fn bytes_starts_with(s: &[u8], p: &[u8]) -> (r: bool)
    ensures
        r == has_prefix(s@, p@),
{
    bytes_occur_at(s, p, 0)
}

/// Byte suffix test, as `str::ends_with` does it.
pub fn bytes_ends_with(s: &[u8], p: &[u8]) -> (r: bool)
    ensures
        r == has_suffix(s@, p@),
{
    if p.len() > s.len() {
        return false;
    }
    bytes_occur_at(s, p, s.len() - p.len())
}

/// Substring test, as `str::contains` does it for a string pattern.
pub fn bytes_contains(s: &[u8], p: &[u8]) -> (r: bool)
    ensures
        r == contains_bytes(s@, p@),
{
    if p.len() > s.len() {
        assert forall|at: int| !occurs_at(s@, p@, at) by {}
        return false;
    }
    let last = s.len() - p.len();
    let mut at: usize = 0;
    while at < last
        invariant
            last == s@.len() - p@.len(),
            at <= last,
            forall|k: int| 0 <= k < at ==> !occurs_at(s@, p@, k),
        decreases last - at,
    {
        if bytes_occur_at(s, p, at) {
            return true;
        }
        at = at + 1;
    }
    if bytes_occur_at(s, p, last) {
        return true;
    }
    assert forall|k: int| !occurs_at(s@, p@, k) by {
        if 0 <= k < at {
        }
    }
    false
}

/// Value of a sequence of ASCII decimal digits.
pub open spec fn decimal_value(d: Seq<u8>) -> nat
    decreases d.len(),
{
    if d.len() == 0 {
        0
    } else {
        10 * decimal_value(d.drop_last()) + (d.last() - 48) as nat
    }
}

/// Every byte is an ASCII digit.
pub open spec fn all_digits(d: Seq<u8>) -> bool {
    forall|k: int| 0 <= k < d.len() ==> 48 <= #[trigger] d[k] <= 57
}

/// What `u16::from_str` accepts: an optional `+`, then one or more decimal
/// digits whose value fits in 16 bits.
pub open spec fn spec_parse_u16(b: Seq<u8>) -> Option<u16> {
    let d = if b.len() > 1 && b[0] == 43 { b.drop_first() } else { b };
    if d.len() > 0 && all_digits(d) && decimal_value(d) <= 65535 {
        Some(decimal_value(d) as u16)
    } else {
        None
    }
}

proof fn lemma_decimal_value_grows(d: Seq<u8>, k: int)
    requires
        0 <= k <= d.len(),
        all_digits(d),
    ensures
        decimal_value(d.take(k)) <= decimal_value(d),
    decreases d.len() - k,
{
    if k < d.len() {
        lemma_decimal_value_grows(d, k + 1);
        assert(d.take(k + 1).drop_last() =~= d.take(k));
        assert(d.take(k + 1).last() == d[k]);
    } else {
        assert(d.take(k) =~= d);
    }
}

/// Parses a decimal `u16` the way `str::parse::<u16>` does.
pub fn parse_u16(s: &str) -> (r: Option<u16>)
    ensures
        r == spec_parse_u16(s.spec_bytes()),
{
    let b = s.as_bytes();
    let start: usize = if b.len() > 1 && b[0] == 43 { 1 } else { 0 };
    let ghost d = if b@.len() > 1 && b@[0] == 43 { b@.drop_first() } else { b@ };
    assert(d =~= b@.skip(start as int));
    if start == b.len() {
        return None;
    }
    let mut acc: u32 = 0;
    let mut i: usize = start;
    while i < b.len()
        invariant
            start <= i <= b@.len(),
            b@ == s.spec_bytes(),
            d == (if b@.len() > 1 && b@[0] == 43 { b@.drop_first() } else { b@ }),
            d =~= b@.skip(start as int),
            all_digits(d.take(i - start)),
            acc == decimal_value(d.take(i - start)),
            acc <= 65535,
        decreases b@.len() - i,
    {
        let c = b[i];
        if c < 48 || c > 57 {
            assert(d[i - start] == c);
            assert(!all_digits(d));
            return None;
        }
        assert(d.take(i - start + 1).drop_last() =~= d.take(i - start));
        assert(d.take(i - start + 1).last() == c);
        let next = acc * 10 + (c - 48) as u32;
        assert(decimal_value(d.take(i - start + 1)) == next);
        if next > 65535 {
            proof {
                assert(all_digits(d.take(i - start + 1)));
                if all_digits(d) {
                    lemma_decimal_value_grows(d, i - start + 1);
                }
            }
            return None;
        }
        acc = next;
        i = i + 1;
    }
    assert(d.take(i - start) =~= d);
    Some(acc as u16)
}

/// Length of the whitespace character (as `char::is_whitespace` defines
/// it) whose UTF-8 encoding starts at `i`, or 0 when there is none.
pub open spec fn ws_len(b: Seq<u8>, i: int) -> int {
    if i < 0 || i >= b.len() {
        0
    } else if b[i] == 32 || (9 <= b[i] <= 13) {
        1
    } else if i + 1 < b.len() && b[i] == 0xC2 && (b[i + 1] == 0x85 || b[i + 1] == 0xA0) {
        2
    } else if i + 2 < b.len() && b[i] == 0xE1 && b[i + 1] == 0x9A && b[i + 2] == 0x80 {
        3
    } else if i + 2 < b.len() && b[i] == 0xE2 && b[i + 1] == 0x80 && ((0x80 <= b[i + 2]
        <= 0x8A) || b[i + 2] == 0xA8 || b[i + 2] == 0xA9 || b[i + 2] == 0xAF) {
        3
    } else if i + 2 < b.len() && b[i] == 0xE2 && b[i + 1] == 0x81 && b[i + 2] == 0x9F {
        3
    } else if i + 2 < b.len() && b[i] == 0xE3 && b[i + 1] == 0x80 && b[i + 2] == 0x80 {
        3
    } else {
        0
    }
}

/// Length of the whitespace character at `i`, or 0.
pub(crate) fn whitespace_len(b: &[u8], i: usize) -> (r: usize)
    requires
        i < b@.len(),
    ensures
        r == ws_len(b@, i as int),
{
    let c = b[i];
    let n = b.len();
    if c == 32 || (9 <= c && c <= 13) {
        1
    } else if n - i > 1 && c == 0xC2 && (b[i + 1] == 0x85 || b[i + 1] == 0xA0) {
        2
    } else if n - i > 2 && c == 0xE1 && b[i + 1] == 0x9A && b[i + 2] == 0x80 {
        3
    } else if n - i > 2 && c == 0xE2 && b[i + 1] == 0x80 && ((0x80 <= b[i + 2] && b[i + 2]
        <= 0x8A) || b[i + 2] == 0xA8 || b[i + 2] == 0xA9 || b[i + 2] == 0xAF) {
        3
    } else if n - i > 2 && c == 0xE2 && b[i + 1] == 0x81 && b[i + 2] == 0x9F {
        3
    } else if n - i > 2 && c == 0xE3 && b[i + 1] == 0x80 && b[i + 2] == 0x80 {
        3
    } else {
        0
    }
}

/// Index of the first byte from `i` on that does not begin a whitespace
/// character.
pub open spec fn skip_ws(b: Seq<u8>, i: int) -> int
    decreases b.len() - i,
{
    if 0 <= i < b.len() && ws_len(b, i) > 0 {
        skip_ws(b, i + ws_len(b, i))
    } else {
        i
    }
}

/// Width of the whitespace character that ends right before `j`, or 0.
pub open spec fn ws_before(b: Seq<u8>, j: int) -> int {
    if j >= 1 && ws_len(b, j - 1) == 1 {
        1
    } else if j >= 2 && ws_len(b, j - 2) == 2 {
        2
    } else if j >= 3 && ws_len(b, j - 3) == 3 {
        3
    } else {
        0
    }
}

/// Where text ending at `j` ends once its trailing whitespace characters,
/// down to `lo`, are removed.
pub open spec fn trim_end_at(b: Seq<u8>, lo: int, j: int) -> int
    decreases j - lo,
{
    if j > lo && ws_before(b, j) > 0 && j - ws_before(b, j) >= lo {
        trim_end_at(b, lo, j - ws_before(b, j))
    } else {
        j
    }
}

/// The bytes of UTF-8 text without its leading and trailing whitespace, as
/// `str::trim` leaves them.
pub open spec fn spec_trim(b: Seq<u8>) -> Seq<u8> {
    let i = skip_ws(b, 0);
    b.subrange(i, trim_end_at(b, i, b.len() as int))
}

pub(crate) proof fn lemma_skip_ws_bounds(b: Seq<u8>, i: int)
    requires
        0 <= i <= b.len(),
    ensures
        i <= skip_ws(b, i) <= b.len(),
    decreases b.len() - i,
{
    if i < b.len() && ws_len(b, i) > 0 {
        lemma_skip_ws_bounds(b, i + ws_len(b, i));
    }
}

pub(crate) proof fn lemma_trim_end_bounds(b: Seq<u8>, lo: int, j: int)
    requires
        lo <= j,
    ensures
        lo <= trim_end_at(b, lo, j) <= j,
    decreases j - lo,
{
    if j > lo && ws_before(b, j) > 0 && j - ws_before(b, j) >= lo {
        lemma_trim_end_bounds(b, lo, j - ws_before(b, j));
    }
}

/// Width of the whitespace character that ends right before `j`, or 0.
fn whitespace_before(b: &[u8], j: usize) -> (r: usize)
    requires
        j <= b@.len(),
    ensures
        r == ws_before(b@, j as int),
{
    if j >= 1 && whitespace_len(b, j - 1) == 1 {
        1
    } else if j >= 2 && whitespace_len(b, j - 2) == 2 {
        2
    } else if j >= 3 && whitespace_len(b, j - 3) == 3 {
        3
    } else {
        0
    }
}

/// The bounds of the text that `str::trim` keeps.
pub fn trim_bounds(b: &[u8]) -> (r: (usize, usize))
    ensures
        r.0 == skip_ws(b@, 0),
        r.1 == trim_end_at(b@, r.0 as int, b@.len() as int),
        r.0 <= r.1 <= b@.len(),
{
    let mut i: usize = 0;
    while i < b.len() && whitespace_len(b, i) > 0
        invariant
            i <= b@.len(),
            skip_ws(b@, i as int) == skip_ws(b@, 0),
        decreases b@.len() - i,
    {
        i = i + whitespace_len(b, i);
    }
    let mut j: usize = b.len();
    while j > i && whitespace_before(b, j) > 0 && j - whitespace_before(b, j) >= i
        invariant
            i <= j <= b@.len(),
            trim_end_at(b@, i as int, j as int) == trim_end_at(b@, i as int, b@.len() as int),
        decreases j - i,
    {
        j = j - whitespace_before(b, j);
    }
    (i, j)
}

/// What `u64::from_str` accepts: an optional `+`, then one or more decimal
/// digits whose value fits in 64 bits.
pub open spec fn spec_parse_u64(b: Seq<u8>) -> Option<u64> {
    let d = if b.len() > 1 && b[0] == 43 { b.drop_first() } else { b };
    if d.len() > 0 && all_digits(d) && decimal_value(d) <= u64::MAX {
        Some(decimal_value(d) as u64)
    } else {
        None
    }
}

/// Parses the bytes from `lo` to `hi` as a decimal `u64`, the way
/// `str::parse::<u64>` does.
pub fn parse_u64_in(b: &[u8], lo: usize, hi: usize) -> (r: Option<u64>)
    requires
        lo <= hi <= b@.len(),
    ensures
        r == spec_parse_u64(b@.subrange(lo as int, hi as int)),
{
    let ghost s = b@.subrange(lo as int, hi as int);
    let start: usize = if hi - lo > 1 && b[lo] == 43 { lo + 1 } else { lo };
    let ghost d = if s.len() > 1 && s[0] == 43 { s.drop_first() } else { s };
    assert(d =~= b@.subrange(start as int, hi as int));
    if start == hi {
        return None;
    }
    let mut acc: u64 = 0;
    let mut i: usize = start;
    while i < hi
        invariant
            lo <= start <= i <= hi <= b@.len(),
            s == b@.subrange(lo as int, hi as int),
            d == (if s.len() > 1 && s[0] == 43 { s.drop_first() } else { s }),
            d =~= b@.subrange(start as int, hi as int),
            all_digits(d.take(i - start)),
            acc == decimal_value(d.take(i - start)),
        decreases hi - i,
    {
        let c = b[i];
        if c < 48 || c > 57 {
            assert(d[i - start] == c);
            assert(!all_digits(d));
            return None;
        }
        assert(d.take(i - start + 1).drop_last() =~= d.take(i - start));
        assert(d.take(i - start + 1).last() == c);
        assert(decimal_value(d.take(i - start + 1)) == acc * 10 + (c - 48));
        if acc > (u64::MAX - (c - 48) as u64) / 10 {
            proof {
                assert(acc * 10 + (c - 48) > u64::MAX) by (nonlinear_arith)
                    requires
                        acc > (u64::MAX - (c - 48) as u64) / 10,
                        48 <= c <= 57,
                ;
                assert(all_digits(d.take(i - start + 1)));
                if all_digits(d) {
                    lemma_decimal_value_grows(d, i - start + 1);
                }
            }
            return None;
        }
        assert(acc * 10 + (c - 48) <= u64::MAX) by (nonlinear_arith)
            requires
                acc <= (u64::MAX - (c - 48) as u64) / 10,
                48 <= c <= 57,
        ;
        acc = acc * 10 + (c - 48) as u64;
        i = i + 1;
    }
    assert(d.take(i - start) =~= d);
    Some(acc)
}

/// The runs of bytes between separators, as `slice::split` yields them.
pub open spec fn spec_split(b: Seq<u8>, sep: u8) -> Seq<Seq<u8>>
    decreases b.len(),
{
    if b.len() == 0 {
        seq![Seq::<u8>::empty()]
    } else {
        let rest = spec_split(b.drop_last(), sep);
        if b.last() == sep {
            rest.push(Seq::<u8>::empty())
        } else {
            rest.update(rest.len() - 1, rest.last().push(b.last()))
        }
    }
}

/// The views of a list of byte vectors.
pub open spec fn byte_strings(v: Seq<Vec<u8>>) -> Seq<Seq<u8>> {
    v.map_values(|x: Vec<u8>| x@)
}

/// Splits bytes at every separator.
pub fn split_on(b: &[u8], sep: u8) -> (r: Vec<Vec<u8>>)
    ensures
        byte_strings(r@) == spec_split(b@, sep),
{
    let mut out: Vec<Vec<u8>> = Vec::new();
    let mut cur: Vec<u8> = Vec::new();
    let mut k: usize = 0;
    assert(spec_split(b@.subrange(0, 0), sep) =~= seq![Seq::<u8>::empty()]);
    while k < b.len()
        invariant
            k <= b@.len(),
            spec_split(b@.subrange(0, k as int), sep).len() >= 1,
            byte_strings(out@) == spec_split(b@.subrange(0, k as int), sep).drop_last(),
            cur@ == spec_split(b@.subrange(0, k as int), sep).last(),
        decreases b@.len() - k,
    {
        let ghost prev = spec_split(b@.subrange(0, k as int), sep);
        assert(b@.subrange(0, k + 1).drop_last() =~= b@.subrange(0, k as int));
        if b[k] == sep {
            let ghost old_out = out@;
            let line = cur;
            out.push(line);
            cur = Vec::new();
            assert(out@ == old_out.push(line));
            assert(prev =~= prev.drop_last().push(prev.last()));
            assert(byte_strings(out@) =~= prev);
            assert(spec_split(b@.subrange(0, k + 1), sep).drop_last() =~= prev);
        } else {
            cur.push(b[k]);
            let ghost next = spec_split(b@.subrange(0, k + 1), sep);
            assert(next.drop_last() =~= prev.drop_last());
        }
        k += 1;
    }
    let ghost all = spec_split(b@.subrange(0, b@.len() as int), sep);
    let ghost old_out = out@;
    let ghost last = cur@;
    out.push(cur);
    assert(out@ == old_out.push(out@.last()) && out@.last()@ == last);
    assert(all =~= all.drop_last().push(all.last()));
    assert(b@.subrange(0, b@.len() as int) =~= b@);
    assert(byte_strings(out@) =~= all);
    out
}

/// What `u32::from_str` accepts: the `u64` syntax, with a value that fits in
/// 32 bits.
pub open spec fn spec_parse_u32(b: Seq<u8>) -> Option<u32> {
    match spec_parse_u64(b) {
        Some(v) => if v <= u32::MAX {
            Some(v as u32)
        } else {
            None
        },
        None => None,
    }
}

/// Parses the bytes from `lo` to `hi` as a decimal `u32`.
pub fn parse_u32_in(b: &[u8], lo: usize, hi: usize) -> (r: Option<u32>)
    requires
        lo <= hi <= b@.len(),
    ensures
        r == spec_parse_u32(b@.subrange(lo as int, hi as int)),
{
    match parse_u64_in(b, lo, hi) {
        Some(v) => if v <= 0xFFFF_FFFF {
            Some(v as u32)
        } else {
            None
        },
        None => None,
    }
}

/// What `i32::from_str` accepts: an optional `+` or `-` (not alone), then one
/// or more decimal digits whose signed value fits in 32 bits.
pub open spec fn spec_parse_i32(b: Seq<u8>) -> Option<i32> {
    let neg = b.len() > 1 && b[0] == 45;
    let d = if b.len() > 1 && (b[0] == 43 || b[0] == 45) { b.drop_first() } else { b };
    if d.len() > 0 && all_digits(d) {
        if neg && decimal_value(d) <= 0x8000_0000 {
            Some((0 - decimal_value(d)) as i32)
        } else if !neg && decimal_value(d) <= 0x7FFF_FFFF {
            Some(decimal_value(d) as i32)
        } else {
            None
        }
    } else {
        None
    }
}

/// Parses the bytes from `lo` to `hi` as a decimal `i32`.
pub fn parse_i32_in(b: &[u8], lo: usize, hi: usize) -> (r: Option<i32>)
    requires
        lo <= hi <= b@.len(),
    ensures
        r == spec_parse_i32(b@.subrange(lo as int, hi as int)),
{
    let ghost s = b@.subrange(lo as int, hi as int);
    if hi - lo > 1 && b[lo] == 45 {
        let ghost d = s.drop_first();
        assert(d =~= b@.subrange(lo + 1, hi as int));
        assert(spec_parse_u64(d) == spec_parse_u64(b@.subrange(lo + 1, hi as int)));
        if b[lo + 1] == 43 {
            assert(d[0] == 43);
            assert(!all_digits(d));
            return None;
        }
        match parse_u64_in(b, lo + 1, hi) {
            Some(v) => {
                assert(!(d.len() > 1 && d[0] == 43));
                if v <= 0x8000_0000 {
                    Some((0 - (v as i64)) as i32)
                } else {
                    None
                }
            },
            None => {
                assert(!(d.len() > 1 && d[0] == 43));
                None
            },
        }
    } else {
        if hi - lo > 1 && b[lo] == 43 {
            let ghost d = s.drop_first();
            assert(d =~= b@.subrange(lo + 1, hi as int));
            if b[lo + 1] == 43 {
                assert(d[0] == 43);
                assert(!all_digits(d));
                return None;
            }
            match parse_u64_in(b, lo + 1, hi) {
                Some(v) => if v <= 0x7FFF_FFFF {
                    Some(v as i32)
                } else {
                    None
                },
                None => None,
            }
        } else {
            match parse_u64_in(b, lo, hi) {
                Some(v) => if v <= 0x7FFF_FFFF {
                    Some(v as i32)
                } else {
                    None
                },
                None => None,
            }
        }
    }
}

/// In valid UTF-8, the end of a run of ASCII bytes at the start is a
/// character boundary.
pub proof fn lemma_ascii_prefix_boundary(b: Seq<u8>, n: int)
    requires
        valid_utf8(b),
        0 <= n <= b.len(),
        forall|k: int| 0 <= k < n ==> b[k] < 0x80,
    ensures
        is_char_boundary(b, n),
    decreases n,
{
    if n > 0 {
        let t = b.subrange(1, b.len() as int);
        assert(length_of_first_scalar(b) == 1);
        assert(pop_first_scalar(b) == t);
        assert(valid_utf8(t));
        assert forall|k: int| 0 <= k < n - 1 implies t[k] < 0x80 by {
            assert(t[k] == b[k + 1]);
        }
        lemma_ascii_prefix_boundary(t, n - 1);
    }
}

/// In valid UTF-8, a whitespace character starting at a character boundary
/// ends at one.
proof fn lemma_ws_step_boundary(b: Seq<u8>, i: int)
    requires
        valid_utf8(b),
        0 <= i < b.len(),
        is_char_boundary(b, i),
        ws_len(b, i) > 0,
    ensures
        is_char_boundary(b, i + ws_len(b, i)),
{
    let k = ws_len(b, i);
    valid_utf8_split(b, i);
    let t = b.subrange(i, b.len() as int);
    assert(valid_utf8(t));
    assert(t[0] == b[i]);
    assert(length_of_first_scalar(t) == k) by {
        if k == 2 {
            assert(is_leading_byte_width_2(t[0]));
        } else if k == 3 {
            assert(is_leading_byte_width_3(t[0]));
        }
    }
    assert(is_char_boundary(t, k)) by {
        reveal_with_fuel(is_char_boundary, 2);
        assert(pop_first_scalar(t).len() >= 0);
        assert(valid_utf8(pop_first_scalar(t)));
    }
    if i + k < b.len() {
        is_char_boundary_iff_not_is_continuation_byte(t, k);
        assert(t[k] == b[i + k]);
        is_char_boundary_iff_not_is_continuation_byte(b, i + k);
    } else {
        is_char_boundary_start_end_of_seq(b);
    }
}

proof fn lemma_skip_ws_boundary(b: Seq<u8>, i: int)
    requires
        valid_utf8(b),
        0 <= i <= b.len(),
        is_char_boundary(b, i),
    ensures
        is_char_boundary(b, skip_ws(b, i)),
    decreases b.len() - i,
{
    if i < b.len() && ws_len(b, i) > 0 {
        lemma_ws_step_boundary(b, i);
        lemma_skip_ws_boundary(b, i + ws_len(b, i));
    }
}

proof fn lemma_trim_end_boundary(b: Seq<u8>, lo: int, j: int)
    requires
        valid_utf8(b),
        0 <= lo <= j <= b.len(),
        is_char_boundary(b, j),
    ensures
        is_char_boundary(b, trim_end_at(b, lo, j)),
    decreases j - lo,
{
    if j > lo && ws_before(b, j) > 0 && j - ws_before(b, j) >= lo {
        let p = j - ws_before(b, j);
        assert(ws_len(b, p) > 0);
        assert(!is_continuation_byte(b[p]));
        is_char_boundary_iff_not_is_continuation_byte(b, p);
        lemma_trim_end_boundary(b, lo, p);
    }
}

/// A sub-slice of text between two character boundaries.
pub fn substr(s: &str, lo: usize, hi: usize) -> (r: &str)
    requires
        lo <= hi <= s.spec_bytes().len(),
        is_char_boundary(s.spec_bytes(), lo as int),
        is_char_boundary(s.spec_bytes(), hi as int),
    ensures
        r.spec_bytes() == s.spec_bytes().subrange(lo as int, hi as int),
{
    let ghost b = s.spec_bytes();
    proof {
        encode_utf8_valid_utf8(s@);
    }
    let (_, tail) = s.split_at(lo);
    proof {
        let t = tail.spec_bytes();
        assert(t =~= b.subrange(lo as int, b.len() as int));
        valid_utf8_split(b, lo as int);
        if hi < b.len() {
            is_char_boundary_iff_not_is_continuation_byte(b, hi as int);
            assert(t[hi - lo] == b[hi as int]);
            is_char_boundary_iff_not_is_continuation_byte(t, hi - lo);
        } else {
            is_char_boundary_start_end_of_seq(t);
        }
    }
    let (mid, _) = tail.split_at(hi - lo);
    assert(mid.spec_bytes() =~= b.subrange(lo as int, hi as int));
    mid
}

/// Text without its leading and trailing whitespace, as `str::trim` gives it.
pub fn trim_str(s: &str) -> (r: &str)
    ensures
        r.spec_bytes() == spec_trim(s.spec_bytes()),
{
    let b = s.as_bytes();
    let (lo, hi) = trim_bounds(b);
    proof {
        encode_utf8_valid_utf8(s@);
        is_char_boundary_start_end_of_seq(b@);
        lemma_skip_ws_boundary(b@, 0);
        lemma_trim_end_boundary(b@, lo as int, b@.len() as int);
    }
    substr(s, lo, hi)
}

/// The UTF-8 bytes of joined text are the bytes of its parts, joined.
pub proof fn lemma_encode_concat(a: Seq<char>, b: Seq<char>)
    ensures
        encode_utf8(a + b) == encode_utf8(a) + encode_utf8(b),
    decreases a.len(),
{
    if a.len() > 0 {
        lemma_encode_concat(a.drop_first(), b);
        assert((a + b).drop_first() =~= a.drop_first() + b);
        assert((a + b)[0] == a[0]);
        assert(encode_utf8(a) + encode_utf8(b) =~= vstd::utf8::encode_scalar(a[0] as u32) + (
        encode_utf8(a.drop_first()) + encode_utf8(b)));
    } else {
        assert(a + b =~= b);
        assert(encode_utf8(a) =~= Seq::<u8>::empty());
    }
}

} // verus!

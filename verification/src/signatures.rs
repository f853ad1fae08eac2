//! Byte signatures: the manifest of patterns, pattern parsing, scanning a
//! module image, and the arithmetic applied to a match.

use std::collections::HashMap;
use vstd::prelude::*;
use vstd::string::StringSliceAdditionalSpecFns;
use crate::le::le_u32;
use crate::text::{str_eq, ws_len, whitespace_len};

verus! {

/// Where the word starting at `i` ends: the next whitespace or the end.
pub open spec fn word_end(b: Seq<u8>, i: int) -> int
    decreases b.len() - i,
{
    if 0 <= i < b.len() && ws_len(b, i) == 0 {
        word_end(b, i + 1)
    } else {
        i
    }
}

/// The whitespace-separated words of `b` from `i` on, as
/// `str::split_whitespace` yields them.
pub open spec fn spec_words(b: Seq<u8>, i: int) -> Seq<Seq<u8>>
    decreases b.len() - i,
{
    if i < 0 || i >= b.len() {
        Seq::empty()
    } else if ws_len(b, i) > 0 {
        spec_words(b, i + ws_len(b, i))
    } else {
        let e = word_end(b, i);
        if i < e <= b.len() {
            seq![b.subrange(i, e)] + spec_words(b, e)
        } else {
            Seq::empty()
        }
    }
}

proof fn lemma_word_end_bounds(b: Seq<u8>, i: int)
    requires
        0 <= i <= b.len(),
    ensures
        i <= word_end(b, i) <= b.len(),
        forall|k: int| i <= k < word_end(b, i) ==> ws_len(b, k) == 0,
    decreases b.len() - i,
{
    if i < b.len() && ws_len(b, i) == 0 {
        lemma_word_end_bounds(b, i + 1);
    }
}

/// Splits text into whitespace-separated words, as bytes.
pub fn split_whitespace(s: &str) -> (r: Vec<Vec<u8>>)
    ensures
        r@.map_values(|w: Vec<u8>| w@) == spec_words(s.spec_bytes(), 0),
{
    let b = s.as_bytes();
    let ghost bb = b@;
    let mut out: Vec<Vec<u8>> = Vec::new();
    let mut i: usize = 0;
    while i < b.len()
        invariant
            bb == b@,
            i <= bb.len(),
            out@.map_values(|w: Vec<u8>| w@) + spec_words(bb, i as int) == spec_words(bb, 0),
        decreases bb.len() - i,
    {
        let ghost before = out@.map_values(|w: Vec<u8>| w@);
        let w = whitespace_len(b, i);
        if w > 0 {
            i = i + w;
        } else {
            proof {
                lemma_word_end_bounds(bb, i as int);
            }
            let ghost e = word_end(bb, i as int);
            let start = i;
            let mut word: Vec<u8> = Vec::new();
            while i < b.len() && whitespace_len(b, i) == 0
                invariant
                    bb == b@,
                    start <= i <= bb.len(),
                    word_end(bb, i as int) == e,
                    word@ =~= bb.subrange(start as int, i as int),
                decreases bb.len() - i,
            {
                word.push(b[i]);
                i = i + 1;
            }
            out.push(word);
            assert(out@.map_values(|w: Vec<u8>| w@) =~= before.push(bb.subrange(start as int, e)));
            assert(spec_words(bb, start as int) == seq![bb.subrange(start as int, e)] + spec_words(bb, e));
            assert(before + spec_words(bb, start as int) =~= out@.map_values(|w: Vec<u8>| w@)
                + spec_words(bb, i as int));
        }
    }
    assert(out@.map_values(|w: Vec<u8>| w@) =~= spec_words(bb, 0));
    out
}

/// The value of an ASCII hex digit.
pub open spec fn hex_val(c: u8) -> Option<u8> {
    if 48 <= c <= 57 {
        Some((c - 48) as u8)
    } else if 97 <= c <= 102 {
        Some((c - 87) as u8)
    } else if 65 <= c <= 70 {
        Some((c - 55) as u8)
    } else {
        None
    }
}

/// What `u8::from_str_radix(token, 16)` gives for a two-byte token: two hex
/// digits, or `+` and one hex digit.
pub open spec fn spec_hex_byte(t: Seq<u8>) -> Option<u8> {
    if t.len() != 2 {
        None
    } else if t[0] == 43 {
        hex_val(t[1])
    } else {
        match (hex_val(t[0]), hex_val(t[1])) {
            (Some(hi), Some(lo)) => Some((16 * hi + lo) as u8),
            _ => None,
        }
    }
}

/// The `(byte, mask)` entries the words of a pattern give: `?` and `??`
/// are wildcards, two-byte words are hex bytes (one that is not makes the
/// whole pattern invalid), any other word is ignored.
pub open spec fn spec_pattern_entries(words: Seq<Seq<u8>>) -> Option<Seq<(u8, u8)>>
    decreases words.len(),
{
    if words.len() == 0 {
        Some(Seq::empty())
    } else {
        match spec_pattern_entries(words.drop_last()) {
            None => None,
            Some(prev) => {
                let w = words.last();
                if w == seq![63u8] || w == seq![63u8, 63u8] {
                    Some(prev.push((0u8, 0u8)))
                } else if w.len() == 2 {
                    match spec_hex_byte(w) {
                        Some(v) => Some(prev.push((v, 0xFFu8))),
                        None => None,
                    }
                } else {
                    Some(prev)
                }
            },
        }
    }
}

/// The bytes and mask a pattern text denotes; `None` when a two-byte word
/// is not hex or no byte is given.
pub open spec fn spec_parse_pattern(text: Seq<u8>) -> Option<(Seq<u8>, Seq<u8>)> {
    match spec_pattern_entries(spec_words(text, 0)) {
        Some(e) => if e.len() > 0 {
            Some((e.map_values(|p: (u8, u8)| p.0), e.map_values(|p: (u8, u8)| p.1)))
        } else {
            None
        },
        None => None,
    }
}

/// The value of a hex digit.
fn hex_digit(c: u8) -> (r: Option<u8>)
    ensures
        r == hex_val(c),
{
    if 48 <= c && c <= 57 {
        Some(c - 48)
    } else if 97 <= c && c <= 102 {
        Some(c - 87)
    } else if 65 <= c && c <= 70 {
        Some(c - 55)
    } else {
        None
    }
}

/// Parses a two-byte hex token.
fn hex_byte(t: &[u8]) -> (r: Option<u8>)
    requires
        t@.len() == 2,
    ensures
        r == spec_hex_byte(t@),
{
    if t[0] == 43 {
        hex_digit(t[1])
    } else {
        match (hex_digit(t[0]), hex_digit(t[1])) {
            (Some(hi), Some(lo)) => Some(16 * hi + lo),
            _ => None,
        }
    }
}

proof fn lemma_entries_none_stays(words: Seq<Seq<u8>>, k: int)
    requires
        0 <= k <= words.len(),
        spec_pattern_entries(words.take(k)) is None,
    ensures
        spec_pattern_entries(words) is None,
    decreases words.len() - k,
{
    if k < words.len() {
        assert(words.take(k + 1).drop_last() =~= words.take(k));
        lemma_entries_none_stays(words, k + 1);
    } else {
        assert(words.take(k) =~= words);
    }
}

/// Parses a signature pattern such as `48 8B ?? 05` into bytes and a mask
/// (0xFF where the byte must match, 0 for a wildcard).
pub fn parse_pattern(pattern: &str) -> (r: Option<(Vec<u8>, Vec<u8>)>)
    ensures
        match spec_parse_pattern(pattern.spec_bytes()) {
            Some((b, m)) => r matches Some((rb, rm)) && rb@ == b && rm@ == m,
            None => r is None,
        },
{
    let words = split_whitespace(pattern);
    let ghost ws = words@.map_values(|w: Vec<u8>| w@);
    let mut bytes: Vec<u8> = Vec::new();
    let mut mask: Vec<u8> = Vec::new();
    let mut k: usize = 0;
    assert(ws.take(0) =~= Seq::<Seq<u8>>::empty());
    while k < words.len()
        invariant
            ws == words@.map_values(|w: Vec<u8>| w@),
            ws == spec_words(pattern.spec_bytes(), 0),
            k <= words@.len(),
            spec_pattern_entries(ws.take(k as int)) matches Some(e) && e.len() == bytes@.len()
                && bytes@.len() == mask@.len() && forall|j: int|
                0 <= j < e.len() ==> #[trigger] e[j] == (bytes@[j], mask@[j]),
        decreases words@.len() - k,
    {
        let w = &words[k];
        assert(ws[k as int] == w@);
        assert(ws.take(k + 1).drop_last() =~= ws.take(k as int));
        assert(ws.take(k + 1).last() == w@);
        let is_wild = (w.len() == 1 && w[0] == 63) || (w.len() == 2 && w[0] == 63 && w[1] == 63);
        proof {
            if w@ == seq![63u8] || w@ == seq![63u8, 63u8] {
                assert(is_wild);
            }
            if is_wild {
                if w@.len() == 1 {
                    assert(w@ =~= seq![63u8]);
                } else {
                    assert(w@ =~= seq![63u8, 63u8]);
                }
            }
        }
        if is_wild {
            bytes.push(0);
            mask.push(0);
        } else if w.len() == 2 {
            match hex_byte(w.as_slice()) {
                Some(v) => {
                    bytes.push(v);
                    mask.push(0xFF);
                },
                None => {
                    proof {
                        lemma_entries_none_stays(ws, k + 1);
                    }
                    return None;
                },
            }
        }
        k = k + 1;
    }
    assert(ws.take(words@.len() as int) =~= ws);
    if bytes.len() == 0 {
        return None;
    }
    let ghost e = spec_pattern_entries(ws)->Some_0;
    assert(bytes@ =~= e.map_values(|p: (u8, u8)| p.0));
    assert(mask@ =~= e.map_values(|p: (u8, u8)| p.1));
    Some((bytes, mask))
}

} // verus!

verus! {

/// One step applied to the address a pattern matched.
#[derive(Debug, Clone, Copy, PartialEq, Eq, Structural)]
pub enum Operation {
    /// Resolve a RIP-relative operand: the displacement at `offset` plus
    /// the instruction length `len`.
    Rip { offset: u8, len: u8 },
    /// Add a constant.
    Add { value: u64 },
    /// Take bytes `start..end` of the instruction as a little-endian value.
    Slice { start: u8, end: u8 },
    /// Dereference the address.
    Read,
}

/// One way of finding a signature.
pub struct Variant {
    pub pattern: String,
    pub match_offset: u64,
    pub operations: Vec<Operation>,
}

/// A named global that is found by one of several pattern variants.
pub struct Signature {
    pub name: String,
    pub module: String,
    pub required: bool,
    pub variants: Vec<Variant>,
}

/// The list of signatures to resolve.
pub struct Manifest {
    pub signatures: Vec<Signature>,
}

/// A signature's `required` flag when the manifest leaves it out.
pub fn default_true() -> (r: bool)
    ensures
        r,
{
    true
}

/// A RIP operation's displacement offset when the manifest leaves it out.
pub fn default_rip_offset() -> (r: u8)
    ensures
        r == 3,
{
    3
}

/// A RIP operation's instruction length when the manifest leaves it out.
pub fn default_rip_len() -> (r: u8)
    ensures
        r == 7,
{
    7
}

/// The model of a variant.
pub struct VariantModel {
    pub pattern: Seq<char>,
    pub match_offset: u64,
    pub operations: Seq<Operation>,
}

/// The model of a signature.
pub struct SignatureModel {
    pub name: Seq<char>,
    pub module: Seq<char>,
    pub required: bool,
    pub variants: Seq<VariantModel>,
}

/// The model of a variant.
pub open spec fn variant_view(v: Variant) -> VariantModel {
    VariantModel { pattern: v.pattern@, match_offset: v.match_offset, operations: v.operations@ }
}

/// The models of a list of variants.
pub open spec fn variants_view(v: Seq<Variant>) -> Seq<VariantModel> {
    v.map_values(|x: Variant| variant_view(x))
}

/// The model of a signature.
pub open spec fn signature_view(s: Signature) -> SignatureModel {
    SignatureModel {
        name: s.name@,
        module: s.module@,
        required: s.required,
        variants: variants_view(s.variants@),
    }
}

/// The models of a list of signatures.
pub open spec fn signatures_view(s: Seq<Signature>) -> Seq<SignatureModel> {
    s.map_values(|x: Signature| signature_view(x))
}

/// The index of the first signature named `name`.
pub open spec fn first_named(sigs: Seq<SignatureModel>, name: Seq<char>) -> Option<int>
    decreases sigs.len(),
{
    if sigs.len() == 0 {
        None
    } else if sigs[0].name == name {
        Some(0)
    } else {
        match first_named(sigs.drop_first(), name) {
            Some(i) => Some(i + 1),
            None => None,
        }
    }
}

/// Merges one overlay signature: its variants go in front of those of the
/// first signature with its name, or it is appended when there is none.
pub open spec fn merge_one(base: Seq<SignatureModel>, o: SignatureModel) -> Seq<SignatureModel> {
    match first_named(base, o.name) {
        None => base.push(o),
        Some(i) => base.update(
            i,
            SignatureModel { variants: o.variants + base[i].variants, ..base[i] },
        ),
    }
}

/// Merges the overlay signatures one after another, in order.
pub open spec fn spec_merge(base: Seq<SignatureModel>, overlay: Seq<SignatureModel>) -> Seq<
    SignatureModel,
>
    decreases overlay.len(),
{
    if overlay.len() == 0 {
        base
    } else {
        merge_one(spec_merge(base, overlay.drop_last()), overlay.last())
    }
}

proof fn lemma_first_named_found(sigs: Seq<SignatureModel>, name: Seq<char>, j: int)
    requires
        0 <= j < sigs.len(),
        sigs[j].name == name,
        forall|k: int| 0 <= k < j ==> sigs[k].name != name,
    ensures
        first_named(sigs, name) == Some(j),
    decreases j,
{
    if j > 0 {
        lemma_first_named_found(sigs.drop_first(), name, j - 1);
    }
}

proof fn lemma_first_named_absent(sigs: Seq<SignatureModel>, name: Seq<char>)
    requires
        forall|k: int| 0 <= k < sigs.len() ==> sigs[k].name != name,
    ensures
        first_named(sigs, name).is_none(),
    decreases sigs.len(),
{
    if sigs.len() > 0 {
        lemma_first_named_absent(sigs.drop_first(), name);
    }
}

/// Adds the signatures of an overlay manifest to `base`: for a name `base`
/// already has, the overlay's variants are tried first; other signatures
/// are appended.
pub fn merge_manifest(base: &mut Manifest, overlay: Manifest)
    ensures
        signatures_view(final(base).signatures@) == spec_merge(
            signatures_view(old(base).signatures@),
            signatures_view(overlay.signatures@),
        ),
{
    let ghost ov = signatures_view(overlay.signatures@);
    let ghost b0 = signatures_view(base.signatures@);
    let mut rest = overlay.signatures;
    let total = rest.len();
    let ghost n = ov.len();
    assert(n == total);
    assert(ov.skip(0) =~= ov);
    let mut k: usize = 0;
    while rest.len() > 0
        invariant
            n == ov.len(),
            n <= usize::MAX,
            k + rest@.len() == n,
            signatures_view(rest@) == ov.skip(k as int),
            signatures_view(base.signatures@) == spec_merge(b0, ov.take(k as int)),
        decreases rest@.len(),
    {
        let ghost before = signatures_view(base.signatures@);
        let ghost old_rest = rest@;
        let o = rest.remove(0);
        assert(rest@ =~= old_rest.subrange(1, old_rest.len() as int));
        assert forall|q: int| 0 <= q < rest@.len() implies signatures_view(rest@)[q] == ov.skip(k + 1)[q] by {
            assert(signatures_view(old_rest)[q + 1] == ov.skip(k as int)[q + 1]);
        }
        assert(signatures_view(rest@) =~= ov.skip(k + 1));
        assert(ov[k as int] == signature_view(o)) by {
            assert(ov.skip(k as int)[0] == ov[k as int]);
        }
        assert(ov.take(k + 1).drop_last() =~= ov.take(k as int));
        let mut j: usize = 0;
        let mut found = false;
        while j < base.signatures.len()
            invariant_except_break
                before == signatures_view(base.signatures@),
                j <= base.signatures@.len(),
                !found,
                forall|q: int| 0 <= q < j ==> before[q].name != o.name@,
            ensures
                before == signatures_view(base.signatures@),
                j <= base.signatures@.len(),
                found ==> j < base.signatures@.len() && before[j as int].name == o.name@,
                !found ==> j == base.signatures@.len(),
                forall|q: int| 0 <= q < j ==> before[q].name != o.name@,
            decreases base.signatures@.len() - j,
        {
            if str_eq(base.signatures[j].name.as_str(), o.name.as_str()) {
                found = true;
                break;
            }
            j = j + 1;
        }
        if found {
            proof {
                lemma_first_named_found(before, o.name@, j as int);
            }
            let mut local = base.signatures.remove(j);
            let Signature { name, module, required, variants } = o;
            let mut vars = variants;
            let ghost ov_vars = vars@;
            let ghost local_vars = local.variants@;
            vars.append(&mut local.variants);
            local.variants = vars;
            assert(variants_view(local.variants@) =~= variants_view(ov_vars) + variants_view(local_vars));
            base.signatures.insert(j, local);
            assert(signatures_view(base.signatures@) =~= merge_one(before, ov[k as int]));
        } else {
            proof {
                lemma_first_named_absent(before, o.name@);
            }
            base.signatures.push(o);
            assert(signatures_view(base.signatures@) =~= merge_one(before, ov[k as int]));
        }
        k = k + 1;
    }
    assert(ov.take(k as int) =~= ov);
}

} // verus!

verus! {

/// The pattern matches the image at offset `k`: every byte whose mask is
/// not 0 is equal.
pub open spec fn matches_at(image: Seq<u8>, bytes: Seq<u8>, mask: Seq<u8>, k: int) -> bool {
    &&& 0 <= k
    &&& k + bytes.len() <= image.len()
    &&& forall|j: int| 0 <= j < bytes.len() ==> mask[j] == 0 || #[trigger] image[k + j] == bytes[j]
}

/// The result of scanning: the first matching offset, if any.
pub open spec fn is_first_match(
    image: Seq<u8>,
    bytes: Seq<u8>,
    mask: Seq<u8>,
    r: Option<int>,
) -> bool {
    match r {
        Some(k) => matches_at(image, bytes, mask, k) && forall|q: int|
            0 <= q < k ==> !matches_at(image, bytes, mask, q),
        None => forall|q: int| !matches_at(image, bytes, mask, q),
    }
}

/// Whether the pattern matches at `k`.
fn match_here(image: &[u8], bytes: &[u8], mask: &[u8], k: usize) -> (r: bool)
    requires
        bytes@.len() == mask@.len(),
        k + bytes@.len() <= image@.len(),
    ensures
        r == matches_at(image@, bytes@, mask@, k as int),
{
    let mut j: usize = 0;
    while j < bytes.len()
        invariant
            bytes@.len() == mask@.len(),
            k + bytes@.len() <= image@.len(),
            image@.len() == image.len(),
            j <= bytes@.len(),
            forall|q: int| 0 <= q < j ==> mask@[q] == 0 || #[trigger] image@[k + q] == bytes@[q],
        decreases bytes@.len() - j,
    {
        if mask[j] != 0 && image[k + j] != bytes[j] {
            return false;
        }
        j = j + 1;
    }
    true
}

/// The first offset in `image` where the masked pattern matches.
pub fn scan_image(image: &[u8], bytes: &[u8], mask: &[u8]) -> (r: Option<usize>)
    requires
        bytes@.len() == mask@.len(),
    ensures
        is_first_match(
            image@,
            bytes@,
            mask@,
            match r {
                Some(k) => Some(k as int),
                None => None,
            },
        ),
{
    if image.len() < bytes.len() {
        return None;
    }
    let last = image.len() - bytes.len();
    let mut k: usize = 0;
    while k < last
        invariant
            bytes@.len() == mask@.len(),
            last + bytes@.len() == image@.len(),
            k <= last,
            forall|q: int| 0 <= q < k ==> !matches_at(image@, bytes@, mask@, q),
        decreases last - k,
    {
        if match_here(image, bytes, mask, k) {
            return Some(k);
        }
        k = k + 1;
    }
    if match_here(image, bytes, mask, last) {
        return Some(last);
    }
    None
}

/// Module images, dumped once per base address and scanned many times.
pub struct ModuleCache {
    pub modules: HashMap<u64, Vec<u8>>,
}

impl ModuleCache {
    /// An empty cache.
    pub fn new() -> (c: Self)
        ensures
            c.modules@ == Map::<u64, Vec<u8>>::empty(),
    {
        ModuleCache { modules: HashMap::new() }
    }

    /// Whether the image of the module at `base` is cached.
    pub fn contains(&self, base: u64) -> (r: bool)
        ensures
            r == self.modules@.contains_key(base),
    {
        self.modules.contains_key(&base)
    }

    /// Whether the module at `base` has to be read from the game's memory
    /// before it can be scanned: only when its image is not cached yet.
    pub fn needs_dump(&self, base: u64) -> (r: bool)
        ensures
            r == !self.modules@.contains_key(base),
    {
        !self.modules.contains_key(&base)
    }

    /// Caches the image of the module at `base`.
    pub fn insert(&mut self, base: u64, image: Vec<u8>)
        ensures
            final(self).modules@ == old(self).modules@.insert(base, image),
    {
        self.modules.insert(base, image);
    }

    /// Scans the cached image of the module at `base` for a pattern, and
    /// gives the absolute address of the first match.
    pub fn scan(&self, pattern: &str, base_address: u64) -> (r: Option<u64>)
        requires
            self.modules@.contains_key(base_address),
            base_address + self.modules@[base_address]@.len() <= u64::MAX,
        ensures
            match spec_parse_pattern(pattern.spec_bytes()) {
                None => r is None,
                Some((b, m)) => {
                    let image = self.modules@[base_address]@;
                    exists|k: Option<int>| {
                        &&& is_first_match(image, b, m, k)
                        &&& r == match k {
                            Some(k) => Some((base_address + k) as u64),
                            None => None,
                        }
                    }
                },
            },
    {
        let module = match self.modules.get(&base_address) {
            Some(m) => m,
            None => {
                return None;
            },
        };
        let (bytes, mask) = match parse_pattern(pattern) {
            Some(p) => p,
            None => {
                return None;
            },
        };
        if module.len() < bytes.len() {
            assert(is_first_match(module@, bytes@, mask@, None));
            return None;
        }
        match scan_image(module.as_slice(), bytes.as_slice(), mask.as_slice()) {
            Some(offset) => {
                assert(is_first_match(module@, bytes@, mask@, Some(offset as int)));
                Some(base_address + offset as u64)
            },
            None => {
                assert(is_first_match(module@, bytes@, mask@, None));
                None
            },
        }
    }
}


/// Name of the game's client library.
pub const CLIENT_LIB: &'static str = "libclient.so";

/// Name of the game's schema system library.
pub const SCHEMA_LIB: &'static str = "libschemasystem.so";

/// A module is read from memory at most once per base. After the image read
/// for `base` is inserted, `needs_dump(base)` is false, so the module is not
/// read again; `scan` of `base` (which leaves the cache as it is) searches
/// that image; and caching another module afterwards keeps both so.
pub proof fn lemma_module_dumped_once(
    before: ModuleCache,
    after: ModuleCache,
    base: u64,
    image: Vec<u8>,
    later: ModuleCache,
    other: u64,
    other_image: Vec<u8>,
)
    requires
        after.modules@ == before.modules@.insert(base, image),
        later.modules@ == after.modules@.insert(other, other_image),
        other != base,
    ensures
        after.modules@.contains_key(base),
        after.modules@[base]@ == image@,
        later.modules@.contains_key(base),
        later.modules@[base]@ == image@,
{
}

/// Base addresses of the game's libraries.
#[derive(Debug, Clone, Copy, PartialEq, Eq, Structural)]
pub struct LibraryOffsets {
    pub client: u64,
    pub engine: u64,
    pub tier0: u64,
    pub input: u64,
    pub sdl: u64,
    pub schema: u64,
}

/// Base address of the library a signature is searched in: the client and
/// the schema system libraries are known, others are not.
pub open spec fn spec_module_base(libraries: LibraryOffsets, module: Seq<char>) -> Option<u64> {
    if module == CLIENT_LIB@ {
        Some(libraries.client)
    } else if module == SCHEMA_LIB@ {
        Some(libraries.schema)
    } else {
        None
    }
}

pub fn module_base(libraries: &LibraryOffsets, module: &str) -> (r: Option<u64>)
    ensures
        r == spec_module_base(*libraries, module@),
{
    if str_eq(module, CLIENT_LIB) {
        Some(libraries.client)
    } else if str_eq(module, SCHEMA_LIB) {
        Some(libraries.schema)
    } else {
        None
    }
}

/// Addresses of the globals found by signatures.
#[derive(Debug, Clone, Copy, PartialEq, Eq, Structural)]
pub struct DirectOffsets {
    pub local_player: u64,
    pub view_matrix: u64,
    pub global_vars: u64,
    /// Offset of the map name pointer in the global variables.
    pub global_vars_map_name: u64,
    pub planted_c4: u64,
    pub vphys_world: u64,
}

/// The resolved globals.
#[derive(Debug, Clone, Copy, PartialEq, Eq, Structural)]
pub struct Globals {
    pub direct: DirectOffsets,
    pub entity_system: u64,
    pub sensitivity: u64,
}

/// Globals with every address 0.
pub open spec fn zero_globals() -> Globals {
    Globals {
        direct: DirectOffsets {
            local_player: 0,
            view_matrix: 0,
            global_vars: 0,
            global_vars_map_name: 0,
            planted_c4: 0,
            vphys_world: 0,
        },
        entity_system: 0,
        sensitivity: 0,
    }
}

impl Default for Globals {
    fn default() -> (r: Self)
        ensures
            r == zero_globals(),
    {
        Globals {
            direct: DirectOffsets {
                local_player: 0,
                view_matrix: 0,
                global_vars: 0,
                global_vars_map_name: 0,
                planted_c4: 0,
                vphys_world: 0,
            },
            entity_system: 0,
            sensitivity: 0,
        }
    }
}

/// The outcome of resolution.
#[derive(Debug, Clone, Copy, PartialEq, Eq, Structural)]
pub struct Resolved {
    pub globals: Globals,
}

/// How a signature's address is found and checked.
#[derive(Debug, Clone, Copy, PartialEq, Eq, Structural)]
pub enum ResolveKind {
    /// Checked as a local player controller global; resolution fails without it.
    LocalPlayer,
    /// Checked as a view matrix; resolution fails without it.
    ViewMatrix,
    /// Taken as found; resolution fails without it.
    Required,
    /// Taken as found; 0 when no variant matches.
    Optional,
}

/// How the signature with this name and flag is resolved.
pub open spec fn spec_resolve_kind(name: Seq<char>, required: bool) -> ResolveKind {
    if name == "local_player"@ {
        ResolveKind::LocalPlayer
    } else if name == "view_matrix"@ {
        ResolveKind::ViewMatrix
    } else if required {
        ResolveKind::Required
    } else {
        ResolveKind::Optional
    }
}

pub fn resolve_kind(sig: &Signature) -> (r: ResolveKind)
    ensures
        r == spec_resolve_kind(sig.name@, sig.required),
{
    if str_eq(sig.name.as_str(), "local_player") {
        ResolveKind::LocalPlayer
    } else if str_eq(sig.name.as_str(), "view_matrix") {
        ResolveKind::ViewMatrix
    } else if sig.required {
        ResolveKind::Required
    } else {
        ResolveKind::Optional
    }
}

/// The globals after storing the address resolved for the signature `name`;
/// the global variables also fix where their map name pointer sits. Names the
/// globals do not hold change nothing.
pub open spec fn stored(g: Globals, name: Seq<char>, value: u64, map_name_offset: u64) -> Globals {
    if name == "local_player"@ {
        Globals { direct: DirectOffsets { local_player: value, ..g.direct }, ..g }
    } else if name == "view_matrix"@ {
        Globals { direct: DirectOffsets { view_matrix: value, ..g.direct }, ..g }
    } else if name == "global_vars"@ {
        Globals {
            direct: DirectOffsets {
                global_vars: value,
                global_vars_map_name: map_name_offset,
                ..g.direct
            },
            ..g
        }
    } else if name == "planted_c4"@ {
        Globals { direct: DirectOffsets { planted_c4: value, ..g.direct }, ..g }
    } else if name == "entity_system"@ {
        Globals { entity_system: value, ..g }
    } else if name == "vphys_world"@ {
        Globals { direct: DirectOffsets { vphys_world: value, ..g.direct }, ..g }
    } else if name == "sensitivity"@ {
        Globals { sensitivity: value, ..g }
    } else {
        g
    }
}

/// Stores the address resolved for a signature in the globals.
pub fn store_global(globals: &mut Globals, name: &str, value: u64, map_name_offset: u64)
    ensures
        *final(globals) == stored(*old(globals), name@, value, map_name_offset),
{
    if str_eq(name, "local_player") {
        globals.direct.local_player = value;
    } else if str_eq(name, "view_matrix") {
        globals.direct.view_matrix = value;
    } else if str_eq(name, "global_vars") {
        globals.direct.global_vars = value;
        globals.direct.global_vars_map_name = map_name_offset;
    } else if str_eq(name, "planted_c4") {
        globals.direct.planted_c4 = value;
    } else if str_eq(name, "entity_system") {
        globals.entity_system = value;
    } else if str_eq(name, "vphys_world") {
        globals.direct.vphys_world = value;
    } else if str_eq(name, "sensitivity") {
        globals.sensitivity = value;
    }
}

/// Storing a resolved address under a name the globals hold makes that
/// global the address, whatever the globals held before: the local player,
/// view matrix, global variables (with their map name offset), planted C4,
/// entity system, physics world and sensitivity.
pub proof fn lemma_store_sets_named_global(g: Globals, value: u64, map_name_offset: u64)
    ensures
        stored(g, "local_player"@, value, map_name_offset).direct.local_player == value,
        stored(g, "view_matrix"@, value, map_name_offset).direct.view_matrix == value,
        stored(g, "global_vars"@, value, map_name_offset).direct.global_vars == value,
        stored(g, "global_vars"@, value, map_name_offset).direct.global_vars_map_name == map_name_offset,
        stored(g, "planted_c4"@, value, map_name_offset).direct.planted_c4 == value,
        stored(g, "entity_system"@, value, map_name_offset).entity_system == value,
        stored(g, "vphys_world"@, value, map_name_offset).direct.vphys_world == value,
        stored(g, "sensitivity"@, value, map_name_offset).sensitivity == value,
{
    reveal_strlit("local_player");
    reveal_strlit("view_matrix");
    reveal_strlit("global_vars");
    reveal_strlit("planted_c4");
    reveal_strlit("entity_system");
    reveal_strlit("vphys_world");
    reveal_strlit("sensitivity");
    assert("local_player"@.len() == 12);
    assert("view_matrix"@.len() == 11);
    assert("global_vars"@.len() == 11);
    assert("planted_c4"@.len() == 10);
    assert("entity_system"@.len() == 13);
    assert("vphys_world"@.len() == 11);
    assert("sensitivity"@.len() == 11);
    assert("view_matrix"@[0] != "global_vars"@[0]);
    assert("view_matrix"@[1] != "vphys_world"@[1]);
    assert("view_matrix"@[0] != "sensitivity"@[0]);
    assert("global_vars"@[0] != "vphys_world"@[0]);
    assert("global_vars"@[0] != "sensitivity"@[0]);
    assert("vphys_world"@[0] != "sensitivity"@[0]);
}

/// The globals resolved from the signatures `sigs[i..]`, given what each
/// signature's variants resolved to (`None` when none did): the schema
/// system signature is skipped; a signature in an unknown library fails the
/// resolution, and so does a failed one unless it is optional, which gives 0.
pub open spec fn resolve_from(
    sigs: Seq<SignatureModel>,
    libraries: LibraryOffsets,
    outcomes: Seq<Option<u64>>,
    map_name_offset: u64,
    i: int,
    g: Globals,
) -> Option<Globals>
    decreases sigs.len() - i,
{
    if i < 0 || i >= sigs.len() {
        Some(g)
    } else if sigs[i].name == "schema_system"@ {
        resolve_from(sigs, libraries, outcomes, map_name_offset, i + 1, g)
    } else if spec_module_base(libraries, sigs[i].module) is None {
        None
    } else {
        match outcomes[i] {
            Some(v) => resolve_from(
                sigs,
                libraries,
                outcomes,
                map_name_offset,
                i + 1,
                stored(g, sigs[i].name, v, map_name_offset),
            ),
            None => if spec_resolve_kind(sigs[i].name, sigs[i].required) == ResolveKind::Optional {
                resolve_from(
                    sigs,
                    libraries,
                    outcomes,
                    map_name_offset,
                    i + 1,
                    stored(g, sigs[i].name, 0, map_name_offset),
                )
            } else {
                None
            },
        }
    }
}

/// The resolution: it needs the schema system signature, in a known library
/// and resolved; then every other signature is resolved in manifest order.
pub open spec fn spec_resolve(
    sigs: Seq<SignatureModel>,
    libraries: LibraryOffsets,
    outcomes: Seq<Option<u64>>,
    map_name_offset: u64,
) -> Option<Globals> {
    match first_named(sigs, "schema_system"@) {
        None => None,
        Some(i) => if spec_module_base(libraries, sigs[i].module) is None || outcomes[i] is None {
            None
        } else {
            resolve_from(sigs, libraries, outcomes, map_name_offset, 0, zero_globals())
        },
    }
}

proof fn lemma_first_named_bounds(sigs: Seq<SignatureModel>, name: Seq<char>)
    ensures
        match first_named(sigs, name) {
            Some(i) => 0 <= i < sigs.len() && sigs[i].name == name && forall|k: int|
                0 <= k < i ==> sigs[k].name != name,
            None => forall|k: int| 0 <= k < sigs.len() ==> sigs[k].name != name,
        },
    decreases sigs.len(),
{
    if sigs.len() > 0 {
        lemma_first_named_bounds(sigs.drop_first(), name);
        if sigs[0].name != name {
            assert forall|k: int| 1 <= k < sigs.len() implies sigs[k].name == sigs.drop_first()[k
                - 1].name by {}
        }
    }
}

/// Resolves the globals from what each signature of the manifest resolved to
/// (`outcomes[i]` for `signatures[i]`, `None` when no variant matched or its
/// check failed) and the map name offset found for the global variables.
pub fn resolve(
    manifest: &Manifest,
    libraries: &LibraryOffsets,
    outcomes: &Vec<Option<u64>>,
    map_name_offset: u64,
) -> (r: Option<Resolved>)
    requires
        outcomes@.len() == manifest.signatures@.len(),
    ensures
        match spec_resolve(
            signatures_view(manifest.signatures@),
            *libraries,
            outcomes@,
            map_name_offset,
        ) {
            Some(g) => r == Some(Resolved { globals: g }),
            None => r is None,
        },
{
    let ghost sigs = signatures_view(manifest.signatures@);
    proof {
        lemma_first_named_bounds(sigs, "schema_system"@);
    }
    let mut found: Option<usize> = None;
    let mut k: usize = 0;
    while k < manifest.signatures.len()
        invariant
            sigs == signatures_view(manifest.signatures@),
            k <= sigs.len(),
            found is None ==> forall|q: int| 0 <= q < k ==> sigs[q].name != "schema_system"@,
            found matches Some(j) ==> first_named(sigs, "schema_system"@) == Some(j as int),
        decreases sigs.len() - k,
    {
        if found.is_none() && str_eq(manifest.signatures[k].name.as_str(), "schema_system") {
            proof {
                lemma_first_named_found(sigs, "schema_system"@, k as int);
            }
            found = Some(k);
        }
        k += 1;
    }
    let j = match found {
        None => {
            proof {
                lemma_first_named_absent(sigs, "schema_system"@);
            }
            return None;
        },
        Some(j) => j,
    };
    if module_base(libraries, manifest.signatures[j].module.as_str()).is_none() || outcomes[j].is_none() {
        return None;
    }
    let mut globals = Globals::default();
    let mut i: usize = 0;
    while i < manifest.signatures.len()
        invariant
            sigs == signatures_view(manifest.signatures@),
            outcomes@.len() == sigs.len(),
            i <= sigs.len(),
            resolve_from(sigs, *libraries, outcomes@, map_name_offset, i as int, globals)
                == resolve_from(sigs, *libraries, outcomes@, map_name_offset, 0, zero_globals()),
        decreases sigs.len() - i,
    {
        let sig = &manifest.signatures[i];
        if str_eq(sig.name.as_str(), "schema_system") {
            i += 1;
            continue;
        }
        if module_base(libraries, sig.module.as_str()).is_none() {
            return None;
        }
        let value = match outcomes[i] {
            Some(v) => v,
            None => {
                match resolve_kind(sig) {
                    ResolveKind::Optional => 0,
                    _ => {
                        return None;
                    },
                }
            },
        };
        store_global(&mut globals, sig.name.as_str(), value, map_name_offset);
        i += 1;
    }
    Some(Resolved { globals })
}

/// `256^n`.
pub open spec fn pow256(n: nat) -> nat
    decreases n,
{
    if n == 0 {
        1
    } else {
        256 * pow256((n - 1) as nat)
    }
}

/// The little-endian value of a byte sequence.
pub open spec fn le_value(b: Seq<u8>) -> nat
    decreases b.len(),
{
    if b.len() == 0 {
        0
    } else {
        le_value(b.drop_last()) + b.last() as nat * pow256((b.len() - 1) as nat)
    }
}

proof fn lemma_le_value_bound(b: Seq<u8>)
    ensures
        le_value(b) < pow256(b.len()),
    decreases b.len(),
{
    if b.len() > 0 {
        lemma_le_value_bound(b.drop_last());
        let p = pow256((b.len() - 1) as nat);
        let l = b.last() as nat;
        assert(l * p <= 255 * p) by (nonlinear_arith)
            requires
                l <= 255,
        ;
    }
}

/// The little-endian value of up to eight bytes.
pub fn le_bytes_value(b: &[u8]) -> (r: u64)
    requires
        b@.len() <= 8,
    ensures
        r == le_value(b@),
{
    let mut value: u64 = 0;
    let mut scale: u64 = 1;
    let mut i: usize = 0;
    while i < b.len()
        invariant
            b@.len() <= 8,
            i <= b@.len(),
            value == le_value(b@.take(i as int)),
            i < 8 ==> scale == pow256(i as nat),
        decreases b@.len() - i,
    {
        proof {
            lemma_le_value_bound(b@.take(i + 1));
            assert(b@.take(i + 1).drop_last() =~= b@.take(i as int));
            assert(pow256(8) == 0x1_0000_0000_0000_0000) by {
                reveal_with_fuel(pow256, 9);
            }
            lemma_pow256_mono((i + 1) as nat, 8);
        }
        value = value + (b[i] as u64) * scale;
        if i + 1 < 8 {
            proof {
                lemma_pow256_mono((i + 2) as nat, 8);
            }
            scale = scale * 256;
        }
        i = i + 1;
    }
    assert(b@.take(i as int) =~= b@);
    value
}

proof fn lemma_pow256_mono(a: nat, b: nat)
    requires
        a <= b,
    ensures
        pow256(a) <= pow256(b),
    decreases b,
{
    if a < b {
        lemma_pow256_mono(a, (b - 1) as nat);
    }
}

/// The memory an operation needs: the address to read from and how many
/// bytes; `None` for an operation that reads nothing.
pub open spec fn spec_op_read(addr: u64, op: Operation) -> Option<(u64, nat)> {
    match op {
        Operation::Rip { offset, len } => Some(((addr + offset) as u64, 4)),
        Operation::Add { .. } => None,
        Operation::Slice { start, end } => Some(((addr + start) as u64, (end - start) as nat)),
        Operation::Read => Some((addr, 8)),
    }
}

/// An operation can be applied at `addr` without overflow: the read
/// address fits in 64 bits, and a slice is ordered and at most 8 bytes.
pub open spec fn op_applicable(addr: u64, op: Operation) -> bool {
    match op {
        Operation::Rip { offset, .. } => addr + offset <= u64::MAX,
        Operation::Add { .. } => true,
        Operation::Slice { start, end } => start <= end && end - start <= 8 && addr + start
            <= u64::MAX,
        Operation::Read => true,
    }
}

/// The read an operation needs before it can be applied.
pub fn op_read(addr: u64, op: Operation) -> (r: Option<(u64, usize)>)
    requires
        op_applicable(addr, op),
    ensures
        match spec_op_read(addr, op) {
            Some((a, n)) => r == Some((a, n as usize)),
            None => r is None,
        },
{
    match op {
        Operation::Rip { offset, len: _ } => Some((addr + offset as u64, 4)),
        Operation::Add { .. } => None,
        Operation::Slice { start, end } => Some((addr + start as u64, (end - start) as usize)),
        Operation::Read => Some((addr, 8)),
    }
}

/// What an operation makes of the address, given the bytes it read: a RIP
/// operand resolves to the address plus the signed 32-bit displacement
/// plus the instruction length, an addition wraps, a slice or a read is
/// the little-endian value of the bytes.
pub open spec fn spec_apply_op(addr: u64, op: Operation, read: Seq<u8>) -> u64 {
    match op {
        Operation::Rip { len, .. } => ((addr as int + (le_u32(read, 0) as i32) as int + len as int)
            % 0x1_0000_0000_0000_0000) as u64,
        Operation::Add { value } => ((addr as int + value as int) % 0x1_0000_0000_0000_0000) as u64,
        Operation::Slice { .. } => le_value(read) as u64,
        Operation::Read => le_value(read) as u64,
    }
}

/// Applies one operation to the address.
pub fn apply_op(addr: u64, op: Operation, read: &[u8]) -> (r: u64)
    requires
        op_applicable(addr, op),
        match spec_op_read(addr, op) {
            Some((_, n)) => read@.len() == n,
            None => true,
        },
    ensures
        r == spec_apply_op(addr, op, read@),
{
    match op {
        Operation::Rip { offset: _, len } => {
            let disp = crate::le::read_u32_le(read, 0) as i32;
            let r = addr.wrapping_add_signed(disp as i64).wrapping_add(len as u64);
            r
        },
        Operation::Add { value } => addr.wrapping_add(value),
        Operation::Slice { .. } => le_bytes_value(read),
        Operation::Read => le_bytes_value(read),
    }
}

/// Whether an operation can be applied at `addr` (see `op_applicable`).
pub fn check_op(addr: u64, op: Operation) -> (r: bool)
    ensures
        r == op_applicable(addr, op),
{
    match op {
        Operation::Rip { offset, .. } => addr <= u64::MAX - offset as u64,
        Operation::Add { .. } => true,
        Operation::Slice { start, end } => start <= end && end - start <= 8 && addr <= u64::MAX
            - start as u64,
        Operation::Read => true,
    }
}

/// Any address passes.
pub fn always_valid(_addr: u64) -> (r: bool)
    ensures
        r,
{
    true
}

/// A player name as the game stores it: shorter than 64 bytes and made of
/// printable ASCII (spaces included).
pub open spec fn plausible_name(b: Seq<u8>) -> bool {
    b.len() < 64 && forall|k: int| 0 <= k < b.len() ==> 0x20 <= #[trigger] b[k] <= 0x7E
}

/// Whether a candidate local-player global is believable: a null
/// controller, a null name pointer or an empty name cannot be judged and
/// pass; otherwise the name must be plausible. `name_ptr` is only looked at
/// for a non-null controller, `name` only for a non-null name pointer.
pub fn validate_local_player(controller: u64, name_ptr: u64, name: &str) -> (r: bool)
    ensures
        r == (controller == 0 || name_ptr == 0 || name@.len() == 0 || plausible_name(
            name.spec_bytes(),
        )),
{
    if controller == 0 {
        return true;
    }
    if name_ptr == 0 {
        return true;
    }
    if name.is_empty() {
        return true;
    }
    let b = name.as_bytes();
    if b.len() >= 64 {
        return false;
    }
    let mut k: usize = 0;
    while k < b.len()
        invariant
            controller != 0 && name_ptr != 0 && name@.len() != 0,
            b@ == name.spec_bytes(),
            b@.len() < 64,
            k <= b@.len(),
            forall|q: int| 0 <= q < k ==> 0x20 <= #[trigger] b@[q] <= 0x7E,
        decreases b@.len() - k,
    {
        if b[k] < 0x20 || b[k] > 0x7E {
            assert(!(0x20 <= b@[k as int] <= 0x7E));
            return false;
        }
        k = k + 1;
    }
    true
}

/// A map name: starts with `de_`, `cs_` or `ar_`.
pub open spec fn is_map_name(b: Seq<u8>) -> bool {
    crate::text::has_prefix(b, seq![100u8, 101u8, 95u8]) || crate::text::has_prefix(
        b,
        seq![99u8, 115u8, 95u8],
    ) || crate::text::has_prefix(b, seq![97u8, 114u8, 95u8])
}

/// Whether a string names a map.
pub fn map_name_prefix(name: &str) -> (r: bool)
    ensures
        r == is_map_name(name.spec_bytes()),
{
    let b = name.as_bytes();
    let r = b.len() >= 3 && b[2] == 95 && ((b[0] == 100 && b[1] == 101) || (b[0] == 99 && b[1]
        == 115) || (b[0] == 97 && b[1] == 114));
    proof {
        if b@.len() >= 3 {
            assert(b@.subrange(0, 3) =~= seq![b@[0], b@[1], b@[2]]);
        }
    }
    r
}

/// The two places the map name pointer may sit in the global variables.
pub const MAP_NAME_OFFSETS: [u64; 2] = [0x1C8, 0x198];

/// Where the map name pointer sits in the global variables: the first
/// candidate whose name is a map name, else the first candidate. A null
/// global-variables pointer gives the first candidate. `first` and
/// `second` are the names read at each candidate, `None` for a null name
/// pointer.
pub fn detect_map_name_offset(global_vars: u64, first: Option<&str>, second: Option<&str>) -> (r:
    u64)
    ensures
        r == if global_vars != 0 && !(first matches Some(n) && is_map_name(n.spec_bytes()))
            && (second matches Some(n) && is_map_name(n.spec_bytes())) {
            0x198u64
        } else {
            0x1C8u64
        },
{
    if global_vars == 0 {
        return 0x1C8;
    }
    if let Some(n) = first {
        if map_name_prefix(n) {
            return 0x1C8;
        }
    }
    if let Some(n) = second {
        if map_name_prefix(n) {
            return 0x198;
        }
    }
    0x1C8
}

} // verus!

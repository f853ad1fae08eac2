//! Keeping KWin compositing under the overlay. Its configuration file is
//! patched so that full-screen windows do not block compositing: every
//! `[Compositing]` section gets `WindowsBlockCompositing=false`, and the
//! section is added when the file has none. KWin is asked from time to time
//! whether it composites, and the overlay is shown only while it does.

use vstd::prelude::*;
use crate::text::{
    lemma_skip_ws_bounds, lemma_trim_end_bounds, skip_ws, trim_end_at, ws_before, ws_len,
    byte_strings, bytes_contains, bytes_occur_at, contains_bytes, has_prefix, occurs_at, spec_split, spec_trim, split_on, trim_bounds,
};

verus! {

/// The bytes of `WindowsBlockCompositing=false`.
pub open spec fn key_line() -> Seq<u8> {
    seq![
        87u8, 105u8, 110u8, 100u8, 111u8, 119u8, 115u8, 66u8, 108u8, 111u8, 99u8, 107u8, 67u8, 111u8,
        109u8, 112u8, 111u8, 115u8, 105u8, 116u8, 105u8, 110u8, 103u8, 61u8, 102u8, 97u8, 108u8,
        115u8, 101u8,
    ]
}

/// The bytes of `WindowsBlockCompositing=`.
pub open spec fn key_prefix() -> Seq<u8> {
    key_line().subrange(0, 24)
}

/// The bytes of `[Compositing]`.
pub open spec fn section_line() -> Seq<u8> {
    seq![91u8, 67u8, 111u8, 109u8, 112u8, 111u8, 115u8, 105u8, 116u8, 105u8, 110u8, 103u8, 93u8]
}

/// A line without the `\r` that ends it, if one does.
pub open spec fn strip_cr(l: Seq<u8>) -> Seq<u8> {
    if l.len() > 0 && l.last() == 13 {
        l.drop_last()
    } else {
        l
    }
}

/// The lines of a text as `str::lines` yields them: split at each `\n`, with
/// the `\r` of a `\r\n` dropped, and no empty line after a final `\n`.
pub open spec fn spec_text_lines(b: Seq<u8>) -> Seq<Seq<u8>> {
    let p = spec_split(b, 10);
    let n = if p.last().len() == 0 {
        p.len() - 1
    } else {
        p.len() as int
    };
    Seq::new(
        n as nat,
        |i: int|
            if i < p.len() - 1 {
                strip_cr(p[i])
            } else {
                p[i]
            },
    )
}

/// Whether a trimmed line opens a section: `[` first and `]` last.
pub open spec fn is_section(t: Seq<u8>) -> bool {
    t.len() > 0 && t[0] == 91 && t.last() == 93
}

/// What the patch knows after some lines: the lines it wrote, whether it
/// changed anything, whether it is inside a `[Compositing]` section, whether
/// it met one, and whether the current one has the key.
pub type PatchState = (Seq<Seq<u8>>, bool, bool, bool, bool);

/// One line of the patch. A section header first closes a `[Compositing]`
/// section without the key by adding it. Inside such a section, a key line
/// with another value is replaced. Every other line is kept.
pub open spec fn patch_step(s: PatchState, line: Seq<u8>) -> PatchState {
    let (out, changed, in_comp, saw_section, saw_key) = s;
    let t = spec_trim(line);
    if is_section(t) {
        let close = in_comp && !saw_key;
        let out1 = if close {
            out.push(key_line())
        } else {
            out
        };
        let entering = t == section_line();
        (
            out1.push(line),
            changed || close,
            entering,
            saw_section || entering,
            if entering {
                false
            } else {
                saw_key
            },
        )
    } else if in_comp && has_prefix(t, key_prefix()) {
        if t != key_line() {
            (out.push(key_line()), true, in_comp, saw_section, true)
        } else {
            (out.push(line), changed, in_comp, saw_section, true)
        }
    } else {
        (out.push(line), changed, in_comp, saw_section, saw_key)
    }
}

/// The patch run over lines.
pub open spec fn patch_lines(lines: Seq<Seq<u8>>) -> PatchState
    decreases lines.len(),
{
    if lines.len() == 0 {
        (Seq::empty(), false, false, false, false)
    } else {
        patch_step(patch_lines(lines.drop_last()), lines.last())
    }
}

/// The end of the patch: a last `[Compositing]` section without the key gets
/// it; a file without the section gets one, after an empty line.
pub open spec fn patch_finish(s: PatchState) -> (Seq<Seq<u8>>, bool) {
    let (out, changed, in_comp, saw_section, saw_key) = s;
    if !saw_section {
        let out1 = if out.len() > 0 && out.last().len() == 0 {
            out
        } else {
            out.push(Seq::empty())
        };
        (out1.push(section_line()).push(key_line()), true)
    } else if in_comp && !saw_key {
        (out.push(key_line()), true)
    } else {
        (out, changed)
    }
}

/// Lines joined with `\n` between them.
pub open spec fn join_lines(ls: Seq<Seq<u8>>) -> Seq<u8>
    decreases ls.len(),
{
    if ls.len() == 0 {
        Seq::empty()
    } else if ls.len() == 1 {
        ls[0]
    } else {
        join_lines(ls.drop_last()) + seq![10u8] + ls.last()
    }
}

/// The patched file, or `None` when it needs no change.
pub open spec fn spec_patch_kwinrc(content: Seq<u8>) -> Option<Seq<u8>> {
    let (out, changed) = patch_finish(patch_lines(spec_text_lines(content)));
    if changed {
        Some(join_lines(out).push(10))
    } else {
        None
    }
}

proof fn lemma_split_nonempty(b: Seq<u8>, sep: u8)
    ensures
        spec_split(b, sep).len() >= 1,
    decreases b.len(),
{
    if b.len() > 0 {
        lemma_split_nonempty(b.drop_last(), sep);
    }
}

fn copy_bytes(b: &[u8], lo: usize, hi: usize) -> (r: Vec<u8>)
    requires
        lo <= hi <= b@.len(),
    ensures
        r@ == b@.subrange(lo as int, hi as int),
{
    let mut r: Vec<u8> = Vec::new();
    let mut i: usize = lo;
    while i < hi
        invariant
            lo <= i <= hi <= b@.len(),
            r@ == b@.subrange(lo as int, i as int),
        decreases hi - i,
    {
        r.push(b[i]);
        i += 1;
        assert(r@ =~= b@.subrange(lo as int, i as int));
    }
    r
}

/// Splits text into lines as `str::lines` does.
pub fn text_lines(b: &[u8]) -> (r: Vec<Vec<u8>>)
    ensures
        byte_strings(r@) == spec_text_lines(b@),
{
    let parts = split_on(b, 10);
    let ghost p = spec_split(b@, 10);
    proof {
        lemma_split_nonempty(b@, 10);
        assert(parts@.len() == p.len());
    }
    let n: usize = parts.len();
    assert(parts@[n - 1]@ == p.last());
    let count: usize = if parts[n - 1].len() == 0 {
        n - 1
    } else {
        n
    };
    let mut out: Vec<Vec<u8>> = Vec::new();
    let mut i: usize = 0;
    while i < count
        invariant
            byte_strings(parts@) == p,
            p.len() == n >= 1,
            count <= n,
            count == (if p.last().len() == 0 {
                n - 1
            } else {
                n as int
            }),
            i <= count,
            out@.len() == i,
            forall|j: int| 0 <= j < i ==> (#[trigger] out@[j])@ == (if j < n - 1 {
                strip_cr(p[j])
            } else {
                p[j]
            }),
        decreases count - i,
    {
        let part = &parts[i];
        assert(part@ == p[i as int]);
        let len = part.len();
        let end: usize = if i < n - 1 && len > 0 && part[len - 1] == 13 {
            len - 1
        } else {
            len
        };
        let line = copy_bytes(part.as_slice(), 0, end);
        proof {
            if i < n - 1 && len > 0 && part@[len - 1] == 13 {
                assert(line@ =~= strip_cr(p[i as int]));
            } else {
                assert(line@ =~= p[i as int]);
            }
        }
        out.push(line);
        i += 1;
    }
    assert(byte_strings(out@) =~= spec_text_lines(b@));
    out
}

/// Patches the text of `kwinrc` (see `patch_step` and `patch_finish`);
/// `None` when it already blocks nothing.
pub fn patch_kwinrc(content: &[u8]) -> (r: Option<Vec<u8>>)
    ensures
        match r {
            Some(v) => spec_patch_kwinrc(content@) == Some(v@),
            None => spec_patch_kwinrc(content@) is None,
        },
{
    let key: [u8; 29] = [
        87, 105, 110, 100, 111, 119, 115, 66, 108, 111, 99, 107, 67, 111, 109, 112, 111, 115, 105,
        116, 105, 110, 103, 61, 102, 97, 108, 115, 101,
    ];
    let section: [u8; 13] = [91, 67, 111, 109, 112, 111, 115, 105, 116, 105, 110, 103, 93];
    let prefix: [u8; 24] = [
        87, 105, 110, 100, 111, 119, 115, 66, 108, 111, 99, 107, 67, 111, 109, 112, 111, 115, 105,
        116, 105, 110, 103, 61,
    ];
    assert(key@ =~= key_line());
    assert(prefix@ =~= key_prefix());
    assert(section@ =~= section_line());
    let lines = text_lines(content);
    let ghost ls = spec_text_lines(content@);
    let mut out: Vec<Vec<u8>> = Vec::new();
    let mut changed = false;
    let mut in_comp = false;
    let mut saw_section = false;
    let mut saw_key = false;
    let mut k: usize = 0;
    assert(ls.subrange(0, 0) =~= Seq::<Seq<u8>>::empty());
    while k < lines.len()
        invariant
            key@ == key_line(),
            prefix@ == key_prefix(),
            section@ == section_line(),
            byte_strings(lines@) == ls,
            k <= lines@.len(),
            (byte_strings(out@), changed, in_comp, saw_section, saw_key) == patch_lines(ls.subrange(0, k as int)),
        decreases lines@.len() - k,
    {
        assert(ls.subrange(0, k + 1).drop_last() =~= ls.subrange(0, k as int));
        let line = &lines[k];
        assert(line@ == ls[k as int]);
        let (lo, hi) = trim_bounds(line.as_slice());
        let ghost t = spec_trim(line@);
        assert(t == line@.subrange(lo as int, hi as int));
        let ghost before = byte_strings(out@);
        if hi > lo && line[lo] == 91 && line[hi - 1] == 93 {
            assert(is_section(t));
            if in_comp && !saw_key {
                out.push(copy_bytes(&key, 0, 29));
                changed = true;
                assert(key@.subrange(0, 29) =~= key@);
                assert(byte_strings(out@) =~= before.push(key_line()));
            }
            let ghost mid = byte_strings(out@);
            in_comp = hi - lo == 13 && bytes_occur_at(line.as_slice(), &section, lo);
            proof {
                if t == section_line() {
                    assert(line@.subrange(lo as int, lo + 13) =~= t);
                } else if hi - lo == 13 && occurs_at(line@, section@, lo as int) {
                    assert(t =~= section_line());
                }
            }
            if in_comp {
                saw_section = true;
                saw_key = false;
            }
            out.push(copy_bytes(line.as_slice(), 0, line.len()));
            assert(line@.subrange(0, line@.len() as int) =~= line@);
            assert(byte_strings(out@) =~= mid.push(line@));
        } else {
            assert(!is_section(t));
            let keyed = in_comp && hi - lo >= 24 && bytes_occur_at(line.as_slice(), &prefix, lo);
            proof {
                if in_comp {
                    if has_prefix(t, key_prefix()) {
                        assert(t.subrange(0, 24) =~= line@.subrange(lo as int, lo + 24));
                    } else if hi - lo >= 24 && occurs_at(line@, prefix@, lo as int) {
                        assert(t.subrange(0, 24) =~= line@.subrange(lo as int, lo + 24));
                    }
                }
            }
            assert(line@.subrange(0, line@.len() as int) =~= line@);
            assert(key@.subrange(0, 29) =~= key@);
            if keyed {
                saw_key = true;
                let exact = hi - lo == 29 && bytes_occur_at(line.as_slice(), &key, lo);
                proof {
                    if t == key_line() {
                        assert(line@.subrange(lo as int, lo + 29) =~= t);
                    } else if hi - lo == 29 && occurs_at(line@, key@, lo as int) {
                        assert(t =~= key_line());
                    }
                }
                if !exact {
                    out.push(copy_bytes(&key, 0, 29));
                    changed = true;
                    assert(byte_strings(out@) =~= before.push(key_line()));
                } else {
                    out.push(copy_bytes(line.as_slice(), 0, line.len()));
                    assert(byte_strings(out@) =~= before.push(line@));
                }
            } else {
                out.push(copy_bytes(line.as_slice(), 0, line.len()));
                assert(byte_strings(out@) =~= before.push(line@));
            }
        }
        k += 1;
    }
    assert(ls.subrange(0, k as int) =~= ls);
    let ghost state = byte_strings(out@);
    if !saw_section {
        let blank = out.len() > 0 && out[out.len() - 1].len() == 0;
        if !blank {
            out.push(Vec::new());
            assert(byte_strings(out@) =~= state.push(Seq::empty()));
        }
        let ghost mid = byte_strings(out@);
        out.push(copy_bytes(&section, 0, 13));
        out.push(copy_bytes(&key, 0, 29));
        assert(section@.subrange(0, 13) =~= section@);
        assert(key@.subrange(0, 29) =~= key@);
        assert(byte_strings(out@) =~= mid.push(section_line()).push(key_line()));
        changed = true;
    } else if in_comp && !saw_key {
        out.push(copy_bytes(&key, 0, 29));
        assert(key@.subrange(0, 29) =~= key@);
        assert(byte_strings(out@) =~= state.push(key_line()));
        changed = true;
    }
    if !changed {
        return None;
    }
    let ghost ols = byte_strings(out@);
    let mut text: Vec<u8> = Vec::new();
    let mut i: usize = 0;
    while i < out.len()
        invariant
            byte_strings(out@) == ols,
            i <= out@.len(),
            text@ == join_lines(ols.subrange(0, i as int)),
        decreases out@.len() - i,
    {
        assert(ols.subrange(0, i + 1).drop_last() =~= ols.subrange(0, i as int));
        let ghost prev = text@;
        if i > 0 {
            text.push(10);
        }
        let line = &out[i];
        assert(line@ == ols[i as int]);
        let mut j: usize = 0;
        while j < line.len()
            invariant
                j <= line@.len(),
                text@ == (if i > 0 {
                    prev.push(10)
                } else {
                    prev
                }) + line@.subrange(0, j as int),
            decreases line@.len() - j,
        {
            text.push(line[j]);
            j += 1;
            assert(text@ =~= (if i > 0 {
                prev.push(10)
            } else {
                prev
            }) + line@.subrange(0, j as int));
        }
        proof {
            assert(line@.subrange(0, line@.len() as int) =~= line@);
            if i == 0 {
                assert(ols.subrange(0, 1) =~= seq![ols[0]]);
                assert(prev =~= Seq::<u8>::empty());
                assert(text@ =~= line@);
            } else {
                assert(text@ =~= prev + seq![10u8] + line@);
            }
        }
        i += 1;
    }
    assert(ols.subrange(0, i as int) =~= ols);
    text.push(10);
    Some(text)
}


/// A byte with ASCII upper case letters made lower case.
pub open spec fn ascii_lower(b: u8) -> u8 {
    if 65 <= b <= 90 {
        (b + 32) as u8
    } else {
        b
    }
}

/// Whether the desktop session is KDE's: the desktop name (the bytes of
/// `XDG_CURRENT_DESKTOP`) holds `kde` or `plasma` in any case, or
/// `KDE_FULL_SESSION` or `KDE_SESSION_VERSION` is set.
pub open spec fn spec_is_kde_session(desktop: Seq<u8>, full_session: bool, session_version: bool) -> bool {
    let lower = desktop.map_values(|b: u8| ascii_lower(b));
    contains_bytes(lower, seq![107u8, 100u8, 101u8]) || contains_bytes(
        lower,
        seq![112u8, 108u8, 97u8, 115u8, 109u8, 97u8],
    ) || full_session || session_version
}

pub fn is_kde_session(desktop: &[u8], full_session: bool, session_version: bool) -> (r: bool)
    ensures
        r == spec_is_kde_session(desktop@, full_session, session_version),
{
    let mut lower: Vec<u8> = Vec::new();
    let mut i: usize = 0;
    while i < desktop.len()
        invariant
            i <= desktop@.len(),
            lower@ == desktop@.subrange(0, i as int).map_values(|b: u8| ascii_lower(b)),
        decreases desktop@.len() - i,
    {
        let b = desktop[i];
        lower.push(if 65 <= b && b <= 90 {
            b + 32
        } else {
            b
        });
        i += 1;
        assert(lower@ =~= desktop@.subrange(0, i as int).map_values(|b: u8| ascii_lower(b)));
    }
    assert(desktop@.subrange(0, i as int) =~= desktop@);
    let kde: [u8; 3] = [107, 100, 101];
    let plasma: [u8; 6] = [112, 108, 97, 115, 109, 97];
    assert(kde@ =~= seq![107u8, 100u8, 101u8]);
    assert(plasma@ =~= seq![112u8, 108u8, 97u8, 115u8, 109u8, 97u8]);
    bytes_contains(lower.as_slice(), &kde) || bytes_contains(lower.as_slice(), &plasma) || full_session
        || session_version
}


/// Reads KWin's answer to the question whether it composites (the output of
/// `dbus-send --print-reply`): `boolean true` or `boolean false`, or `None`
/// when it holds neither.
pub open spec fn spec_compositing_reply(out: Seq<u8>) -> Option<bool> {
    if contains_bytes(out, seq![98u8, 111u8, 111u8, 108u8, 101u8, 97u8, 110u8, 32u8, 116u8, 114u8, 117u8, 101u8]) {
        Some(true)
    } else if contains_bytes(
        out,
        seq![98u8, 111u8, 111u8, 108u8, 101u8, 97u8, 110u8, 32u8, 102u8, 97u8, 108u8, 115u8, 101u8],
    ) {
        Some(false)
    } else {
        None
    }
}

pub fn compositing_reply(out: &[u8]) -> (r: Option<bool>)
    ensures
        r == spec_compositing_reply(out@),
{
    let yes: [u8; 12] = [98, 111, 111, 108, 101, 97, 110, 32, 116, 114, 117, 101];
    let no: [u8; 13] = [98, 111, 111, 108, 101, 97, 110, 32, 102, 97, 108, 115, 101];
    assert(yes@ =~= seq![98u8, 111u8, 111u8, 108u8, 101u8, 97u8, 110u8, 32u8, 116u8, 114u8, 117u8, 101u8]);
    assert(no@ =~= seq![98u8, 111u8, 111u8, 108u8, 101u8, 97u8, 110u8, 32u8, 102u8, 97u8, 108u8, 115u8, 101u8]);
    if bytes_contains(out, &yes) {
        Some(true)
    } else if bytes_contains(out, &no) {
        Some(false)
    } else {
        None
    }
}

/// How often KWin is asked whether it composites, in milliseconds.
pub const KDE_CHECK_INTERVAL_MS: u64 = 5000;

/// The overlay window's state: whether it was last shown or hidden, and
/// what KWin last said of compositing. Times are milliseconds on a
/// monotonic clock.
pub struct OverlayState {
    visible: Option<bool>,
    kde_active: bool,
    next_check: u64,
}

impl OverlayState {
    pub closed spec fn visible(&self) -> Option<bool> {
        self.visible
    }

    pub closed spec fn kde_active(&self) -> bool {
        self.kde_active
    }

    pub closed spec fn next_check(&self) -> u64 {
        self.next_check
    }

    /// Not shown or hidden yet, compositing assumed, KWin due to be asked
    /// at `now`.
    pub fn new(now: u64) -> (r: Self)
        ensures
            r.visible() is None,
            r.kde_active(),
            r.next_check() == now,
    {
        OverlayState { visible: None, kde_active: true, next_check: now }
    }

    /// The overlay may be shown outside KDE, or while KWin composites.
    pub fn overlay_allowed(&self, is_kde: bool) -> (r: bool)
        ensures
            r == (!is_kde || self.kde_active()),
    {
        !is_kde || self.kde_active
    }

    /// Records that the overlay is to be shown or hidden; returns whether the
    /// window must change, which it need not when it already is so.
    pub fn set_overlay_visible(&mut self, visible: bool) -> (r: bool)
        ensures
            r == (old(self).visible() != Some(visible)),
            final(self).visible() == Some(visible),
            final(self).kde_active() == old(self).kde_active(),
            final(self).next_check() == old(self).next_check(),
    {
        if self.visible == Some(visible) {
            return false;
        }
        self.visible = Some(visible);
        true
    }

    /// Whether to ask KWin now: outside KDE compositing counts as active and
    /// KWin is never asked; inside, it is asked every `KDE_CHECK_INTERVAL_MS`.
    pub fn check_due(&mut self, is_kde: bool, now: u64) -> (r: bool)
        requires
            now + KDE_CHECK_INTERVAL_MS <= u64::MAX,
        ensures
            r == (is_kde && now >= old(self).next_check()),
            final(self).kde_active() == (if !is_kde {
                true
            } else {
                old(self).kde_active()
            }),
            final(self).next_check() == (if r {
                (now + KDE_CHECK_INTERVAL_MS) as u64
            } else {
                old(self).next_check()
            }),
            final(self).visible() == old(self).visible(),
    {
        if !is_kde {
            self.kde_active = true;
            return false;
        }
        if now < self.next_check {
            return false;
        }
        self.next_check = now + KDE_CHECK_INTERVAL_MS;
        true
    }

    /// Takes KWin's answer; returns whether the compositor policy must be
    /// applied again, which is when KWin says it does not composite. No
    /// answer changes nothing.
    pub fn record_answer(&mut self, answer: Option<bool>) -> (r: bool)
        ensures
            final(self).kde_active() == (match answer {
                Some(a) => a,
                None => old(self).kde_active(),
            }),
            r == (answer == Some(false)),
            final(self).visible() == old(self).visible(),
            final(self).next_check() == old(self).next_check(),
    {
        match answer {
            Some(a) => {
                self.kde_active = a;
                !a
            },
            None => false,
        }
    }
}


/// `sep` does not occur in `b`.
pub open spec fn free_of(b: Seq<u8>, sep: u8) -> bool {
    forall|k: int| 0 <= k < b.len() ==> b[k] != sep
}

proof fn lemma_split_pieces_free(b: Seq<u8>, sep: u8)
    ensures
        forall|i: int| 0 <= i < spec_split(b, sep).len() ==> free_of(#[trigger] spec_split(b, sep)[i], sep),
    decreases b.len(),
{
    lemma_split_nonempty(b, sep);
    if b.len() > 0 {
        lemma_split_pieces_free(b.drop_last(), sep);
        lemma_split_nonempty(b.drop_last(), sep);
        let rest = spec_split(b.drop_last(), sep);
        if b.last() != sep {
            let last = rest.last().push(b.last());
            assert forall|i: int| 0 <= i < spec_split(b, sep).len() implies free_of(#[trigger] spec_split(b, sep)[i], sep) by {
                if i == rest.len() - 1 {
                    assert(free_of(rest[i], sep));
                    assert(spec_split(b, sep)[i] == last);
                }
            }
        } else {
            assert forall|i: int| 0 <= i < spec_split(b, sep).len() implies free_of(#[trigger] spec_split(b, sep)[i], sep) by {
                if i < rest.len() {
                    assert(spec_split(b, sep)[i] == rest[i]);
                }
            }
        }
    }
}

proof fn lemma_split_extend(x: Seq<u8>, y: Seq<u8>, sep: u8)
    requires
        free_of(y, sep),
    ensures
        spec_split(x + y, sep) == spec_split(x, sep).update(
            spec_split(x, sep).len() - 1,
            spec_split(x, sep).last() + y,
        ),
        spec_split(x + y, sep).len() == spec_split(x, sep).len(),
    decreases y.len(),
{
    lemma_split_nonempty(x, sep);
    if y.len() == 0 {
        assert(x + y =~= x);
        assert(spec_split(x, sep).last() + y =~= spec_split(x, sep).last());
        assert(spec_split(x, sep).update(spec_split(x, sep).len() - 1, spec_split(x, sep).last())
            =~= spec_split(x, sep));
    } else {
        let y1 = y.drop_last();
        assert(free_of(y1, sep));
        lemma_split_extend(x, y1, sep);
        assert((x + y).drop_last() =~= x + y1);
        assert((x + y).last() == y.last());
        let s1 = spec_split(x + y1, sep);
        lemma_split_nonempty(x + y1, sep);
        assert(s1.last() == spec_split(x, sep).last() + y1);
        assert(y[y.len() - 1] != sep);
        assert(spec_split(x + y, sep) == s1.update(s1.len() - 1, s1.last().push(y.last())));
        assert((spec_split(x, sep).last() + y1).push(y.last()) =~= spec_split(x, sep).last() + y);
        assert(spec_split(x + y, sep) =~= spec_split(x, sep).update(
            spec_split(x, sep).len() - 1,
            spec_split(x, sep).last() + y,
        ));
    }
}

proof fn lemma_split_free(y: Seq<u8>, sep: u8)
    requires
        free_of(y, sep),
    ensures
        spec_split(y, sep) == seq![y],
{
    lemma_split_extend(Seq::empty(), y, sep);
    assert(Seq::<u8>::empty() + y =~= y);
    assert(spec_split(Seq::<u8>::empty(), sep) =~= seq![Seq::<u8>::empty()]);
    assert(Seq::<u8>::empty() + y =~= y);
    assert(seq![Seq::<u8>::empty()].update(0, Seq::<u8>::empty() + y) =~= seq![y]);
}

proof fn lemma_split_join(ls: Seq<Seq<u8>>)
    requires
        ls.len() > 0,
        forall|i: int| 0 <= i < ls.len() ==> free_of(#[trigger] ls[i], 10),
    ensures
        spec_split(join_lines(ls), 10) == ls,
    decreases ls.len(),
{
    if ls.len() == 1 {
        lemma_split_free(ls[0], 10);
        assert(seq![ls[0]] =~= ls);
    } else {
        let init = ls.drop_last();
        assert forall|i: int| 0 <= i < init.len() implies free_of(#[trigger] init[i], 10) by {
            assert(init[i] == ls[i]);
        }
        lemma_split_join(init);
        let a = join_lines(init) + seq![10u8];
        assert(a.drop_last() =~= join_lines(init));
        lemma_split_nonempty(join_lines(init), 10);
        assert(spec_split(a, 10) == init.push(Seq::empty()));
        assert(free_of(ls.last(), 10));
        lemma_split_extend(a, ls.last(), 10);
        assert(Seq::<u8>::empty() + ls.last() =~= ls.last());
        assert(init.push(Seq::empty()).update(init.len() as int, ls.last()) =~= ls);
    }
}

/// The lines of joined lines ending in a line break are the lines, each
/// without a trailing carriage return.
proof fn lemma_lines_of_join(ls: Seq<Seq<u8>>)
    requires
        ls.len() > 0,
        forall|i: int| 0 <= i < ls.len() ==> free_of(#[trigger] ls[i], 10),
    ensures
        spec_text_lines(join_lines(ls).push(10)) == ls.map_values(|l: Seq<u8>| strip_cr(l)),
{
    lemma_split_join(ls);
    let t = join_lines(ls).push(10);
    assert(t.drop_last() =~= join_lines(ls));
    assert(spec_split(t, 10) == ls.push(Seq::empty()));
    assert(spec_text_lines(t) =~= ls.map_values(|l: Seq<u8>| strip_cr(l)));
}


proof fn lemma_ws_len_push_cr(m: Seq<u8>, i: int)
    requires
        0 <= i < m.len(),
    ensures
        ws_len(m.push(13), i) == ws_len(m, i),
{
    let m2 = m.push(13);
    assert(m2[i] == m[i]);
    if i + 1 < m.len() {
        assert(m2[i + 1] == m[i + 1]);
    }
    if i + 2 < m.len() {
        assert(m2[i + 2] == m[i + 2]);
    }
    if i + 1 == m.len() {
        assert(m2[i + 1] == 13);
    }
    if i + 2 == m.len() {
        assert(m2[i + 1] == m[i + 1]);
        assert(m2[i + 2] == 13);
    }
}

proof fn lemma_skip_ws_push_cr(m: Seq<u8>, i: int)
    requires
        0 <= i <= m.len(),
    ensures
        skip_ws(m.push(13), i) == (if skip_ws(m, i) < m.len() {
            skip_ws(m, i)
        } else {
            m.len() + 1int
        }),
    decreases m.len() - i,
{
    let m2 = m.push(13);
    lemma_skip_ws_bounds(m, i);
    if i == m.len() {
        assert(ws_len(m2, i) == 1);
        assert(skip_ws(m2, i + 1) == i + 1);
    } else {
        lemma_ws_len_push_cr(m, i);
        let w = ws_len(m, i);
        if w > 0 {
            assert(i + w <= m.len());
            lemma_skip_ws_push_cr(m, i + w);
        }
    }
}

proof fn lemma_ws_before_prefix(b: Seq<u8>, c: Seq<u8>, j: int)
    requires
        0 <= j <= b.len(),
        j <= c.len(),
        forall|k: int| 0 <= k < j ==> b[k] == c[k],
    ensures
        ws_before(b, j) == ws_before(c, j),
{
    if j >= 1 {
        assert(b[j - 1] == c[j - 1]);
    }
    if j >= 2 {
        assert(b[j - 2] == c[j - 2]);
    }
    if j >= 3 {
        assert(b[j - 3] == c[j - 3]);
    }
}

proof fn lemma_trim_end_prefix(b: Seq<u8>, c: Seq<u8>, lo: int, j: int)
    requires
        0 <= lo <= j <= b.len(),
        j <= c.len(),
        forall|k: int| 0 <= k < j ==> b[k] == c[k],
    ensures
        trim_end_at(b, lo, j) == trim_end_at(c, lo, j),
    decreases j - lo,
{
    lemma_ws_before_prefix(b, c, j);
    if j > lo && ws_before(b, j) > 0 && j - ws_before(b, j) >= lo {
        lemma_trim_end_prefix(b, c, lo, j - ws_before(b, j));
    }
}

/// A carriage return at the end of a line makes no difference once the line
/// is trimmed.
proof fn lemma_trim_strip_cr(l: Seq<u8>)
    ensures
        spec_trim(strip_cr(l)) == spec_trim(l),
{
    if l.len() > 0 && l.last() == 13 {
        let m = l.drop_last();
        assert(l =~= m.push(13));
        let n = m.len() as int;
        lemma_skip_ws_push_cr(m, 0);
        lemma_skip_ws_bounds(m, 0);
        let i = skip_ws(m, 0);
        if i < n {
            assert(ws_before(l, n + 1) == 1);
            lemma_trim_end_prefix(l, m, i, n);
            lemma_trim_end_bounds(m, i, n);
            let e = trim_end_at(m, i, n);
            assert(trim_end_at(l, i, n + 1) == e);
            assert(l.subrange(i, e) =~= m.subrange(i, e));
        } else {
            assert(skip_ws(l, 0) == n + 1);
            assert(spec_trim(l) =~= Seq::<u8>::empty());
            assert(spec_trim(m) =~= Seq::<u8>::empty());
        }
    }
}


/// The flags of a patch state: changed, inside `[Compositing]`, met one,
/// key seen.
pub open spec fn patch_flags(s: PatchState) -> (bool, bool, bool, bool) {
    (s.1, s.2, s.3, s.4)
}

proof fn lemma_flags_by_trim(a: Seq<Seq<u8>>, b: Seq<Seq<u8>>)
    requires
        a.len() == b.len(),
        forall|i: int| 0 <= i < a.len() ==> spec_trim(#[trigger] a[i]) == spec_trim(b[i]),
    ensures
        patch_flags(patch_lines(a)) == patch_flags(patch_lines(b)),
    decreases a.len(),
{
    if a.len() > 0 {
        let a1 = a.drop_last();
        let b1 = b.drop_last();
        assert forall|i: int| 0 <= i < a1.len() implies spec_trim(#[trigger] a1[i]) == spec_trim(b1[i]) by {
            assert(a1[i] == a[i] && b1[i] == b[i]);
        }
        lemma_flags_by_trim(a1, b1);
        assert(spec_trim(a.last()) == spec_trim(b.last()));
    }
}

proof fn lemma_constant_lines()
    ensures
        spec_trim(key_line()) == key_line(),
        !is_section(key_line()),
        has_prefix(key_line(), key_prefix()),
        spec_trim(section_line()) == section_line(),
        is_section(section_line()),
        spec_trim(Seq::<u8>::empty()) == Seq::<u8>::empty(),
        !is_section(Seq::<u8>::empty()),
        free_of(key_line(), 10),
        free_of(section_line(), 10),
        free_of(Seq::<u8>::empty(), 10),
{
    let k = key_line();
    assert(skip_ws(k, 0) == 0);
    assert(ws_before(k, 29) == 0);
    assert(trim_end_at(k, 0, 29) == 29);
    assert(k.subrange(0, 29) =~= k);
    assert(k.subrange(0, 24) =~= key_prefix());
    let h = section_line();
    assert(skip_ws(h, 0) == 0);
    assert(ws_before(h, 13) == 0);
    assert(trim_end_at(h, 0, 13) == 13);
    assert(h.subrange(0, 13) =~= h);
    let e = Seq::<u8>::empty();
    assert(skip_ws(e, 0) == 0);
    assert(trim_end_at(e, 0, 0) == 0);
    assert(e.subrange(0, 0) =~= e);
}

/// What patching the patch's own output so far finds, against what the
/// patch knew: nothing changed, the same section state, and inside a
/// `[Compositing]` section the same knowledge of the key.
pub open spec fn mirrors(s1: PatchState, s2: PatchState) -> bool {
    &&& !s2.1
    &&& s2.2 == s1.2
    &&& s2.3 == s1.3
    &&& (s1.2 ==> s2.4 == s1.4)
    &&& (s1.2 ==> s1.3)
}

proof fn lemma_patch_output_mirrors(ls: Seq<Seq<u8>>)
    ensures
        mirrors(patch_lines(ls), patch_lines(patch_lines(ls).0)),
    decreases ls.len(),
{
    lemma_constant_lines();
    if ls.len() == 0 {
        assert(patch_lines(ls).0 =~= Seq::<Seq<u8>>::empty());
    } else {
        let prev = ls.drop_last();
        let l = ls.last();
        lemma_patch_output_mirrors(prev);
        let s1 = patch_lines(prev);
        let s2 = patch_lines(s1.0);
        let t = spec_trim(l);
        let out = patch_lines(ls).0;
        if is_section(t) {
            if s1.2 && !s1.4 {
                let o1 = s1.0.push(key_line());
                assert(o1.drop_last() =~= s1.0);
                assert(out == o1.push(l));
                assert(out.drop_last() =~= o1);
                let s2a = patch_step(s2, key_line());
                assert(patch_lines(o1) == s2a);
                assert(patch_lines(out) == patch_step(s2a, l));
            } else {
                assert(out == s1.0.push(l));
                assert(out.drop_last() =~= s1.0);
                assert(patch_lines(out) == patch_step(s2, l));
            }
        } else if s1.2 && has_prefix(t, key_prefix()) {
            if t != key_line() {
                assert(out == s1.0.push(key_line()));
                assert(out.drop_last() =~= s1.0);
                assert(patch_lines(out) == patch_step(s2, key_line()));
            } else {
                assert(out == s1.0.push(l));
                assert(out.drop_last() =~= s1.0);
                assert(patch_lines(out) == patch_step(s2, l));
            }
        } else {
            assert(out == s1.0.push(l));
            assert(out.drop_last() =~= s1.0);
            assert(patch_lines(out) == patch_step(s2, l));
        }
    }
}

proof fn lemma_patch_lines_free(ls: Seq<Seq<u8>>)
    requires
        forall|i: int| 0 <= i < ls.len() ==> free_of(#[trigger] ls[i], 10),
    ensures
        forall|i: int| 0 <= i < patch_lines(ls).0.len() ==> free_of(#[trigger] patch_lines(ls).0[i], 10),
        patch_lines(ls).0.len() >= ls.len(),
        patch_lines(ls).3 ==> ls.len() > 0,
    decreases ls.len(),
{
    lemma_constant_lines();
    if ls.len() > 0 {
        let prev = ls.drop_last();
        assert forall|i: int| 0 <= i < prev.len() implies free_of(#[trigger] prev[i], 10) by {
            assert(prev[i] == ls[i]);
        }
        lemma_patch_lines_free(prev);
        assert(free_of(ls.last(), 10));
        let out0 = patch_lines(prev).0;
        let out = patch_lines(ls).0;
        assert forall|i: int| 0 <= i < out.len() implies free_of(#[trigger] out[i], 10) by {
            if i < out0.len() {
                assert(out[i] == out0[i]);
            }
        }
    }
}

proof fn lemma_text_lines_free(c: Seq<u8>)
    ensures
        forall|i: int| 0 <= i < spec_text_lines(c).len() ==> free_of(#[trigger] spec_text_lines(c)[i], 10),
{
    lemma_split_pieces_free(c, 10);
    lemma_split_nonempty(c, 10);
    let p = spec_split(c, 10);
    assert forall|i: int| 0 <= i < spec_text_lines(c).len() implies free_of(#[trigger] spec_text_lines(c)[i], 10) by {
        assert(free_of(p[i], 10));
    }
}

/// Patching is stable: the file the patch writes needs no further change.
pub proof fn lemma_patch_kwinrc_stable(content: Seq<u8>)
    requires
        spec_patch_kwinrc(content) is Some,
    ensures
        spec_patch_kwinrc(spec_patch_kwinrc(content).unwrap()) is None,
{
    lemma_constant_lines();
    let ls = spec_text_lines(content);
    lemma_text_lines_free(content);
    lemma_patch_lines_free(ls);
    let s1 = patch_lines(ls);
    let (out, changed) = patch_finish(s1);
    let p = join_lines(out).push(10);
    lemma_patch_output_mirrors(ls);
    let s2 = patch_lines(s1.0);
    // the finished output: the lines written, and what the end adds
    let extra_blank = !(s1.0.len() > 0 && s1.0.last().len() == 0);
    assert(forall|i: int| 0 <= i < out.len() ==> free_of(#[trigger] out[i], 10)) by {
        if !s1.3 {
            let o1 = if extra_blank {
                s1.0.push(Seq::empty())
            } else {
                s1.0
            };
            assert forall|i: int| 0 <= i < out.len() implies free_of(#[trigger] out[i], 10) by {
                if i < s1.0.len() {
                    assert(out[i] == s1.0[i]);
                }
            }
        } else if s1.2 && !s1.4 {
            assert forall|i: int| 0 <= i < out.len() implies free_of(#[trigger] out[i], 10) by {
                if i < s1.0.len() {
                    assert(out[i] == s1.0[i]);
                }
            }
        }
    }
    assert(out.len() > 0);
    lemma_lines_of_join(out);
    let ls2 = spec_text_lines(p);
    assert(ls2 == out.map_values(|l: Seq<u8>| strip_cr(l)));
    assert forall|i: int| 0 <= i < out.len() implies spec_trim(#[trigger] out[i]) == spec_trim(ls2[i]) by {
        lemma_trim_strip_cr(out[i]);
    }
    lemma_flags_by_trim(out, ls2);
    let s3 = patch_lines(out);
    if !s1.3 {
        let o1 = if extra_blank {
            s1.0.push(Seq::empty())
        } else {
            s1.0
        };
        let o2 = o1.push(section_line());
        assert(out == o2.push(key_line()));
        assert(out.drop_last() =~= o2);
        assert(o2.drop_last() =~= o1);
        let s2a = if extra_blank {
            assert(o1.drop_last() =~= s1.0);
            patch_step(s2, Seq::empty())
        } else {
            s2
        };
        assert(patch_lines(o1) == s2a);
        let s2b = patch_step(s2a, section_line());
        assert(patch_lines(o2) == s2b);
        assert(s3 == patch_step(s2b, key_line()));
    } else if s1.2 && !s1.4 {
        assert(out == s1.0.push(key_line()));
        assert(out.drop_last() =~= s1.0);
        assert(s3 == patch_step(s2, key_line()));
    } else {
        assert(out == s1.0);
    }
    assert(!patch_finish(s3).1);
    assert(!patch_finish(patch_lines(ls2)).1);
}

} // verus!

//! Automatic counter-strafing: when the player shoots while moving, the
//! opposite movement key is tapped briefly to stop. Times are milliseconds on
//! a monotonic clock; the caller presses and releases the keys this module
//! names.

use vstd::prelude::*;

verus! {

/// A movement key.
#[derive(Debug, Clone, Copy, PartialEq, Eq, Structural)]
pub enum MovementKey {
    W,
    A,
    S,
    D,
}

/// How fast the player drifts along one axis, relative to the speed threshold.
#[derive(Debug, Clone, Copy, PartialEq, Eq, Structural)]
pub enum Drift {
    /// Faster than the threshold in the axis' positive direction.
    Positive,
    /// Faster than the threshold in the negative direction.
    Negative,
    /// Neither.
    Steady,
}

/// What the player is doing when a shot is fired.
#[derive(Debug, Clone, Copy, PartialEq, Eq, Structural)]
pub enum Motion {
    /// Which of W, A, S, D are held; at least one is.
    Keys { w: bool, a: bool, s: bool, d: bool },
    /// No movement key held, and the horizontal speed is below the threshold.
    Still,
    /// No movement key held, drifting along the view's right and forward axes.
    Drifting { right: Drift, forward: Drift },
}

/// Shortest time between two counter-strafe taps.
pub const MIN_TAP_INTERVAL_MS: u64 = 80;

/// Pending key releases and the time of the last tap.
#[derive(Debug, Clone, Copy, PartialEq, Eq, Structural)]
pub struct CounterStrafe {
    last_tap: Option<u64>,
    release_w: Option<u64>,
    release_a: Option<u64>,
    release_s: Option<u64>,
    release_d: Option<u64>,
}

/// Whether a pending release is due at `now`.
pub open spec fn due(release: Option<u64>, now: u64) -> bool {
    match release {
        Some(t) => now >= t,
        None => false,
    }
}

/// What stays of a pending release after the releases due at `now` are done.
pub open spec fn after_release(release: Option<u64>, now: u64) -> Option<u64> {
    if due(release, now) {
        None
    } else {
        release
    }
}

/// The key, if its release is due at `now`.
pub open spec fn due_key(cs: CounterStrafe, key: MovementKey, now: u64) -> Seq<MovementKey> {
    if due(cs.release(key), now) {
        seq![key]
    } else {
        seq![]
    }
}

/// The keys released at `now`, in the order W, A, S, D.
pub open spec fn due_keys(cs: CounterStrafe, now: u64) -> Seq<MovementKey> {
    due_key(cs, MovementKey::W, now) + due_key(cs, MovementKey::A, now) + due_key(
        cs,
        MovementKey::S,
        now,
    ) + due_key(cs, MovementKey::D, now)
}

/// The keys tapped for a motion, in the order they are pressed: the opposite of
/// each held key (W, S, A, D checked in that order); when drifting, both keys
/// of each drifting axis, the one against the drift last.
pub open spec fn tap_keys(motion: Motion) -> Seq<MovementKey> {
    match motion {
        Motion::Keys { w, a, s, d } => (if w { seq![MovementKey::S] } else { seq![] }) + (if s {
            seq![MovementKey::W]
        } else {
            seq![]
        }) + (if a { seq![MovementKey::D] } else { seq![] }) + (if d {
            seq![MovementKey::A]
        } else {
            seq![]
        }),
        Motion::Still => seq![],
        Motion::Drifting { right, forward } => (match right {
            Drift::Positive => seq![MovementKey::A, MovementKey::D],
            Drift::Negative => seq![MovementKey::D, MovementKey::A],
            Drift::Steady => seq![],
        }) + (match forward {
            Drift::Positive => seq![MovementKey::S, MovementKey::W],
            Drift::Negative => seq![MovementKey::W, MovementKey::S],
            Drift::Steady => seq![],
        }),
    }
}

/// How long a tap is held: the configured time, kept within 5 to 60 ms.
pub open spec fn tap_duration(tap_ms: u64) -> u64 {
    if tap_ms < 5 {
        5
    } else if tap_ms > 60 {
        60
    } else {
        tap_ms
    }
}

/// Whether a tap at `now` comes too soon after the last one.
pub open spec fn too_soon(last_tap: Option<u64>, now: u64) -> bool {
    match last_tap {
        Some(t) => now < t + MIN_TAP_INTERVAL_MS,
        None => false,
    }
}

impl CounterStrafe {
    pub closed spec fn last_tap(self) -> Option<u64> {
        self.last_tap
    }

    /// The pending release time of a key.
    pub closed spec fn release(self, key: MovementKey) -> Option<u64> {
        match key {
            MovementKey::W => self.release_w,
            MovementKey::A => self.release_a,
            MovementKey::S => self.release_s,
            MovementKey::D => self.release_d,
        }
    }

    /// Nothing tapped, nothing pending.
    pub fn new() -> (r: Self)
        ensures
            r.last_tap() is None,
            forall|k: MovementKey| r.release(k) is None,
    {
        CounterStrafe { last_tap: None, release_w: None, release_a: None, release_s: None, release_d: None }
    }

    /// Ends the taps that are due at `now`: returns their keys, for the caller
    /// to release, and forgets them.
    pub fn release_pending(&mut self, now: u64) -> (released: Vec<MovementKey>)
        ensures
            released@ == due_keys(*old(self), now),
            final(self).last_tap() == old(self).last_tap(),
            forall|k: MovementKey| #[trigger] final(self).release(k) == after_release(old(self).release(k), now),
    {
        let mut released: Vec<MovementKey> = Vec::new();
        if let Some(t) = self.release_w {
            if now >= t {
                released.push(MovementKey::W);
                self.release_w = None;
            }
        }
        if let Some(t) = self.release_a {
            if now >= t {
                released.push(MovementKey::A);
                self.release_a = None;
            }
        }
        if let Some(t) = self.release_s {
            if now >= t {
                released.push(MovementKey::S);
                self.release_s = None;
            }
        }
        if let Some(t) = self.release_d {
            if now >= t {
                released.push(MovementKey::D);
                self.release_d = None;
            }
        }
        assert forall|k: MovementKey| #[trigger] self.release(k) == after_release(old(self).release(k), now) by {
            match k {
                MovementKey::W => {},
                MovementKey::A => {},
                MovementKey::S => {},
                MovementKey::D => {},
            }
        }
        assert(released@ =~= due_keys(*old(self), now));
        released
    }

    /// Schedules the release of a key pressed at `now`.
    fn press_for(&mut self, key: MovementKey, release_at: u64)
        ensures
            final(self).last_tap() == old(self).last_tap(),
            final(self).release(key) == Some(release_at),
            forall|k: MovementKey| k != key ==> #[trigger] final(self).release(k) == old(self).release(k),
    {
        match key {
            MovementKey::W => self.release_w = Some(release_at),
            MovementKey::A => self.release_a = Some(release_at),
            MovementKey::S => self.release_s = Some(release_at),
            MovementKey::D => self.release_d = Some(release_at),
        }
    }

    /// Reacts to a shot fired at `now`: returns the keys to press, in order,
    /// and schedules each one's release after the tap duration. Nothing
    /// happens when the feature is off or within the minimum interval after
    /// the last tap; the time of a tap that presses keys is remembered.
    pub fn on_shot(&mut self, enabled: bool, now: u64, tap_ms: u64, motion: Motion) -> (pressed: Vec<
        MovementKey,
    >)
        requires
            now + 60 <= u64::MAX,
        ensures
            (!enabled || too_soon(old(self).last_tap(), now)) ==> pressed@.len() == 0 && *final(self)
                == *old(self),
            enabled && !too_soon(old(self).last_tap(), now) ==> {
                &&& pressed@ == tap_keys(motion)
                &&& final(self).last_tap() == (if pressed@.len() > 0 {
                    Some(now)
                } else {
                    old(self).last_tap()
                })
                &&& forall|k: MovementKey| #[trigger]
                    final(self).release(k) == (if tap_keys(motion).contains(k) {
                        Some((now + tap_duration(tap_ms)) as u64)
                    } else {
                        old(self).release(k)
                    })
            },
    {
        let mut pressed: Vec<MovementKey> = Vec::new();
        if !enabled {
            return pressed;
        }
        if let Some(last) = self.last_tap {
            if now < last || now - last < MIN_TAP_INTERVAL_MS {
                return pressed;
            }
        }
        let duration: u64 = if tap_ms < 5 {
            5
        } else if tap_ms > 60 {
            60
        } else {
            tap_ms
        };
        let release_at = now + duration;
        assert(release_at == (now + tap_duration(tap_ms)) as u64);
        let ghost start = *self;
        let keys = tap_list(motion);
        let mut i: usize = 0;
        while i < keys.len()
            invariant
                keys@ == tap_keys(motion),
                i <= keys.len(),
                pressed@ == keys@.subrange(0, i as int),
                self.last_tap() == start.last_tap(),
                forall|k: MovementKey| #[trigger]
                    self.release(k) == (if keys@.subrange(0, i as int).contains(k) {
                        Some(release_at)
                    } else {
                        start.release(k)
                    }),
            decreases keys.len() - i,
        {
            let key = keys[i];
            self.press_for(key, release_at);
            pressed.push(key);
            proof {
                let before = keys@.subrange(0, i as int);
                let after = keys@.subrange(0, i + 1);
                assert(after =~= before.push(key));
                assert forall|k: MovementKey| after.contains(k) == (before.contains(k) || k == key) by {
                    if after.contains(k) {
                        let j = choose|j: int| 0 <= j < after.len() && after[j] == k;
                        if j < before.len() {
                            assert(before[j] == k);
                        }
                    }
                    if before.contains(k) {
                        let j = choose|j: int| 0 <= j < before.len() && before[j] == k;
                        assert(after[j] == k);
                    }
                    if k == key {
                        assert(after[i as int] == k);
                    }
                }
            }
            i += 1;
        }
        assert(keys@.subrange(0, keys.len() as int) =~= keys@);
        let ghost before_tap = *self;
        if pressed.len() > 0 {
            self.last_tap = Some(now);
        }
        assert forall|k: MovementKey| #[trigger] self.release(k) == before_tap.release(k) by {
            match k {
                MovementKey::W => {},
                MovementKey::A => {},
                MovementKey::S => {},
                MovementKey::D => {},
            }
        }
        pressed
    }
}

/// The keys tapped for a motion.
fn tap_list(motion: Motion) -> (r: Vec<MovementKey>)
    ensures
        r@ == tap_keys(motion),
{
    let mut r: Vec<MovementKey> = Vec::new();
    match motion {
        Motion::Keys { w, a, s, d } => {
            if w {
                r.push(MovementKey::S);
            }
            if s {
                r.push(MovementKey::W);
            }
            if a {
                r.push(MovementKey::D);
            }
            if d {
                r.push(MovementKey::A);
            }
        },
        Motion::Still => {},
        Motion::Drifting { right, forward } => {
            match right {
                Drift::Positive => {
                    r.push(MovementKey::A);
                    r.push(MovementKey::D);
                },
                Drift::Negative => {
                    r.push(MovementKey::D);
                    r.push(MovementKey::A);
                },
                Drift::Steady => {},
            }
            match forward {
                Drift::Positive => {
                    r.push(MovementKey::S);
                    r.push(MovementKey::W);
                },
                Drift::Negative => {
                    r.push(MovementKey::W);
                    r.push(MovementKey::S);
                },
                Drift::Steady => {},
            }
        },
    }
    assert(r@ =~= tap_keys(motion));
    r
}

/// After the due releases at `now` are done, every release still pending lies
/// after `now`.
pub proof fn lemma_no_due_release_remains(cs: CounterStrafe, now: u64, k: MovementKey)
    ensures
        !due(after_release(cs.release(k), now), now),
{
}

/// A key tapped at `now` is released exactly the tap duration later, which
/// lies within 5 to 60 ms.
pub proof fn lemma_tap_duration_bounds(tap_ms: u64)
    ensures
        5 <= tap_duration(tap_ms) <= 60,
        5 <= tap_ms <= 60 ==> tap_duration(tap_ms) == tap_ms,
{
}

/// Whether a key is tapped: it is in the sequence of tapped keys.
proof fn lemma_tapped_at(t: Seq<MovementKey>, i: int, k: MovementKey)
    requires
        0 <= i < t.len(),
        t[i] == k,
    ensures
        t.contains(k),
{
}

/// On a shot the key opposite each held movement key is tapped, and no other:
/// W against S, S against W, A against D and D against A.
pub proof fn lemma_taps_oppose_held_keys(w: bool, a: bool, s: bool, d: bool)
    ensures
        tap_keys(Motion::Keys { w, a, s, d }).contains(MovementKey::W) == s,
        tap_keys(Motion::Keys { w, a, s, d }).contains(MovementKey::S) == w,
        tap_keys(Motion::Keys { w, a, s, d }).contains(MovementKey::D) == a,
        tap_keys(Motion::Keys { w, a, s, d }).contains(MovementKey::A) == d,
{
    let t = tap_keys(Motion::Keys { w, a, s, d });
    let pw: Seq<MovementKey> = if w { seq![MovementKey::S] } else { seq![] };
    let ps: Seq<MovementKey> = if s { seq![MovementKey::W] } else { seq![] };
    let pa: Seq<MovementKey> = if a { seq![MovementKey::D] } else { seq![] };
    let pd: Seq<MovementKey> = if d { seq![MovementKey::A] } else { seq![] };
    assert(t == pw + ps + pa + pd);
    let n1 = pw.len() as int;
    let n2 = n1 + ps.len();
    let n3 = n2 + pa.len();
    assert forall|i: int| 0 <= i < t.len() implies (t[i] == MovementKey::S ==> w) && (t[i] == MovementKey::W ==> s)
        && (t[i] == MovementKey::D ==> a) && (t[i] == MovementKey::A ==> d) by {
        if i < n1 {
            assert(t[i] == pw[i]);
        } else if i < n2 {
            assert(t[i] == ps[i - n1]);
        } else if i < n3 {
            assert(t[i] == pa[i - n2]);
        } else {
            assert(t[i] == pd[i - n3]);
        }
    }
    if w {
        lemma_tapped_at(t, 0, MovementKey::S);
    }
    if s {
        assert(t[n1] == MovementKey::W);
        lemma_tapped_at(t, n1, MovementKey::W);
    }
    if a {
        assert(t[n2] == MovementKey::D);
        lemma_tapped_at(t, n2, MovementKey::D);
    }
    if d {
        assert(t[n3] == MovementKey::A);
        lemma_tapped_at(t, n3, MovementKey::A);
    }
}

} // verus!

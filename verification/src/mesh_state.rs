//! The player model renderer's state: the agent index it draws players with, and
//! when it retries loading what it could not load yet.

use std::collections::{HashMap, HashSet};
use vstd::prelude::*;
use vstd::string::StringExecFns;
use crate::agents::{FALLBACK_AGENT_CT, FALLBACK_AGENT_T};

verus! {

/// How long to wait before looking again for a file that was missing, in
/// milliseconds.
pub const RETRY_INTERVAL_MS: u64 = 3000;

/// Whether another attempt is due: there was none yet, or the last one lies
/// at least the retry interval back.
pub open spec fn retry_due(last: Option<u64>, now: u64) -> bool {
    match last {
        None => true,
        Some(t) => now >= t + RETRY_INTERVAL_MS,
    }
}

/// What the model renderer remembers between frames about loading the agent
/// index and the chicken model. Times are milliseconds on a monotonic clock.
pub struct PlayerMeshState {
    last_index_attempt: Option<u64>,
    agent_index: HashMap<u16, String>,
    chicken_loaded: bool,
    chicken_failed: bool,
    last_chicken_attempt: Option<u64>,
}

impl PlayerMeshState {
    /// The agent index: each agent's item index to its mesh stem.
    pub closed spec fn index(&self) -> Map<u16, String> {
        self.agent_index@
    }

    pub open spec fn index_len(&self) -> nat {
        self.index().len()
    }

    pub closed spec fn last_index_attempt(&self) -> Option<u64> {
        self.last_index_attempt
    }

    pub closed spec fn last_chicken_attempt(&self) -> Option<u64> {
        self.last_chicken_attempt
    }

    pub closed spec fn chicken_settled(&self) -> bool {
        self.chicken_loaded || self.chicken_failed
    }

    pub closed spec fn chicken_loaded(&self) -> bool {
        self.chicken_loaded
    }

    /// Nothing loaded, nothing attempted.
    pub fn new() -> (r: Self)
        ensures
            r.index_len() == 0,
            r.last_index_attempt() is None,
            r.last_chicken_attempt() is None,
            !r.chicken_settled(),
    {
        PlayerMeshState {
            last_index_attempt: None,
            agent_index: HashMap::new(),
            chicken_loaded: false,
            chicken_failed: false,
            last_chicken_attempt: None,
        }
    }

    /// Whether the agent index should be read now: only while it is empty,
    /// and at most once per retry interval; an attempt made now is recorded.
    pub fn index_attempt_due(&mut self, now: u64) -> (r: bool)
        ensures
            r == (old(self).index_len() == 0 && retry_due(old(self).last_index_attempt(), now)),
            final(self).last_index_attempt() == (if r {
                Some(now)
            } else {
                old(self).last_index_attempt()
            }),
            final(self).index_len() == old(self).index_len(),
            final(self).last_chicken_attempt() == old(self).last_chicken_attempt(),
            final(self).chicken_settled() == old(self).chicken_settled(),
    {
        if self.agent_index.len() != 0 {
            return false;
        }
        let due = match self.last_index_attempt {
            None => true,
            Some(t) => now >= t && now - t >= RETRY_INTERVAL_MS,
        };
        if due {
            self.last_index_attempt = Some(now);
        }
        due
    }

    /// Keeps the agent index that was read.
    pub fn set_agent_index(&mut self, index: HashMap<u16, String>)
        ensures
            final(self).index() == index@,
            final(self).last_index_attempt() == old(self).last_index_attempt(),
    {
        self.agent_index = index;
    }

    /// The mesh stem of an agent, when the index has one.
    pub fn agent_stem(&self, def_index: u16) -> (r: Option<&String>)
        ensures
            r is Some == self.index().contains_key(def_index),
            r matches Some(s) ==> *s == self.index()[def_index],
    {
        self.agent_index.get(&def_index)
    }

    /// The mesh stem a player is drawn with: their agent's from the index,
    /// or their team's fallback (the Terrorist one for Terrorists, the
    /// Counter-Terrorist one otherwise).
    pub fn player_stem(&self, def_index: u16, terrorist: bool) -> (r: String)
        ensures
            r@ == (if self.index().contains_key(def_index) {
                self.index()[def_index]@
            } else if terrorist {
                FALLBACK_AGENT_T@
            } else {
                FALLBACK_AGENT_CT@
            }),
    {
        match self.agent_index.get(&def_index) {
            Some(s) => String::from_str(s.as_str()),
            None => {
                if terrorist {
                    String::from_str(FALLBACK_AGENT_T)
                } else {
                    String::from_str(FALLBACK_AGENT_CT)
                }
            },
        }
    }

    /// Whether loading the chicken model should be tried now: not once it
    /// loaded or failed to load, and at most once per retry interval; an
    /// attempt made now is recorded.
    pub fn chicken_attempt_due(&mut self, now: u64) -> (r: bool)
        ensures
            r == (!old(self).chicken_settled() && retry_due(old(self).last_chicken_attempt(), now)),
            final(self).last_chicken_attempt() == (if r {
                Some(now)
            } else {
                old(self).last_chicken_attempt()
            }),
            final(self).chicken_settled() == old(self).chicken_settled(),
            final(self).index_len() == old(self).index_len(),
    {
        if self.chicken_loaded || self.chicken_failed {
            return false;
        }
        let due = match self.last_chicken_attempt {
            None => true,
            Some(t) => now >= t && now - t >= RETRY_INTERVAL_MS,
        };
        if due {
            self.last_chicken_attempt = Some(now);
        }
        due
    }

    /// Records how loading the chicken model went; a failure is not retried.
    pub fn chicken_load_result(&mut self, loaded: bool)
        ensures
            final(self).chicken_settled(),
            final(self).chicken_loaded() == loaded,
            final(self).index_len() == old(self).index_len(),
    {
        self.chicken_loaded = loaded;
        self.chicken_failed = !loaded;
    }
}

/// The joint a joint's visibility is taken from, climbing from `current` at
/// most `steps` times: the first named ancestor; the joint itself when the
/// chain ends, leaves the skeleton or runs out of steps.
pub open spec fn climb(parents: Seq<i32>, named: Set<usize>, current: int, steps: nat, joint: int) -> int
    decreases steps,
{
    if steps == 0 || current < 0 || current >= parents.len() {
        joint
    } else {
        let parent = parents[current];
        if parent < 0 {
            joint
        } else if named.contains(parent as usize) {
            parent as int
        } else {
            climb(parents, named, parent as int, (steps - 1) as nat, joint)
        }
    }
}

/// The joint whose visibility a joint takes: itself when it is named, else its
/// nearest named ancestor, found within as many steps as there are joints so
/// that a cyclic chain ends; itself when there is none.
pub open spec fn visibility_source(parents: Seq<i32>, named: Set<usize>, joint: int) -> int {
    if named.contains(joint as usize) {
        joint
    } else {
        climb(parents, named, joint, parents.len(), joint)
    }
}

proof fn lemma_climb_named_or_joint(parents: Seq<i32>, named: Set<usize>, current: int, steps: nat, joint: int)
    ensures
        climb(parents, named, current, steps, joint) == joint || named.contains(
            climb(parents, named, current, steps, joint) as usize,
        ),
    decreases steps,
{
    if !(steps == 0 || current < 0 || current >= parents.len()) {
        let parent = parents[current];
        if parent >= 0 && !named.contains(parent as usize) {
            lemma_climb_named_or_joint(parents, named, parent as int, (steps - 1) as nat, joint);
        }
    }
}

/// A joint takes its visibility from itself or from a named joint, never
/// from an unnamed one; a named joint takes its own.
pub proof fn lemma_visibility_source_named_or_self(parents: Seq<i32>, named: Set<usize>, joint: int)
    ensures
        visibility_source(parents, named, joint) == joint || named.contains(
            visibility_source(parents, named, joint) as usize,
        ),
        named.contains(joint as usize) ==> visibility_source(parents, named, joint) == joint,
{
    if !named.contains(joint as usize) {
        lemma_climb_named_or_joint(parents, named, joint, parents.len(), joint);
    }
}

/// For each joint of a skeleton, the joint its visibility is taken from: the
/// joint itself when it is named, else its nearest named ancestor.
pub fn resolve_visibility_sources(parent_indices: &[i32], named: &HashSet<usize>) -> (r: Vec<usize>)
    ensures
        r@.len() == parent_indices@.len(),
        forall|j: int|
            0 <= j < r@.len() ==> #[trigger] r@[j] as int == visibility_source(
                parent_indices@,
                named@,
                j,
            ),
{
    let n = parent_indices.len();
    let mut out: Vec<usize> = Vec::new();
    let mut joint: usize = 0;
    while joint < n
        invariant
            n == parent_indices@.len(),
            joint <= n,
            out@.len() == joint,
            forall|j: int|
                0 <= j < joint ==> #[trigger] out@[j] as int == visibility_source(
                    parent_indices@,
                    named@,
                    j,
                ),
        decreases n - joint,
    {
        let source = if named.contains(&joint) {
            joint
        } else {
            let mut current: usize = joint;
            let mut step: usize = 0;
            let mut found: usize = joint;
            let mut done = false;
            while step < n && !done
                invariant
                    n == parent_indices@.len(),
                    joint < n,
                    step <= n,
                    !named@.contains(joint),
                    !done ==> climb(parent_indices@, named@, current as int, (n - step) as nat, joint as int)
                        == climb(parent_indices@, named@, joint as int, n as nat, joint as int),
                    done ==> found as int == climb(parent_indices@, named@, joint as int, n as nat, joint as int),
                decreases n - step, if done { 0int } else { 1int },
            {
                if current >= n {
                    found = joint;
                    done = true;
                } else {
                    let parent = parent_indices[current];
                    if parent < 0 {
                        found = joint;
                        done = true;
                    } else if named.contains(&(parent as usize)) {
                        found = parent as usize;
                        done = true;
                    } else {
                        current = parent as usize;
                        step += 1;
                    }
                }
            }
            if !done {
                found = joint;
            }
            found
        };
        out.push(source);
        joint += 1;
    }
    out
}

} // verus!

verus! {

/// Whether a list of strings holds the given text.
pub open spec fn holds_text(v: Seq<String>, s: Seq<char>) -> bool {
    exists|i: int| 0 <= i < v.len() && #[trigger] v[i]@ == s
}

/// Whether a list of strings holds the given text, by comparing each one.
fn holds(v: &Vec<String>, s: &str) -> (r: bool)
    ensures
        r == holds_text(v@, s@),
{
    let mut i: usize = 0;
    while i < v.len()
        invariant
            i <= v.len(),
            forall|j: int| 0 <= j < i ==> v@[j]@ != s@,
        decreases v.len() - i,
    {
        if crate::text::str_eq(v[i].as_str(), s) {
            return true;
        }
        i += 1;
    }
    false
}

/// Which player meshes, by stem, were loaded and which could not be loaded.
/// A stem is tried once: after one attempt it is in exactly one of the two.
pub struct MeshCache {
    loaded: Vec<String>,
    failed: Vec<String>,
}

impl MeshCache {
    /// Whether the mesh of a stem was loaded.
    pub closed spec fn is_loaded(&self, stem: Seq<char>) -> bool {
        holds_text(self.loaded@, stem)
    }

    /// Whether loading the mesh of a stem failed.
    pub closed spec fn has_failed(&self, stem: Seq<char>) -> bool {
        holds_text(self.failed@, stem)
    }

    /// No stem is both loaded and failed.
    pub closed spec fn wf(&self) -> bool {
        forall|s: Seq<char>| !(#[trigger] self.is_loaded(s) && self.has_failed(s))
    }

    /// Nothing tried yet.
    pub fn new() -> (r: Self)
        ensures
            r.wf(),
            forall|s: Seq<char>| !r.is_loaded(s) && !r.has_failed(s),
    {
        MeshCache { loaded: Vec::new(), failed: Vec::new() }
    }

    /// Whether the mesh of a stem is still to be tried: neither loaded nor
    /// failed.
    pub fn needs_load(&self, stem: &str) -> (r: bool)
        ensures
            r == (!self.is_loaded(stem@) && !self.has_failed(stem@)),
    {
        !holds(&self.loaded, stem) && !holds(&self.failed, stem)
    }

    /// Whether the mesh of a stem is loaded.
    pub fn loaded(&self, stem: &str) -> (r: bool)
        ensures
            r == self.is_loaded(stem@),
    {
        holds(&self.loaded, stem)
    }

    /// Records the outcome of the one attempt to load a stem's mesh; nothing
    /// else changes, and the stem is not tried again.
    pub fn record_load(&mut self, stem: &str, ok: bool)
        requires
            old(self).wf(),
            !old(self).is_loaded(stem@),
            !old(self).has_failed(stem@),
        ensures
            final(self).wf(),
            final(self).is_loaded(stem@) == ok,
            final(self).has_failed(stem@) == !ok,
            forall|s: Seq<char>|
                s != stem@ ==> final(self).is_loaded(s) == old(self).is_loaded(s),
            forall|s: Seq<char>|
                s != stem@ ==> final(self).has_failed(s) == old(self).has_failed(s),
    {
        let ghost before = *self;
        if ok {
            self.loaded.push(stem.to_string());
        } else {
            self.failed.push(stem.to_string());
        }
        proof {
            let last = stem@;
            assert forall|s: Seq<char>| s != last implies (self.is_loaded(s) == before.is_loaded(s)
                && self.has_failed(s) == before.has_failed(s)) by {
                if ok {
                    if self.is_loaded(s) {
                        let i = choose|i: int| 0 <= i < self.loaded@.len() && #[trigger] self.loaded@[i]@ == s;
                        assert(i < before.loaded@.len());
                        assert(before.loaded@[i]@ == s);
                    }
                    if before.is_loaded(s) {
                        let i = choose|i: int| 0 <= i < before.loaded@.len() && #[trigger] before.loaded@[i]@ == s;
                        assert(self.loaded@[i]@ == s);
                    }
                } else {
                    if self.has_failed(s) {
                        let i = choose|i: int| 0 <= i < self.failed@.len() && #[trigger] self.failed@[i]@ == s;
                        assert(i < before.failed@.len());
                        assert(before.failed@[i]@ == s);
                    }
                    if before.has_failed(s) {
                        let i = choose|i: int| 0 <= i < before.failed@.len() && #[trigger] before.failed@[i]@ == s;
                        assert(self.failed@[i]@ == s);
                    }
                }
            }
            if ok {
                assert(self.loaded@[self.loaded@.len() - 1]@ == last);
            } else {
                assert(self.failed@[self.failed@.len() - 1]@ == last);
            }
            assert forall|s: Seq<char>| !(#[trigger] self.is_loaded(s) && self.has_failed(s)) by {
                if s != last {
                    assert(!(before.is_loaded(s) && before.has_failed(s)));
                } else if ok {
                    assert(self.failed@ == before.failed@);
                    assert(!before.has_failed(s));
                } else {
                    assert(self.loaded@ == before.loaded@);
                    assert(!before.is_loaded(s));
                }
            }
        }
    }

    /// The stem whose mesh draws a player: its own when that was loaded,
    /// otherwise the fallback.
    pub fn render_stem<'a>(&self, stem: &'a str, fallback: &'a str) -> (r: &'a str)
        ensures
            r@ == (if self.is_loaded(stem@) {
                stem@
            } else {
                fallback@
            }),
    {
        if self.loaded(stem) {
            stem
        } else {
            fallback
        }
    }
}

} // verus!

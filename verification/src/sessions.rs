//! The radar server's sessions: each game that registered, keyed by its
//! session id, with the last data it sent and when. Times are milliseconds on
//! a monotonic clock.

use std::collections::HashMap;
use vstd::std_specs::iter::IteratorSpec;
use vstd::prelude::*;
use vstd::string::StringSliceAdditionalSpecFns;
use vstd::utf8::encode_utf8;
use crate::session_id::{id_text, parse_id, parsed_id, spec_id_text};

verus! {

/// How long a session lives without an update, in milliseconds.
pub const MAX_AGE_MS: u64 = 60000;

/// A game's session: its last data and when it arrived.
#[derive(Debug, Clone, Copy, PartialEq, Eq, Structural)]
pub struct GameState<D> {
    pub data: D,
    pub last_update: u64,
}

/// Whether a session updated at `last_update` is still alive at `now`.
pub open spec fn alive(last_update: u64, now: u64) -> bool {
    now < last_update + MAX_AGE_MS
}

/// The sessions after a game sent `data` under `id` at `now`: a known
/// session holds the data from then on, an unknown id gets an empty session.
pub open spec fn updated<D>(games: Map<u128, GameState<D>>, id: u128, data: D, empty: D, now: u64) -> Map<
    u128,
    GameState<D>,
> {
    games.insert(
        id,
        GameState {
            data: if games.contains_key(id) {
                data
            } else {
                empty
            },
            last_update: now,
        },
    )
}

/// A viewer reads what a game last sent: after a registered game sends data,
/// its session holds exactly that data and every other session is as it was;
/// a session just opened by registering holds the empty data.
pub proof fn lemma_read_after_update<D>(
    games: Map<u128, GameState<D>>,
    id: u128,
    data: D,
    empty: D,
    now: u64,
    other: u128,
)
    requires
        games.contains_key(id),
    ensures
        updated(games, id, data, empty, now).contains_key(id),
        updated(games, id, data, empty, now)[id].data == data,
        other != id ==> updated(games, id, data, empty, now).contains_key(other) == games.contains_key(other),
        other != id && games.contains_key(other) ==> updated(games, id, data, empty, now)[other] == games[other],
        games.insert(id, GameState { data: empty, last_update: now })[id].data == empty,
{
}

/// The sessions of the server.
pub struct Sessions<D> {
    pub games: HashMap<u128, GameState<D>>,
}

impl<D> Sessions<D> {
    /// The sessions, by id.
    pub open spec fn view(&self) -> Map<u128, GameState<D>> {
        self.games@
    }

    /// No sessions.
    pub fn new() -> (r: Self)
        ensures
            r.view() == Map::<u128, GameState<D>>::empty(),
    {
        Sessions { games: HashMap::new() }
    }

    /// Opens a session for a game that registered, with empty data.
    pub fn register(&mut self, id: u128, empty: D, now: u64)
        ensures
            final(self).view() == old(self).view().insert(id, GameState { data: empty, last_update: now }),
    {
        self.games.insert(id, GameState { data: empty, last_update: now });
    }

    /// Opens a session for a game that registered under `id` and returns the
    /// text the server answers with: the id, hyphenated.
    pub fn register_game(&mut self, id: u128, empty: D, now: u64) -> (r: String)
        ensures
            final(self).view() == old(self).view().insert(id, GameState { data: empty, last_update: now }),
            encode_utf8(r@) == spec_id_text(id),
    {
        self.register(id, empty, now);
        id_text(id)
    }

    /// Takes in data a game sent: a known session keeps it and is refreshed;
    /// for an unknown id an empty session is opened and the data dropped.
    pub fn update(&mut self, id: u128, data: D, empty: D, now: u64)
        ensures
            final(self).view() == updated(old(self).view(), id, data, empty, now),
    {
        if self.games.contains_key(&id) {
            self.games.insert(id, GameState { data, last_update: now });
        } else {
            self.games.insert(id, GameState { data: empty, last_update: now });
        }
    }

    /// Closes a session whose game disconnected.
    pub fn end(&mut self, id: u128)
        ensures
            final(self).view() == old(self).view().remove(id),
    {
        self.games.remove(&id);
    }

    /// The last data of a session, for a viewer.
    pub fn data(&self, id: u128) -> (r: Option<&D>)
        ensures
            match r {
                Some(d) => self.view().contains_key(id) && *d == self.view()[id].data,
                None => !self.view().contains_key(id),
            },
    {
        match self.games.get(&id) {
            Some(game) => Some(&game.data),
            None => None,
        }
    }

    /// Removes the sessions that have not been updated for `MAX_AGE_MS`.
    pub fn clean(&mut self, now: u64)
        ensures
            final(self).view().dom() == old(self).view().dom().filter(
                |id: u128| alive(old(self).view()[id].last_update, now),
            ),
            forall|id: u128| #[trigger]
                final(self).view().contains_key(id) ==> final(self).view()[id] == old(self).view()[id],
    {
        let ghost start = self.games@;
        let mut expired: Vec<u128> = Vec::new();
        proof {
            vstd::std_specs::hash::axiom_spec_keys_iter(&self.games);
        }
        let ghost keys = vstd::std_specs::hash::spec_keys_iter(&self.games).remaining();
        assert(keys.unref().to_set() == start.dom());
        for id in it: self.games.keys()
            invariant
                start == self.games@,
                it.seq() == keys,
                forall|k: int| 0 <= k < expired@.len() ==> start.contains_key(#[trigger] expired@[k])
                    && !alive(start[expired@[k]].last_update, now),
                forall|k: int| 0 <= k < it.index() && start.contains_key(*keys[k]) && !alive(start[*keys[k]].last_update, now)
                    ==> expired@.contains(*#[trigger] keys[k]),
        {
            assert(*id == *keys[it.index()]);
            assert(keys.unref().to_set().contains(*id)) by {
                assert(keys.unref()[it.index()] == *id);
            }
            let ghost old_exp = expired@;
            let ghost i0 = it.index();
            let game = self.games.get(id).unwrap();
            if !(now < game.last_update || now - game.last_update < MAX_AGE_MS) {
                expired.push(*id);
                assert(expired@[expired@.len() - 1] == *id);
            }
            proof {
                assert forall|k: int| 0 <= k < i0 + 1 && start.contains_key(*keys[k]) && !alive(start[*keys[k]].last_update, now)
                    implies expired@.contains(*#[trigger] keys[k]) by {
                    if k < i0 {
                        assert(old_exp.contains(*keys[k]));
                        let q = choose|q: int| 0 <= q < old_exp.len() && #[trigger] old_exp[q] == *keys[k];
                        assert(expired@[q] == old_exp[q]);
                    } else {
                        assert(*keys[k] == *id);
                    }
                }
            }
        }
        let mut k: usize = 0;
        while k < expired.len()
            invariant
                k <= expired@.len(),
                forall|q: int| 0 <= q < expired@.len() ==> start.contains_key(#[trigger] expired@[q])
                    && !alive(start[expired@[q]].last_update, now),
                self.games@.dom() == start.dom().filter(|id: u128| !expired@.subrange(0, k as int).contains(id)),
                forall|id: u128| #[trigger] self.games@.contains_key(id) ==> self.games@[id] == start[id],
            decreases expired@.len() - k,
        {
            let ghost before = self.games@.dom();
            self.games.remove(&expired[k]);
            proof {
                assert forall|id: u128| expired@.subrange(0, k + 1).contains(id) == (expired@.subrange(0, k as int).contains(id) || id == expired@[k as int]) by {
                    if expired@.subrange(0, k + 1).contains(id) {
                        let q = choose|q: int| 0 <= q < k + 1 && #[trigger] expired@.subrange(0, k + 1)[q] == id;
                        if q < k {
                            assert(expired@.subrange(0, k as int)[q] == id);
                        }
                    }
                    if expired@.subrange(0, k as int).contains(id) {
                        let q = choose|q: int| 0 <= q < k && #[trigger] expired@.subrange(0, k as int)[q] == id;
                        assert(expired@.subrange(0, k + 1)[q] == id);
                    }
                    if id == expired@[k as int] {
                        assert(expired@.subrange(0, k + 1)[k as int] == id);
                    }
                }
                assert(self.games@.dom() =~= start.dom().filter(|id: u128| !expired@.subrange(0, k + 1).contains(id)));
            }
            k += 1;
        }
        proof {
            assert forall|id: u128| start.dom().contains(id) implies (!expired@.contains(id) <==> alive(start[id].last_update, now)) by {
                if expired@.contains(id) {
                    let q = choose|q: int| 0 <= q < expired@.len() && #[trigger] expired@[q] == id;
                    assert(start.contains_key(expired@[q]));
                }
                if !alive(start[id].last_update, now) {
                    assert(keys.unref().to_set().contains(id));
                    let q = choose|q: int| 0 <= q < keys.unref().len() && #[trigger] keys.unref()[q] == id;
                    assert(*keys[q] == id);
                }
            }
            assert(expired@.subrange(0, expired@.len() as int) =~= expired@);
            assert(self.games@.dom() =~= start.dom().filter(|id: u128| alive(start[id].last_update, now)));
        }
    }
}


/// Whether a game's connection goes on after its first value, the protocol
/// version it speaks: only when that is the server's own version.
pub fn accept_version(received: u32, expected: u32) -> (r: bool)
    ensures
        r == (received == expected),
{
    received == expected
}

/// Whether a data frame whose announced length is `len` is read: only when
/// it is at most the largest frame the server takes; a longer one ends the
/// connection.
pub fn accept_frame(len: u32, max_frame: u32) -> (r: bool)
    ensures
        r == (len <= max_frame),
{
    len <= max_frame
}

/// The session a game or a viewer names in the first message it sends.
pub fn session_of(message: &str) -> (r: Option<u128>)
    ensures
        r == parsed_id(message.spec_bytes()),
{
    parse_id(message)
}

} // verus!

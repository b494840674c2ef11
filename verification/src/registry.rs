//! The room registry: storage and retrieval of independent game sessions
//! keyed by an opaque room identifier. Operations address exactly one room;
//! every other room is left untouched, so sessions are isolated from each
//! other.

use vstd::prelude::*;

use crate::game::Game;
use crate::game::GameState;
use crate::game::Player;
use crate::game::has_player;
use crate::game::investigate_pre;
use crate::game::investigate_post;
use crate::game::start_post;
use crate::game::view_post;
use crate::game::PlayerView;

verus! {

/// Why a join was rejected: the game has already started, or the room is at
/// its five-player capacity.
#[derive(Debug, Clone, Copy, PartialEq, Eq, Structural)]
pub enum JoinError {
    RoomInProgress,
    RoomFull,
}

/// The addressed room does not exist (or, for a view, the player does not).
#[derive(Debug, Clone, Copy, PartialEq, Eq, Structural)]
pub struct NotFound;

/// One registered room: its identifier and the game it owns.
#[derive(Debug)]
pub struct Room {
    pub id: String,
    pub game: Game,
}

/// The collection of all rooms. Created rooms are never removed.
#[derive(Debug)]
pub struct RoomRegistry {
    pub rooms: Vec<Room>,
}

/// `j` is the first position whose room carries identity `id`.
pub open spec fn room_found_at(rs: Seq<Room>, id: Seq<char>, j: int) -> bool {
    &&& 0 <= j < rs.len()
    &&& rs[j].id@ == id
    &&& forall|m: int| 0 <= m < j ==> rs[m].id@ != id
}

/// Some room carries identity `id`.
pub open spec fn has_room(rs: Seq<Room>, id: Seq<char>) -> bool {
    exists|j: int| room_found_at(rs, id, j)
}

/// A position whose id matches witnesses that the room exists.
pub proof fn lemma_room_match_found(rs: Seq<Room>, id: Seq<char>, i: int)
    requires
        0 <= i < rs.len(),
        rs[i].id@ == id,
    ensures
        has_room(rs, id),
    decreases i,
{
    if forall|m: int| 0 <= m < i ==> rs[m].id@ != id {
        assert(room_found_at(rs, id, i));
    } else {
        let m = choose|m: int| 0 <= m < i && rs[m].id@ == id;
        lemma_room_match_found(rs, id, m);
    }
}

/// Two first matches for the same room identity are the same position.
pub proof fn lemma_room_found_at_unique(rs: Seq<Room>, id: Seq<char>, a: int, b: int)
    requires
        room_found_at(rs, id, a),
        room_found_at(rs, id, b),
    ensures
        a == b,
{
    if a < b {
        assert(rs[a].id@ != id);
    } else if b < a {
        assert(rs[b].id@ != id);
    }
}

/// `post` is `pre` with one fresh (role-less, result-less) player appended
/// and nothing else changed.
pub open spec fn joined(pre: Game, post: Game, name: Seq<char>, pid: Seq<char>) -> bool {
    &&& post.players@.len() == pre.players@.len() + 1
    &&& forall|i: int| 0 <= i < pre.players@.len() ==> post.players@[i] == pre.players@[i]
    &&& post.players@.last().name@ == name
    &&& post.players@.last().id@ == pid
    &&& post.players@.last().role is None
    &&& post.players@.last().result is None
    &&& post.state == pre.state
    &&& post.investigations@ == pre.investigations@
}

/// A game that exists only because this call created it: a lobby holding
/// exactly the one player who just joined.
pub open spec fn fresh_room_game(g: Game, name: Seq<char>, pid: Seq<char>) -> bool {
    &&& g.state == GameState::Lobby
    &&& g.players@.len() == 1
    &&& g.players@[0].name@ == name
    &&& g.players@[0].id@ == pid
    &&& g.players@[0].role is None
    &&& g.players@[0].result is None
    &&& g.investigations@.len() == 0
}

/// What `RoomRegistry::create_or_join_room` does, for every combination of a
/// given or generated room id, an existing or missing room, and the two join
/// rejections. Rooms other than the addressed one are never touched.
pub open spec fn create_or_join_post(
    pre: RoomRegistry,
    post: RoomRegistry,
    room_id: Option<String>,
    name: String,
    r: Result<(String, String), JoinError>,
) -> bool {
    let rs = pre.rooms@;
    match room_id {
        Some(rid) => {
            &&& (!has_room(rs, rid@) ==> {
                &&& r matches Ok(ids) && ids.0@ == rid@ && ids.1@.len() == 4
                    && post.rooms@.len() == rs.len() + 1 && post.rooms@.last().id@ == rid@
                    && fresh_room_game(post.rooms@.last().game, name@, ids.1@)
                &&& forall|i: int| 0 <= i < rs.len() ==> post.rooms@[i] == rs[i]
            })
            &&& forall|j: int|
                #![trigger room_found_at(rs, rid@, j)]
                room_found_at(rs, rid@, j) ==> {
                    &&& rs[j].game.state == GameState::Playing ==> {
                        &&& r matches Err(JoinError::RoomInProgress)
                        &&& post == pre
                    }
                    &&& (rs[j].game.state != GameState::Playing && rs[j].game.players@.len()
                        >= 5) ==> {
                        &&& r matches Err(JoinError::RoomFull)
                        &&& post == pre
                    }
                    &&& (rs[j].game.state != GameState::Playing && rs[j].game.players@.len()
                        < 5) ==> {
                        &&& r matches Ok(ids) && ids.0@ == rid@ && ids.1@.len() == 4
                            && joined(rs[j].game, post.rooms@[j].game, name@, ids.1@)
                        &&& post.rooms@.len() == rs.len()
                        &&& post.rooms@[j].id == rs[j].id
                        &&& forall|i: int|
                            0 <= i < rs.len() && i != j ==> post.rooms@[i] == rs[i]
                    }
                }
        },
        None => {
            &&& r matches Ok(ids) && ids.0@.len() == 4 && ids.1@.len() == 4 && {
                &&& !has_room(rs, ids.0@) ==> {
                    &&& post.rooms@.len() == rs.len() + 1
                    &&& post.rooms@.last().id@ == ids.0@
                    &&& fresh_room_game(post.rooms@.last().game, name@, ids.1@)
                    &&& forall|i: int| 0 <= i < rs.len() ==> post.rooms@[i] == rs[i]
                }
                &&& forall|j: int|
                    #![trigger room_found_at(rs, ids.0@, j)]
                    room_found_at(rs, ids.0@, j) ==> {
                        &&& post.rooms@.len() == rs.len()
                        &&& post.rooms@[j].id == rs[j].id
                        &&& fresh_room_game(post.rooms@[j].game, name@, ids.1@)
                        &&& forall|i: int|
                            0 <= i < rs.len() && i != j ==> post.rooms@[i] == rs[i]
                    }
            }
        },
    }
}

/// Relies on `rand::distributions::DistString::sample_string` with the
/// `Alphanumeric` distribution: it returns a string of exactly the requested
/// number of (one-byte, alphanumeric) characters. The characters themselves
/// are random, so nothing is stated about them.
#[verifier::external_body]
fn random_id() -> (r: String)
    ensures
        r@.len() == 4,
{
    rand::distributions::DistString::sample_string(
        &rand::distributions::Alphanumeric,
        &mut rand::thread_rng(),
        4,
    )
}

impl RoomRegistry {
    /// Every room id occurs once, and every room's game is structurally
    /// sound.
    pub open spec fn wf(&self) -> bool {
        &&& forall|i: int, j: int|
            0 <= i < j < self.rooms@.len() ==> self.rooms@[i].id@ != self.rooms@[j].id@
        &&& forall|i: int|
            #![trigger self.rooms@[i]]
            0 <= i < self.rooms@.len() ==> self.rooms@[i].game.wf()
    }

    /// An empty registry.
    pub fn new() -> (r: RoomRegistry)
        ensures
            r.rooms@.len() == 0,
            r.wf(),
    {
        RoomRegistry { rooms: Vec::new() }
    }

    /// Linear scan for the first room carrying `id`.
    fn find_room(rooms: &Vec<Room>, id: &String) -> (r: Option<usize>)
        ensures
            match r {
                Some(j) => room_found_at(rooms@, id@, j as int),
                None => !has_room(rooms@, id@),
            },
    {
        let n = rooms.len();
        let mut j: usize = 0;
        while j < n
            invariant
                j <= n,
                n == rooms@.len(),
                forall|m: int| 0 <= m < j ==> rooms@[m].id@ != id@,
            decreases n - j,
        {
            if rooms[j].id == *id {
                return Some(j);
            }
            j += 1;
        }
        None
    }

    /// Exclusive access to an existing room's game, or nothing.
    pub fn get(&self, id: &String) -> (r: Option<&Game>)
        ensures
            match r {
                Some(g) => exists|j: int|
                    room_found_at(self.rooms@, id@, j) && *g == self.rooms@[j].game,
                None => !has_room(self.rooms@, id@),
            },
    {
        match Self::find_room(&self.rooms, id) {
            Some(j) => Some(&self.rooms[j].game),
            None => None,
        }
    }

    /// Joins a room as a new player. With no room id given, a fresh random id
    /// is generated and a new room created under it (silently replacing any
    /// room that already had that id — id collisions are not checked). With a
    /// given id, the room is created on first reference. Joining is refused
    /// while a game is running (`RoomInProgress`) or at five players
    /// (`RoomFull`); otherwise the new player's fresh random id is returned
    /// beside the room id.
    pub fn create_or_join_room(&mut self, room_id: Option<String>, player_name: String) -> (r:
        Result<(String, String), JoinError>)
        requires
            old(self).wf(),
        ensures
            final(self).wf(),
            create_or_join_post(*old(self), *final(self), room_id, player_name, r),
    {
        let ghost rs = old(self).rooms@;
        let (rid, j): (String, usize) = match room_id {
            None => {
                let rid = random_id();
                match Self::find_room(&self.rooms, &rid) {
                    Some(j) => {
                        self.rooms[j].game = Game::default();
                        (rid, j)
                    },
                    None => {
                        let j = self.rooms.len();
                        self.rooms.push(Room { id: rid.clone(), game: Game::default() });
                        (rid, j)
                    },
                }
            },
            Some(rid) => {
                match Self::find_room(&self.rooms, &rid) {
                    Some(j) => (rid, j),
                    None => {
                        let j = self.rooms.len();
                        self.rooms.push(Room { id: rid.clone(), game: Game::default() });
                        (rid, j)
                    },
                }
            },
        };

        proof {
            assert forall|a: int, b: int|
                room_found_at(rs, rid@, a) && room_found_at(rs, rid@, b) implies a == b by {
                lemma_room_found_at_unique(rs, rid@, a, b);
            }
            assert forall|i: int|
                0 <= i < rs.len() && rs[i].id@ == rid@ implies has_room(rs, rid@) by {
                lemma_room_match_found(rs, rid@, i);
            }
        }
        if matches!(self.rooms[j].game.state, GameState::Playing) {
            return Err(JoinError::RoomInProgress);
        }
        if self.rooms[j].game.players.len() >= 5 {
            return Err(JoinError::RoomFull);
        }
        let pid = random_id();
        let player = Player::new(player_name, pid.clone());
        self.rooms[j].game.players.push(player);
        Ok((rid, pid))
    }

    /// Starts (or restarts) the round of an existing room: roles are dealt
    /// anew and all results wiped, as `start_post` describes. Every other
    /// room is untouched.
    pub fn start_round(&mut self, room_id: &String) -> (r: Result<(), NotFound>)
        requires
            old(self).wf(),
        ensures
            final(self).wf(),
            !has_room(old(self).rooms@, room_id@) ==> r is Err && *final(self) == *old(self),
            forall|j: int|
                #![trigger room_found_at(old(self).rooms@, room_id@, j)]
                room_found_at(old(self).rooms@, room_id@, j) ==> {
                    &&& r is Ok
                    &&& final(self).rooms@.len() == old(self).rooms@.len()
                    &&& final(self).rooms@[j].id == old(self).rooms@[j].id
                    &&& start_post(old(self).rooms@[j].game, final(self).rooms@[j].game)
                    &&& forall|i: int|
                        0 <= i < old(self).rooms@.len() && i != j ==> final(self).rooms@[i]
                            == old(self).rooms@[i]
                },
    {
        let j = match Self::find_room(&self.rooms, room_id) {
            Some(j) => j,
            None => { return Err(NotFound) },
        };
        self.rooms[j].game.start();
        Ok(())
    }

    /// Forwards one investigation choice to an existing room's game, which
    /// resolves the round if this choice completes it, as `investigate_post`
    /// describes. Every other room is untouched.
    pub fn submit_investigation(
        &mut self,
        room_id: &String,
        investigator_id: String,
        investigatee_id: String,
    ) -> (r: Result<(), NotFound>)
        requires
            old(self).wf(),
            forall|j: int|
                #![trigger room_found_at(old(self).rooms@, room_id@, j)]
                room_found_at(old(self).rooms@, room_id@, j) ==> investigate_pre(
                    old(self).rooms@[j].game,
                    investigator_id@,
                    investigatee_id@,
                ),
        ensures
            final(self).wf(),
            !has_room(old(self).rooms@, room_id@) ==> r is Err && *final(self) == *old(self),
            forall|j: int|
                #![trigger room_found_at(old(self).rooms@, room_id@, j)]
                room_found_at(old(self).rooms@, room_id@, j) ==> {
                    &&& r is Ok
                    &&& final(self).rooms@.len() == old(self).rooms@.len()
                    &&& final(self).rooms@[j].id == old(self).rooms@[j].id
                    &&& investigate_post(
                        old(self).rooms@[j].game,
                        final(self).rooms@[j].game,
                        investigator_id@,
                        investigatee_id@,
                    )
                    &&& forall|i: int|
                        0 <= i < old(self).rooms@.len() && i != j ==> final(self).rooms@[i]
                            == old(self).rooms@[i]
                },
    {
        let j = match Self::find_room(&self.rooms, room_id) {
            Some(j) => j,
            None => { return Err(NotFound) },
        };
        self.rooms[j].game.investigate(investigator_id, investigatee_id);
        Ok(())
    }

    /// True exactly when `submit_investigation` with these arguments is
    /// defined on this registry: either the room is missing (the submission
    /// would report `NotFound`) or its game accepts the submission. Callers
    /// that cannot establish that precondition themselves test it with this
    /// before they submit.
    pub fn submit_allowed(
        &self,
        room_id: &String,
        investigator_id: &String,
        investigatee_id: &String,
    ) -> (b: bool)
        requires
            self.wf(),
        ensures
            b == (forall|j: int|
                #![trigger room_found_at(self.rooms@, room_id@, j)]
                room_found_at(self.rooms@, room_id@, j) ==> investigate_pre(
                    self.rooms@[j].game,
                    investigator_id@,
                    investigatee_id@,
                )),
    {
        match Self::find_room(&self.rooms, room_id) {
            Some(j) => {
                let b = self.rooms[j].game.investigate_allowed(investigator_id, investigatee_id);
                proof {
                    assert forall|a: int|
                        room_found_at(self.rooms@, room_id@, a) implies a == j as int by {
                        lemma_room_found_at_unique(self.rooms@, room_id@, a, j as int);
                    }
                }
                b
            },
            None => true,
        }
    }

    /// What an existing room currently looks like to the given player, as
    /// `view_post` describes; `NotFound` if the room or the player is
    /// unknown.
    pub fn get_view(&self, room_id: &String, player_id: &String) -> (r: Result<
        PlayerView,
        NotFound,
    >)
        requires
            self.wf(),
        ensures
            !has_room(self.rooms@, room_id@) ==> r is Err,
            forall|j: int|
                #![trigger room_found_at(self.rooms@, room_id@, j)]
                room_found_at(self.rooms@, room_id@, j) ==> {
                    &&& !has_player(self.rooms@[j].game.players@, player_id@) ==> r is Err
                    &&& has_player(self.rooms@[j].game.players@, player_id@) ==> (r matches Ok(
                        v,
                    ) && view_post(self.rooms@[j].game, room_id@, player_id@, v))
                },
    {
        let j = match Self::find_room(&self.rooms, room_id) {
            Some(j) => j,
            None => { return Err(NotFound) },
        };
        match self.rooms[j].game.view_for(room_id, player_id) {
            Some(v) => Ok(v),
            None => Err(NotFound),
        }
    }
}

} // verus!

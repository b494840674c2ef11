//! The game engine for a single room: secret role assignment and the
//! simultaneous resolution of one round of investigations.

use vstd::prelude::*;

verus! {

// ---------------------------------------------------------------------------
// Roles and results
// ---------------------------------------------------------------------------

/// The secret role a player holds for the lifetime of one started game.
#[derive(Debug, Clone, Copy, PartialEq, Eq, Structural)]
pub enum Role {
    /// Picks the round's kill target instead of receiving a verdict.
    Mafia,
    Paranoid,
    Naive,
    Good,
    Bad,
}

impl Role {
    /// Detective-aligned means any role other than `Mafia`.
    pub open spec fn spec_is_detective(self) -> bool {
        self != Role::Mafia
    }

    #[verifier::when_used_as_spec(spec_is_detective)]
    pub fn is_detective(self) -> (r: bool)
        ensures
            r == self.spec_is_detective(),
    {
        !matches!(self, Role::Mafia)
    }
}

/// The outcome a player carries after the most recent resolved round.
#[derive(Debug, Clone, Copy, PartialEq, Eq, Structural)]
pub enum InvestigateResult {
    YouThinkMafia,
    YouThinkDetective,
    TheyDied,
    YouAreDead,
}

/// Whether a room still accepts joins (`Lobby`) or a game is running.
#[derive(Debug, Clone, Copy, PartialEq, Eq, Structural)]
pub enum GameState {
    Lobby,
    Playing,
}

// ---------------------------------------------------------------------------
// The fixed role catalog
// ---------------------------------------------------------------------------

/// The ordered catalog of the five distinct roles. A game with `n` players
/// draws from the first `min(n, 5)` entries of this sequence.
pub open spec fn role_catalog() -> Seq<Role> {
    seq![Role::Mafia, Role::Good, Role::Bad, Role::Paranoid, Role::Naive]
}

/// How many times role `r` occurs in `s`.
pub open spec fn count_role(s: Seq<Role>, r: Role) -> nat
    decreases s.len(),
{
    if s.len() == 0 {
        0
    } else {
        (if s[0] == r {
            1nat
        } else {
            0nat
        }) + count_role(s.drop_first(), r)
    }
}

/// Builds the truncated catalog as a vector.
fn role_prefix(k: usize) -> (v: Vec<Role>)
    requires
        k <= 5,
    ensures
        v@ == role_catalog().take(k as int),
{
    let mut v: Vec<Role> = Vec::new();
    if k >= 1 {
        v.push(Role::Mafia);
    }
    if k >= 2 {
        v.push(Role::Good);
    }
    if k >= 3 {
        v.push(Role::Bad);
    }
    if k >= 4 {
        v.push(Role::Paranoid);
    }
    if k >= 5 {
        v.push(Role::Naive);
    }
    proof {
        assert(v@ =~= role_catalog().take(k as int));
    }
    v
}

// ---------------------------------------------------------------------------
// Players
// ---------------------------------------------------------------------------

/// One seat in a room. The position of a player in `Game::players` is the
/// stable index space used by investigations; the `id` string is the opaque
/// identity shown to the outside.
#[derive(Debug)]
pub struct Player {
    pub name: String,
    pub id: String,
    pub role: Option<Role>,
    pub result: Option<InvestigateResult>,
}

impl Player {
    /// A player is dead exactly when their current result says so; the
    /// resolution algorithm never overwrites that value.
    pub open spec fn spec_is_dead(&self) -> bool {
        self.result == Some(InvestigateResult::YouAreDead)
    }

    pub fn new(name: String, id: String) -> (p: Player)
        ensures
            p.name == name,
            p.id == id,
            p.role is None,
            p.result is None,
    {
        Player { name, id, role: None, result: None }
    }

    #[verifier::when_used_as_spec(spec_is_dead)]
    pub fn is_dead(&self) -> (r: bool)
        ensures
            r == self.spec_is_dead(),
    {
        matches!(self.result, Some(InvestigateResult::YouAreDead))
    }
}

// ---------------------------------------------------------------------------
// Counting lemmas
// ---------------------------------------------------------------------------

/// In a sequence of pairwise distinct roles, no role occurs more than once.
proof fn lemma_count_distinct(s: Seq<Role>, r: Role)
    requires
        forall|i: int, j: int| 0 <= i < j < s.len() ==> s[i] != s[j],
    ensures
        count_role(s, r) <= 1,
    decreases s.len(),
{
    if s.len() > 0 {
        let t = s.drop_first();
        assert(forall|i: int, j: int| 0 <= i < j < t.len() ==> t[i] != t[j]);
        lemma_count_distinct(t, r);
        if s[0] == r {
            lemma_count_absent(t, r);
        }
    }
}

/// A role absent from every position has count zero, and conversely.
proof fn lemma_count_absent(s: Seq<Role>, r: Role)
    ensures
        count_role(s, r) == 0 <==> (forall|i: int| 0 <= i < s.len() ==> s[i] != r),
    decreases s.len(),
{
    if s.len() > 0 {
        lemma_count_absent(s.drop_first(), r);
        assert(forall|i: int| 1 <= i < s.len() ==> s[i] == s.drop_first()[i - 1]);
    }
}

/// A role that occurs at some position has positive count.
proof fn lemma_count_present(s: Seq<Role>, r: Role, i: int)
    requires
        0 <= i < s.len(),
        s[i] == r,
    ensures
        count_role(s, r) >= 1,
{
    lemma_count_absent(s, r);
}

/// A role with count at most one occurs at no two distinct positions.
proof fn lemma_count_at_most_one(s: Seq<Role>, r: Role, i: int, j: int)
    requires
        count_role(s, r) <= 1,
        0 <= i < j < s.len(),
        s[i] == r,
    ensures
        s[j] != r,
    decreases s.len(),
{
    let t = s.drop_first();
    if i == 0 {
        lemma_count_absent(t, r);
        assert(t[j - 1] == s[j]);
    } else {
        lemma_count_at_most_one(t, r, i - 1, j - 1);
    }
}

// ---------------------------------------------------------------------------
// The game aggregate
// ---------------------------------------------------------------------------

/// One play session. `players` is ordered by join order and that order is the
/// index space of `investigations`: slot `i` holds the target position that
/// player `i` chose this round, or nothing if they have not chosen yet.
#[derive(Debug)]
pub struct Game {
    pub players: Vec<Player>,
    pub state: GameState,
    pub investigations: Vec<Option<usize>>,
}

/// Whether this player holds the `Mafia` role.
pub open spec fn is_mafia(p: Player) -> bool {
    p.role == Some(Role::Mafia)
}

/// Exactly one position holds the `Mafia` role.
pub open spec fn unique_mafia(ps: Seq<Player>) -> bool {
    exists|j: int|
        0 <= j < ps.len() && is_mafia(ps[j]) && (forall|m: int|
            0 <= m < ps.len() && m != j ==> !is_mafia(ps[m]))
}

/// `j` is the first (and, in a well-formed game, the only) position holding
/// the `Mafia` role.
pub open spec fn mafia_at(ps: Seq<Player>, j: int) -> bool {
    &&& 0 <= j < ps.len()
    &&& is_mafia(ps[j])
    &&& forall|m: int| 0 <= m < j ==> !is_mafia(ps[m])
}

/// The sequence of assigned roles, position by position.
pub open spec fn assigned_roles(ps: Seq<Player>) -> Seq<Role> {
    Seq::new(ps.len(), |i: int| ps[i].role.unwrap())
}

impl Game {
    /// Structural soundness of one session. Rooms hold at most five players;
    /// once a game is running, the investigation slots are aligned with the
    /// players, recorded targets are in range, every player has a role, and
    /// exactly one player holds `Mafia`.
    pub open spec fn wf(&self) -> bool {
        &&& self.players@.len() <= 5
        &&& self.state == GameState::Playing ==> {
            &&& self.investigations@.len() == self.players@.len()
            &&& forall|i: int|
                0 <= i < self.investigations@.len() && self.investigations@[i] is Some
                    ==> (self.investigations@[i].unwrap() as int) < self.players@.len()
            &&& forall|i: int| 0 <= i < self.players@.len() ==> self.players@[i].role is Some
            &&& self.players@.len() >= 1 ==> unique_mafia(self.players@)
        }
    }
}

impl Default for Game {
    /// An empty room in the lobby, accepting joins.
    fn default() -> (g: Game)
        ensures
            g.players@ == Seq::<Player>::empty(),
            g.state == GameState::Lobby,
            g.investigations@ == Seq::<Option<usize>>::empty(),
            g.wf(),
    {
        Game { players: Vec::new(), state: GameState::Lobby, investigations: Vec::new() }
    }
}

// ---------------------------------------------------------------------------
// Role assignment
// ---------------------------------------------------------------------------

/// Relies on `rand::seq::SliceRandom::shuffle`: it permutes the slice in
/// place, so every role keeps exactly its old number of occurrences. Which
/// permutation comes out is random, so nothing more is stated.
#[verifier::external_body]
fn shuffle_roles(v: &mut Vec<Role>)
    ensures
        final(v)@.len() == old(v)@.len(),
        forall|r: Role| count_role(final(v)@, r) == count_role(old(v)@, r),
{
    rand::seq::SliceRandom::shuffle(v.as_mut_slice(), &mut rand::thread_rng());
}

/// What `Game::start` does: the game is running, all slots and results are
/// cleared, names and ids are kept, and the first `players.len()` entries of
/// the role catalog are dealt out in some order, so roles are pairwise
/// distinct with exactly one `Mafia`.
pub open spec fn start_post(pre: Game, post: Game) -> bool {
    let n = pre.players@.len() as int;
    &&& post.players@.len() == n
    &&& post.state == GameState::Playing
    &&& post.investigations@.len() == n
    &&& forall|i: int| 0 <= i < n ==> post.investigations@[i] is None
    &&& forall|i: int|
        #![trigger post.players@[i]]
        0 <= i < n ==> {
            &&& post.players@[i].name == pre.players@[i].name
            &&& post.players@[i].id == pre.players@[i].id
            &&& post.players@[i].result is None
            &&& post.players@[i].role is Some
        }
    &&& forall|r: Role|
        count_role(assigned_roles(post.players@), r) == count_role(role_catalog().take(n), r)
    &&& forall|i: int, j: int|
        0 <= i < j < n ==> post.players@[i].role != post.players@[j].role
    &&& n >= 1 ==> unique_mafia(post.players@)
}

// ---------------------------------------------------------------------------
// Looking players up by id
// ---------------------------------------------------------------------------

/// `j` is the first position whose player carries identity `id`.
pub open spec fn found_at(ps: Seq<Player>, id: Seq<char>, j: int) -> bool {
    &&& 0 <= j < ps.len()
    &&& ps[j].id@ == id
    &&& forall|m: int| 0 <= m < j ==> ps[m].id@ != id
}

/// Some position carries identity `id`.
pub open spec fn has_player(ps: Seq<Player>, id: Seq<char>) -> bool {
    exists|j: int| found_at(ps, id, j)
}

/// Two first matches for the same identity are the same position.
pub proof fn lemma_found_at_unique(ps: Seq<Player>, id: Seq<char>, a: int, b: int)
    requires
        found_at(ps, id, a),
        found_at(ps, id, b),
    ensures
        a == b,
{
    if a < b {
        assert(ps[a].id@ != id);
    } else if b < a {
        assert(ps[b].id@ != id);
    }
}

/// Two first matches for the mafia role are the same position.
pub proof fn lemma_mafia_at_unique(ps: Seq<Player>, a: int, b: int)
    requires
        mafia_at(ps, a),
        mafia_at(ps, b),
    ensures
        a == b,
{
    if a < b {
        assert(!is_mafia(ps[a]));
    } else if b < a {
        assert(!is_mafia(ps[b]));
    }
}

// ---------------------------------------------------------------------------
// Round resolution, as a mathematical function
// ---------------------------------------------------------------------------

/// Every living player has a recorded target; dead players are exempt and
/// never need to submit.
pub open spec fn all_living_submitted(ps: Seq<Player>, inv: Seq<Option<usize>>) -> bool {
    forall|i: int| 0 <= i < ps.len() ==> ps[i].spec_is_dead() || inv[i] is Some
}

/// `inv` with the choice of investigator `pi` set to target `ti`.
pub open spec fn record(inv: Seq<Option<usize>>, pi: int, ti: int) -> Seq<Option<usize>> {
    inv.update(pi, Some(ti as usize))
}

/// The role-based verdict table, ignoring deaths. `Paranoid` and `Naive`
/// report a fixed answer, `Good` reports the target accurately, `Bad` reports
/// the opposite. The `Mafia` arm is never consulted: the mafia holder
/// receives no verdict.
pub open spec fn verdict(investigator: Role, target: Role) -> InvestigateResult {
    match investigator {
        Role::Paranoid => InvestigateResult::YouThinkMafia,
        Role::Naive => InvestigateResult::YouThinkDetective,
        Role::Good => if target.spec_is_detective() {
            InvestigateResult::YouThinkDetective
        } else {
            InvestigateResult::YouThinkMafia
        },
        Role::Bad => if target.spec_is_detective() {
            InvestigateResult::YouThinkMafia
        } else {
            InvestigateResult::YouThinkDetective
        },
        Role::Mafia => InvestigateResult::YouThinkMafia,
    }
}

/// The players after the mafia's kill: the victim's result becomes
/// `YouAreDead` unconditionally (idempotent if already dead).
pub open spec fn after_kill(ps: Seq<Player>, victim: int) -> Seq<Player> {
    ps.update(victim, Player { result: Some(InvestigateResult::YouAreDead), ..ps[victim] })
}

/// One full resolution pass over a round whose choices are `inv`, with the
/// mafia at position `m`: first the kill, then a verdict for every player who
/// is still alive afterwards and is not the mafia holder. A dead target
/// overrides the role-based verdict with `TheyDied`.
pub open spec fn resolve(ps: Seq<Player>, inv: Seq<Option<usize>>, m: int) -> Seq<Player> {
    let killed = after_kill(ps, inv[m].unwrap() as int);
    Seq::new(
        ps.len(),
        |i: int|
            if killed[i].spec_is_dead() || is_mafia(killed[i]) {
                killed[i]
            } else {
                let t = inv[i].unwrap() as int;
                let v = if killed[t].spec_is_dead() {
                    InvestigateResult::TheyDied
                } else {
                    verdict(killed[i].role.unwrap(), killed[t].role.unwrap())
                };
                Player { result: Some(v), ..killed[i] }
            },
    )
}

/// Resolution only rewrites results: names, ids and roles survive, and so
/// does every death, because no verdict value is `YouAreDead`.
pub proof fn lemma_resolve_frame(ps: Seq<Player>, inv: Seq<Option<usize>>, m: int)
    requires
        0 <= m < ps.len(),
        inv.len() == ps.len(),
        inv[m] is Some,
        (inv[m].unwrap() as int) < ps.len(),
    ensures
        resolve(ps, inv, m).len() == ps.len(),
        forall|i: int|
            #![trigger resolve(ps, inv, m)[i]]
            0 <= i < ps.len() ==> {
                let k = after_kill(ps, inv[m].unwrap() as int);
                &&& resolve(ps, inv, m)[i].role == k[i].role
                &&& resolve(ps, inv, m)[i].name == k[i].name
                &&& resolve(ps, inv, m)[i].id == k[i].id
                &&& (resolve(ps, inv, m)[i].spec_is_dead() <==> k[i].spec_is_dead())
            },
{
    let k = after_kill(ps, inv[m].unwrap() as int);
    assert forall|i: int| 0 <= i < ps.len() implies {
        &&& resolve(ps, inv, m)[i].role == k[i].role
        &&& resolve(ps, inv, m)[i].name == k[i].name
        &&& resolve(ps, inv, m)[i].id == k[i].id
        &&& (resolve(ps, inv, m)[i].spec_is_dead() <==> k[i].spec_is_dead())
    } by {
        if !(k[i].spec_is_dead() || is_mafia(k[i])) {
            let t = inv[i].unwrap() as int;
            if !k[t].spec_is_dead() {
                let v = verdict(k[i].role.unwrap(), k[t].role.unwrap());
                assert(v != InvestigateResult::YouAreDead);
            }
        }
    }
}

/// The five catalog entries are pairwise distinct.
proof fn lemma_catalog_distinct()
    ensures
        forall|i: int, j: int| 0 <= i < j < 5 ==> role_catalog()[i] != role_catalog()[j],
{
    assert(role_catalog()[0] == Role::Mafia);
    assert(role_catalog()[1] == Role::Good);
    assert(role_catalog()[2] == Role::Bad);
    assert(role_catalog()[3] == Role::Paranoid);
    assert(role_catalog()[4] == Role::Naive);
}

/// A role with positive count occurs at some position.
proof fn lemma_count_witness(s: Seq<Role>, r: Role)
    requires
        count_role(s, r) >= 1,
    ensures
        exists|i: int| 0 <= i < s.len() && s[i] == r,
    decreases s.len(),
{
    if s[0] == r {
        assert(0 <= 0 < s.len() && s[0] == r);
    } else {
        lemma_count_witness(s.drop_first(), r);
        let w = choose|i: int| 0 <= i < s.drop_first().len() && s.drop_first()[i] == r;
        assert(0 <= w + 1 < s.len() && s[w + 1] == r);
    }
}

impl Game {
    /// Deals the truncated role catalog out at random (role assignment), wipes
    /// every result, and opens the first round with all investigation slots
    /// empty. Calling this on a running game reshuffles roles and discards all
    /// current results.
    pub fn start(&mut self)
        requires
            old(self).players@.len() <= 5,
        ensures
            start_post(*old(self), *final(self)),
            final(self).wf(),
    {
        let n = self.players.len();
        let mut roles = role_prefix(n);
        shuffle_roles(&mut roles);
        let ghost prefix = role_catalog().take(n as int);

        let mut i: usize = 0;
        while i < n
            invariant
                i <= n,
                n == self.players@.len(),
                roles@.len() == n,
                self.investigations == old(self).investigations,
                self.state == old(self).state,
                forall|m: int|
                    #![trigger self.players@[m]]
                    0 <= m < i ==> {
                        &&& self.players@[m].role == Some(roles@[m])
                        &&& self.players@[m].result is None
                        &&& self.players@[m].name == old(self).players@[m].name
                        &&& self.players@[m].id == old(self).players@[m].id
                    },
                forall|m: int| i <= m < n ==> self.players@[m] == old(self).players@[m],
            decreases n - i,
        {
            self.players[i].role = Some(roles[i]);
            self.players[i].result = None;
            i += 1;
        }

        self.state = GameState::Playing;

        let ghost assigned = self.players@;
        let mut inv: Vec<Option<usize>> = Vec::new();
        let mut j: usize = 0;
        while j < n
            invariant
                j <= n,
                inv@.len() == j,
                forall|m: int| 0 <= m < j ==> inv@[m] is None,
                self.players@ == assigned,
                self.state == GameState::Playing,
            decreases n - j,
        {
            inv.push(None);
            j += 1;
        }
        self.investigations = inv;

        proof {
            assert(assigned_roles(self.players@) =~= roles@);
            lemma_catalog_distinct();
            assert(forall|a: int, b: int| 0 <= a < b < prefix.len() ==> prefix[a] != prefix[b]);
            assert forall|r: Role| count_role(prefix, r) <= 1 by {
                lemma_count_distinct(prefix, r);
            }
            assert forall|a: int, b: int|
                0 <= a < b < n as int implies self.players@[a].role != self.players@[b].role by {
                let ra = roles@[a];
                if self.players@[a].role == self.players@[b].role {
                    lemma_count_distinct(prefix, ra);
                    lemma_count_at_most_one(roles@, ra, a, b);
                }
            }
            if n >= 1 {
                lemma_count_present(prefix, Role::Mafia, 0);
                lemma_count_distinct(prefix, Role::Mafia);
                lemma_count_witness(roles@, Role::Mafia);
                let w = choose|i: int| 0 <= i < roles@.len() && roles@[i] == Role::Mafia;
                assert forall|m: int|
                    0 <= m < n as int && m != w implies !is_mafia(self.players@[m]) by {
                    if roles@[m] == Role::Mafia {
                        if m < w {
                            lemma_count_at_most_one(roles@, Role::Mafia, m, w);
                        } else {
                            lemma_count_at_most_one(roles@, Role::Mafia, w, m);
                        }
                    }
                }
                assert(is_mafia(self.players@[w]));
                assert(unique_mafia(self.players@));
            }
        }
    }
}

// ---------------------------------------------------------------------------
// Submitting an investigation
// ---------------------------------------------------------------------------

/// The inputs on which `Game::investigate` is defined. Beyond structural
/// soundness: when both ids resolve, the game must be running, and a call
/// that completes the round must find the mafia's own choice recorded —
/// the one situation that violates this is a round played on after the mafia
/// holder has died, which this engine does not support.
pub open spec fn investigate_pre(g: Game, iid: Seq<char>, tid: Seq<char>) -> bool {
    &&& g.wf()
    &&& has_player(g.players@, iid) && has_player(g.players@, tid) ==> {
        &&& g.state == GameState::Playing
        &&& forall|pi: int, ti: int, m: int|
            #![trigger found_at(g.players@, iid, pi), found_at(g.players@, tid, ti), mafia_at(g.players@, m)]
            found_at(g.players@, iid, pi) && found_at(g.players@, tid, ti) && mafia_at(
                g.players@,
                m,
            ) && all_living_submitted(g.players@, record(g.investigations@, pi, ti)) ==> record(
                g.investigations@,
                pi,
                ti,
            )[m] is Some
    }
}

/// What `Game::investigate` does. An id that resolves to no player makes the
/// call a silent no-op. Otherwise the investigator's slot is overwritten with
/// the target's position; if some living player is then still undecided the
/// round simply waits, and if not, the round resolves in this same call and
/// all slots are cleared for the next round.
pub open spec fn investigate_post(pre: Game, post: Game, iid: Seq<char>, tid: Seq<char>) -> bool {
    let ps = pre.players@;
    let inv = pre.investigations@;
    &&& (!has_player(ps, iid) || !has_player(ps, tid)) ==> post == pre
    &&& forall|pi: int, ti: int|
        #![trigger found_at(ps, iid, pi), found_at(ps, tid, ti)]
        found_at(ps, iid, pi) && found_at(ps, tid, ti) ==> {
            let rec = record(inv, pi, ti);
            &&& !all_living_submitted(ps, rec) ==> {
                &&& post.players@ == ps
                &&& post.state == pre.state
                &&& post.investigations@ == rec
            }
            &&& all_living_submitted(ps, rec) ==> {
                &&& forall|m: int| mafia_at(ps, m) ==> post.players@ == resolve(ps, rec, m)
                &&& post.state == pre.state
                &&& post.investigations@.len() == ps.len()
                &&& forall|i: int| 0 <= i < ps.len() ==> post.investigations@[i] is None
            }
        }
}

/// Linear scan for the first player carrying `id`.
fn find_index(players: &Vec<Player>, id: &String) -> (r: Option<usize>)
    ensures
        match r {
            Some(j) => found_at(players@, id@, j as int),
            None => !has_player(players@, id@),
        },
{
    let n = players.len();
    let mut j: usize = 0;
    while j < n
        invariant
            j <= n,
            n == players@.len(),
            forall|m: int| 0 <= m < j ==> players@[m].id@ != id@,
        decreases n - j,
    {
        if players[j].id == *id {
            return Some(j);
        }
        j += 1;
    }
    None
}

/// Linear scan for the first player holding `Mafia`.
fn find_mafia(players: &Vec<Player>) -> (r: usize)
    requires
        exists|j: int| 0 <= j < players@.len() && is_mafia(players@[j]),
    ensures
        mafia_at(players@, r as int),
{
    let n = players.len();
    let mut j: usize = 0;
    while j < n
        invariant
            j <= n,
            n == players@.len(),
            forall|m: int| 0 <= m < j ==> !is_mafia(players@[m]),
            exists|k: int| 0 <= k < players@.len() && is_mafia(players@[k]),
        decreases n - j,
    {
        if matches!(players[j].role, Some(Role::Mafia)) {
            return j;
        }
        j += 1;
    }
    proof {
        let k = choose|k: int| 0 <= k < players@.len() && is_mafia(players@[k]);
        assert(!is_mafia(players@[k]));
    }
    0
}

impl Game {
    /// Records one investigation choice and, when every living player has
    /// then chosen, resolves the whole round synchronously before returning.
    /// Ids that resolve to no current player make the call a silent no-op.
    pub fn investigate(&mut self, investigator_id: String, investigatee_id: String)
        requires
            investigate_pre(*old(self), investigator_id@, investigatee_id@),
        ensures
            investigate_post(*old(self), *final(self), investigator_id@, investigatee_id@),
            final(self).wf(),
    {
        let ghost ps = old(self).players@;
        let pi = match find_index(&self.players, &investigator_id) {
            Some(i) => i,
            None => { return ; },
        };
        let ti = match find_index(&self.players, &investigatee_id) {
            Some(i) => i,
            None => { return ; },
        };
        proof {
            assert forall|a: int| found_at(ps, investigator_id@, a) implies a == pi as int by {
                lemma_found_at_unique(ps, investigator_id@, a, pi as int);
            }
            assert forall|a: int| found_at(ps, investigatee_id@, a) implies a == ti as int by {
                lemma_found_at_unique(ps, investigatee_id@, a, ti as int);
            }
        }

        self.investigations[pi] = Some(ti);
        let ghost rec = record(old(self).investigations@, pi as int, ti as int);
        let n = self.players.len();

        // Does any living player still lack a choice? Then the round waits.
        assert(forall|q: int|
            0 <= q < n && rec[q] is Some ==> (rec[q].unwrap() as int) < n as int);
        let mut j: usize = 0;
        while j < n
            invariant
                j <= n,
                n == self.players@.len(),
                self.players@ == ps,
                self.state == old(self).state,
                self.investigations@ == rec,
                rec.len() == n,
                investigate_pre(*old(self), investigator_id@, investigatee_id@),
                old(self).players@ == ps,
                found_at(ps, investigator_id@, pi as int),
                found_at(ps, investigatee_id@, ti as int),
                rec == record(old(self).investigations@, pi as int, ti as int),
                forall|q: int|
                    0 <= q < n && rec[q] is Some ==> (rec[q].unwrap() as int) < n as int,
                forall|m: int| 0 <= m < j ==> ps[m].spec_is_dead() || rec[m] is Some,
            decreases n - j,
        {
            if !self.players[j].is_dead() && self.investigations[j].is_none() {
                proof {
                    assert(!(ps[j as int].spec_is_dead() || rec[j as int] is Some));
                    assert(!all_living_submitted(ps, rec));
                    assert forall|a: int| found_at(ps, investigator_id@, a) implies a == pi as int by {
                        lemma_found_at_unique(ps, investigator_id@, a, pi as int);
                    }
                    assert forall|a: int| found_at(ps, investigatee_id@, a) implies a == ti as int by {
                        lemma_found_at_unique(ps, investigatee_id@, a, ti as int);
                    }
                }
                return ;
            }
            j += 1;
        }
        assert(all_living_submitted(ps, rec));

        // The round is complete: first the mafia's kill.
        proof {
            let k = choose|k: int|
                0 <= k < ps.len() && is_mafia(ps[k]) && (forall|m: int|
                    0 <= m < ps.len() && m != k ==> !is_mafia(ps[m]));
            assert(0 <= k < self.players@.len() && is_mafia(self.players@[k]));
        }
        let m = find_mafia(&self.players);
        let victim = self.investigations[m].unwrap();
        assert((victim as int) < n as int);
        self.players[victim].result = Some(InvestigateResult::YouAreDead);
        let ghost killed = after_kill(ps, victim as int);
        assert(self.players@ =~= killed);
        let ghost resolved = resolve(ps, rec, m as int);
        proof {
            lemma_resolve_frame(ps, rec, m as int);
        }

        // Then a verdict for every player still alive, in player order.
        let mut i: usize = 0;
        while i < n
            invariant
                i <= n,
                n == self.players@.len(),
                self.investigations@ == rec,
                rec.len() == n,
                killed == after_kill(ps, rec[m as int].unwrap() as int),
                resolved == resolve(ps, rec, m as int),
                killed.len() == n,
                resolved.len() == n,
                forall|q: int| 0 <= q < i ==> self.players@[q] == resolved[q],
                forall|q: int| i <= q < n ==> self.players@[q] == killed[q],
                forall|q: int|
                    #![trigger resolved[q]]
                    0 <= q < n ==> {
                        &&& resolved[q].role == killed[q].role
                        &&& (resolved[q].spec_is_dead() <==> killed[q].spec_is_dead())
                    },
                forall|q: int| #![trigger killed[q]] 0 <= q < n ==> killed[q].role is Some,
                forall|q: int|
                    0 <= q < n && rec[q] is Some ==> (rec[q].unwrap() as int) < n as int,
                forall|q: int|
                    #![trigger killed[q]]
                    0 <= q < n && !killed[q].spec_is_dead() ==> rec[q] is Some,
                self.state == old(self).state,
            decreases n - i,
        {
            proof {
                assert(self.players@[i as int] == killed[i as int]);
                assert(killed[i as int].role is Some);
            }
            if !self.players[i].is_dead() {
                let role = self.players[i].role.unwrap();
                if !matches!(role, Role::Mafia) {
                    let t = self.investigations[i].unwrap();
                    proof {
                        if (t as int) < i as int {
                            assert(self.players@[t as int] == resolved[t as int]);
                            assert(resolved[t as int].role == killed[t as int].role);
                        } else {
                            assert(self.players@[t as int] == killed[t as int]);
                        }
                        assert(killed[t as int].role is Some);
                    }
                    let target_role = self.players[t].role.unwrap();
                    let target_dead = self.players[t].is_dead();
                    proof {
                        assert(target_role == killed[t as int].role.unwrap());
                        assert(target_dead == killed[t as int].spec_is_dead());
                    }
                    let verdict_value = if target_dead {
                        InvestigateResult::TheyDied
                    } else {
                        match role {
                            Role::Paranoid => InvestigateResult::YouThinkMafia,
                            Role::Naive => InvestigateResult::YouThinkDetective,
                            Role::Good => if target_role.is_detective() {
                                InvestigateResult::YouThinkDetective
                            } else {
                                InvestigateResult::YouThinkMafia
                            },
                            Role::Bad => if target_role.is_detective() {
                                InvestigateResult::YouThinkMafia
                            } else {
                                InvestigateResult::YouThinkDetective
                            },
                            Role::Mafia => InvestigateResult::YouThinkMafia,
                        }
                    };
                    proof {
                        assert(verdict_value == (if killed[t as int].spec_is_dead() {
                            InvestigateResult::TheyDied
                        } else {
                            verdict(killed[i as int].role.unwrap(), killed[t as int].role.unwrap())
                        }));
                    }
                    self.players[i].result = Some(verdict_value);
                    assert(self.players@[i as int] == resolved[i as int]);
                }
            }
            i += 1;
        }
        assert(self.players@ =~= resolved);

        // Clear every slot for the next round.
        let mut fresh: Vec<Option<usize>> = Vec::new();
        let mut f: usize = 0;
        while f < n
            invariant
                f <= n,
                fresh@.len() == f,
                forall|q: int| 0 <= q < f ==> fresh@[q] is None,
                self.players@ == resolved,
                self.state == old(self).state,
            decreases n - f,
        {
            fresh.push(None);
            f += 1;
        }
        self.investigations = fresh;

        proof {
            assert forall|a: int| mafia_at(ps, a) implies a == m as int by {
                lemma_mafia_at_unique(ps, a, m as int);
            }
            lemma_unique_mafia_same_roles(ps, self.players@);
        }
    }
}

// ---------------------------------------------------------------------------
// Laws of one round
// ---------------------------------------------------------------------------

/// Resolution gating: as long as some living player still lacks a pending
/// target, a submission changes no player's result — the round simply waits.
pub proof fn lemma_resolution_gating(
    pre: Game,
    post: Game,
    iid: Seq<char>,
    tid: Seq<char>,
    pi: int,
    ti: int,
    i: int,
)
    requires
        investigate_post(pre, post, iid, tid),
        found_at(pre.players@, iid, pi),
        found_at(pre.players@, tid, ti),
        !all_living_submitted(pre.players@, record(pre.investigations@, pi, ti)),
        0 <= i < pre.players@.len(),
    ensures
        post.players@[i].result == pre.players@[i].result,
{
}

/// Death permanence: a player who is dead before a submission is still dead
/// after it, whether or not the submission resolved the round.
pub proof fn lemma_death_permanence(pre: Game, post: Game, iid: Seq<char>, tid: Seq<char>, i: int)
    requires
        investigate_pre(pre, iid, tid),
        investigate_post(pre, post, iid, tid),
        0 <= i < pre.players@.len(),
        pre.players@[i].spec_is_dead(),
    ensures
        post.players@[i].spec_is_dead(),
{
    let ps = pre.players@;
    let inv = pre.investigations@;
    if has_player(ps, iid) && has_player(ps, tid) {
        let pi = choose|a: int| found_at(ps, iid, a);
        let ti = choose|a: int| found_at(ps, tid, a);
        let rec = record(inv, pi, ti);
        if all_living_submitted(ps, rec) {
            let w = choose|w: int|
                0 <= w < ps.len() && is_mafia(ps[w]) && (forall|m: int|
                    0 <= m < ps.len() && m != w ==> !is_mafia(ps[m]));
            assert(mafia_at(ps, w));
            assert(rec[w] is Some);
            let victim = rec[w].unwrap() as int;
            assert(0 <= victim < ps.len());
            let killed = after_kill(ps, victim);
            assert(killed[i].spec_is_dead());
            assert(resolve(ps, rec, w)[i] == killed[i]);
        } else {
            assert(post.players@ == ps);
        }
    } else {
        assert(post == pre);
    }
}

/// Dead-target override: a living non-mafia investigator whose target is the
/// round's kill victim is told `TheyDied`, whatever their role would have
/// reported.
pub proof fn lemma_dead_target_override(ps: Seq<Player>, inv: Seq<Option<usize>>, m: int, i: int)
    requires
        mafia_at(ps, m),
        inv.len() == ps.len(),
        inv[m] is Some,
        0 <= (inv[m].unwrap() as int) < ps.len(),
        0 <= i < ps.len(),
        !is_mafia(ps[i]),
        !ps[i].spec_is_dead(),
        i != inv[m].unwrap() as int,
        inv[i] is Some,
        inv[i].unwrap() == inv[m].unwrap(),
    ensures
        resolve(ps, inv, m)[i].result == Some(InvestigateResult::TheyDied),
{
    let victim = inv[m].unwrap() as int;
    let killed = after_kill(ps, victim);
    assert(killed[i] == ps[i]);
    assert(killed[victim].spec_is_dead());
}

/// Round reset: a submission that resolves the round leaves every pending
/// investigation empty, so the next round starts from a clean slate.
pub proof fn lemma_round_reset(
    pre: Game,
    post: Game,
    iid: Seq<char>,
    tid: Seq<char>,
    pi: int,
    ti: int,
)
    requires
        investigate_post(pre, post, iid, tid),
        found_at(pre.players@, iid, pi),
        found_at(pre.players@, tid, ti),
        all_living_submitted(pre.players@, record(pre.investigations@, pi, ti)),
    ensures
        post.investigations@.len() == pre.players@.len(),
        forall|i: int| 0 <= i < pre.players@.len() ==> post.investigations@[i] is None,
{
}

// ---------------------------------------------------------------------------
// Testing the submission precondition
// ---------------------------------------------------------------------------

impl Game {
    /// True exactly when `investigate` with these two ids is defined on this
    /// game (`investigate_pre`). Callers that cannot establish that
    /// precondition themselves test it with this before they submit.
    pub fn investigate_allowed(&self, investigator_id: &String, investigatee_id: &String) -> (b:
        bool)
        requires
            self.wf(),
        ensures
            b == investigate_pre(*self, investigator_id@, investigatee_id@),
    {
        let ghost ps = self.players@;
        let pi = match find_index(&self.players, investigator_id) {
            Some(j) => j,
            None => { return true },
        };
        let ti = match find_index(&self.players, investigatee_id) {
            Some(j) => j,
            None => { return true },
        };
        proof {
            assert forall|a: int| found_at(ps, investigator_id@, a) implies a == pi as int by {
                lemma_found_at_unique(ps, investigator_id@, a, pi as int);
            }
            assert forall|a: int| found_at(ps, investigatee_id@, a) implies a == ti as int by {
                lemma_found_at_unique(ps, investigatee_id@, a, ti as int);
            }
        }
        if !matches!(self.state, GameState::Playing) {
            return false;
        }
        let ghost rec = record(self.investigations@, pi as int, ti as int);
        let n = self.players.len();
        let mut j: usize = 0;
        let mut all_submitted = true;
        while j < n
            invariant
                j <= n,
                n == self.players@.len(),
                self.players@ == ps,
                n == self.investigations@.len(),
                pi < n,
                ti < n,
                rec == record(self.investigations@, pi as int, ti as int),
                all_submitted == (forall|q: int|
                    0 <= q < j ==> ps[q].spec_is_dead() || rec[q] is Some),
            decreases n - j,
        {
            let slot_filled = if j == pi {
                true
            } else {
                self.investigations[j].is_some()
            };
            if !self.players[j].is_dead() && !slot_filled {
                all_submitted = false;
            }
            j += 1;
        }
        if !all_submitted {
            return true;
        }
        assert(all_living_submitted(ps, rec));
        proof {
            let w = choose|w: int|
                0 <= w < ps.len() && is_mafia(ps[w]) && (forall|m: int|
                    0 <= m < ps.len() && m != w ==> !is_mafia(ps[m]));
            assert(0 <= w < ps.len() && is_mafia(ps[w]));
            assert forall|a: int| mafia_at(ps, a) implies a == w by {
                assert(!is_mafia(ps[a]) || a == w);
            }
        }
        let m = find_mafia(&self.players);
        let filled = if m == pi {
            true
        } else {
            self.investigations[m].is_some()
        };
        proof {
            assert forall|a: int| mafia_at(ps, a) implies a == m as int by {
                lemma_mafia_at_unique(ps, a, m as int);
            }
            assert(filled == (rec[m as int] is Some));
        }
        filled
    }
}

// ---------------------------------------------------------------------------
// What a player may see
// ---------------------------------------------------------------------------

/// One row of the player list shown to a requesting player.
#[derive(Debug)]
pub struct PlayerSummary {
    pub name: String,
    pub id: String,
    pub is_you: bool,
    pub is_dead: bool,
}

/// What the requesting player may see of a game that is running: whether
/// their own role is detective-aligned, and their result from the most
/// recently resolved round.
#[derive(Debug)]
pub struct InProgressView {
    pub is_detective: bool,
    pub investigate_result: Option<InvestigateResult>,
}

/// Everything the requesting player may currently see of one room.
#[derive(Debug)]
pub struct PlayerView {
    pub room_id: String,
    pub player_id: String,
    pub players: Vec<PlayerSummary>,
    pub in_progress: Option<InProgressView>,
}

/// What a successful `Game::view_for` returns: the room and player ids, one
/// summary row per player in player order, and, exactly when the game is
/// running, the requesting player's own standing.
pub open spec fn view_post(g: Game, rid: Seq<char>, pid: Seq<char>, v: PlayerView) -> bool {
    &&& v.room_id@ == rid
    &&& v.player_id@ == pid
    &&& v.players@.len() == g.players@.len()
    &&& forall|i: int|
        #![trigger v.players@[i]]
        0 <= i < g.players@.len() ==> {
            &&& v.players@[i].name@ == g.players@[i].name@
            &&& v.players@[i].id@ == g.players@[i].id@
            &&& v.players@[i].is_you == (g.players@[i].id@ == pid)
            &&& v.players@[i].is_dead == g.players@[i].spec_is_dead()
        }
    &&& g.state == GameState::Lobby ==> v.in_progress is None
    &&& g.state == GameState::Playing ==> forall|j: int|
        found_at(g.players@, pid, j) ==> (v.in_progress matches Some(ip) && ip.is_detective
            == g.players@[j].role.unwrap().spec_is_detective() && ip.investigate_result
            == g.players@[j].result)
}

impl Game {
    /// Builds what the player carrying `player_id` may currently see of this
    /// room, or nothing if that id resolves to no current player.
    pub fn view_for(&self, room_id: &String, player_id: &String) -> (r: Option<PlayerView>)
        requires
            self.wf(),
        ensures
            match r {
                Some(v) => has_player(self.players@, player_id@) && view_post(
                    *self,
                    room_id@,
                    player_id@,
                    v,
                ),
                None => !has_player(self.players@, player_id@),
            },
    {
        let j = match find_index(&self.players, player_id) {
            Some(j) => j,
            None => { return None },
        };
        let n = self.players.len();
        let mut summaries: Vec<PlayerSummary> = Vec::new();
        let mut i: usize = 0;
        while i < n
            invariant
                i <= n,
                n == self.players@.len(),
                summaries@.len() == i,
                forall|q: int|
                    #![trigger summaries@[q]]
                    0 <= q < i ==> {
                        &&& summaries@[q].name@ == self.players@[q].name@
                        &&& summaries@[q].id@ == self.players@[q].id@
                        &&& summaries@[q].is_you == (self.players@[q].id@ == player_id@)
                        &&& summaries@[q].is_dead == self.players@[q].spec_is_dead()
                    },
            decreases n - i,
        {
            let p = &self.players[i];
            summaries.push(
                PlayerSummary {
                    name: p.name.clone(),
                    id: p.id.clone(),
                    is_you: p.id == *player_id,
                    is_dead: p.is_dead(),
                },
            );
            i += 1;
        }
        let in_progress = if matches!(self.state, GameState::Playing) {
            let me = &self.players[j];
            Some(
                InProgressView {
                    is_detective: me.role.unwrap().is_detective(),
                    investigate_result: me.result,
                },
            )
        } else {
            None
        };
        proof {
            assert forall|a: int| found_at(self.players@, player_id@, a) implies a == j as int by {
                lemma_found_at_unique(self.players@, player_id@, a, j as int);
            }
        }
        Some(
            PlayerView {
                room_id: room_id.clone(),
                player_id: player_id.clone(),
                players: summaries,
                in_progress,
            },
        )
    }
}

/// A mafia-unique set of players stays mafia-unique under any rewrite that
/// keeps every role.
proof fn lemma_unique_mafia_same_roles(ps1: Seq<Player>, ps2: Seq<Player>)
    requires
        ps1.len() == ps2.len(),
        forall|i: int| 0 <= i < ps1.len() ==> ps1[i].role == ps2[i].role,
        unique_mafia(ps1),
    ensures
        unique_mafia(ps2),
{
    let j = choose|j: int|
        0 <= j < ps1.len() && is_mafia(ps1[j]) && (forall|m: int|
            0 <= m < ps1.len() && m != j ==> !is_mafia(ps1[m]));
    assert(is_mafia(ps2[j]));
    assert(forall|m: int| 0 <= m < ps2.len() && m != j ==> !is_mafia(ps2[m]));
}

} // verus!

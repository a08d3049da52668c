use vstd::prelude::*;
use crate::names::{get_name, is_drawn_name};
use crate::random::{is_alphanumeric, random_token, shuffle_vec};
use vstd::string::StrSliceExecFns;
use vstd::string::StringExecFns;

verus! {

/// Where one round stands.
#[derive(Copy, Clone, Debug, PartialEq, Eq, Structural)]
pub enum MissionState {
    Pending,
    SelectingOperatives,
    ApprovingMission,
    RunningMission,
    Failure,
    Victory,
}

impl Default for MissionState {
    fn default() -> (r: Self)
        ensures
            r == MissionState::Pending,
    {
        MissionState::Pending
    }
}

/// One seat's vote on the proposed team.
#[derive(Copy, Clone, Debug, PartialEq, Eq, Structural)]
pub enum Approval {
    NotVoted,
    Reject,
    Approve,
}

/// The secret faction of a player.
#[derive(Copy, Clone, Debug, PartialEq, Eq, Structural)]
pub enum PlayerType {
    Agent,
    Spy,
}

impl Default for PlayerType {
    fn default() -> (r: Self)
        ensures
            r == PlayerType::Agent,
    {
        PlayerType::Agent
    }
}

/// Why an operation on a session or on the registry was refused.
#[derive(Copy, Clone, Debug, PartialEq, Eq, Structural)]
pub enum ResistanceError {
    InvalidHeadcount,
    NoSpotsAvailable,
    SessionNotFound,
    InvalidPlayer,
    AlreadyStarted,
    NotEveryoneJoined,
    NameChangeAfterStart,
    WrongPhase,
    NotLeader,
    WrongOperativeCount,
    AlreadyVoted,
}

/// The record of one round.
#[derive(Clone, Debug)]
pub struct RoundStatus {
    pub state: MissionState,
    pub operatives: Vec<usize>,
    pub approvals: Vec<Approval>,
    pub mission: Vec<bool>,
}

impl Default for RoundStatus {
    fn default() -> (r: Self)
        ensures
            r.state == MissionState::Pending,
            r.operatives@.len() == 0,
            r.approvals@.len() == 0,
            r.mission@.len() == 0,
    {
        RoundStatus {
            state: MissionState::default(),
            operatives: Vec::new(),
            approvals: Vec::new(),
            mission: Vec::new(),
        }
    }
}

pub open spec fn with_state(rs: RoundStatus, state: MissionState) -> RoundStatus {
    RoundStatus { state, operatives: rs.operatives, approvals: rs.approvals, mission: rs.mission }
}

/// Every seat has voted.
pub open spec fn all_voted(a: Seq<Approval>) -> bool {
    forall|i: int| 0 <= i < a.len() ==> (#[trigger] a[i]) != Approval::NotVoted
}

/// How many votes in `a` are `x`.
pub open spec fn count_of(a: Seq<Approval>, x: Approval) -> nat
    decreases a.len(),
{
    if a.len() == 0 {
        0
    } else {
        count_of(a.drop_last(), x) + if a.last() == x {
            1nat
        } else {
            0nat
        }
    }
}

/// The team is approved: approvals win ties.
pub open spec fn approved(a: Seq<Approval>) -> bool {
    count_of(a, Approval::Approve) >= count_of(a, Approval::Reject)
}

/// How many votes in `a` are `x`.
fn count_votes(a: &Vec<Approval>, x: Approval) -> (r: usize)
    ensures
        r == count_of(a@, x),
{
    let mut n: usize = 0;
    let mut i: usize = 0;
    while i < a.len()
        invariant
            i <= a@.len(),
            n == count_of(a@.subrange(0, i as int), x),
            n <= i,
        decreases a@.len() - i,
    {
        assert(a@.subrange(0, i + 1).drop_last() =~= a@.subrange(0, i as int));
        if a[i] == x {
            n = n + 1;
        }
        i = i + 1;
    }
    assert(a@.subrange(0, a@.len() as int) =~= a@);
    n
}

/// The number of rounds a session can hold.
pub const ROUNDS: usize = 5;

/// The smallest and the largest headcount a session can have.
pub const MIN_PLAYERS: usize = 5;
pub const MAX_PLAYERS: usize = 10;

/// How many operatives the mission of round `round` takes with `headcount` players.
pub open spec fn mission_size_spec(headcount: int, round: int) -> int {
    let table = seq![
        seq![2int, 2, 2, 3, 3, 3],
        seq![3int, 3, 3, 4, 4, 4],
        seq![2int, 4, 3, 4, 4, 4],
        seq![3int, 3, 4, 5, 5, 5],
        seq![3int, 4, 4, 5, 5, 5],
    ];
    table[round][headcount - 5]
}

/// The number of operatives that the leader must choose in round `missionno` of a session of
/// `numberofplayers` players.
pub fn mission_size(numberofplayers: usize, missionno: usize) -> (r: usize)
    requires
        MIN_PLAYERS <= numberofplayers <= MAX_PLAYERS,
        missionno < ROUNDS,
    ensures
        r == mission_size_spec(numberofplayers as int, missionno as int),
{
    let sizes: [[usize; 6]; 5] = [
        [2, 2, 2, 3, 3, 3],
        [3, 3, 3, 4, 4, 4],
        [2, 4, 3, 4, 4, 4],
        [3, 3, 4, 5, 5, 5],
        [3, 4, 4, 5, 5, 5],
    ];
    let row: [usize; 6] = sizes[missionno];
    row[numberofplayers - 5]
}


/// The length of a player's secret key.
pub const KEY_LEN: usize = 18;

/// One participant.
#[derive(Clone, Debug)]
pub struct Player {
    pub player_type: PlayerType,
    pub key: String,
    pub name: String,
    pub id: usize,
}

pub open spec fn with_type(p: Player, player_type: PlayerType) -> Player {
    Player { player_type, key: p.key, name: p.name, id: p.id }
}

pub open spec fn with_name(p: Player, name: String) -> Player {
    Player { player_type: p.player_type, key: p.key, name, id: p.id }
}

pub open spec fn with_id(p: Player, id: usize) -> Player {
    Player { player_type: p.player_type, key: p.key, name: p.name, id }
}

/// Every character of `k` is an ASCII letter or digit.
pub open spec fn is_alphanumeric_key(k: Seq<char>) -> bool {
    forall|i: int| 0 <= i < k.len() ==> is_alphanumeric(#[trigger] k[i])
}

/// No two players share a key.
pub open spec fn player_keys_distinct(ps: Seq<Player>) -> bool {
    forall|i: int, j: int|
        0 <= i < ps.len() && 0 <= j < ps.len() && i != j ==> (#[trigger] ps[i]).key@ != (
        #[trigger] ps[j]).key@
}

/// No two seats hold the same key.
pub open spec fn seat_keys_distinct(spots: Seq<Spot>) -> bool {
    forall|i: int, j: int|
        0 <= i < spots.len() && 0 <= j < spots.len() && i != j ==> (#[trigger] spots[i]).key@ != (
        #[trigger] spots[j]).key@
}

/// Whether some player of `ps` holds key `k`.
fn key_taken(ps: &Vec<Player>, k: &String) -> (r: bool)
    ensures
        r == holds_key(ps@, k@),
{
    let mut i: usize = 0;
    while i < ps.len()
        invariant
            i <= ps@.len(),
            forall|j: int| 0 <= j < i ==> (#[trigger] ps@[j]).key@ != k@,
        decreases ps@.len() - i,
    {
        if ps[i].key == *k {
            return true;
        }
        i = i + 1;
    }
    false
}

/// A random key that no player of `taken` holds. A drawn key that repeats one of theirs is drawn
/// again, and where the new one agrees with the `i`-th taken key at position `i` that character
/// is changed, so it differs from each of them.
fn fresh_key(rng: &mut rand::rngs::ThreadRng, taken: &Vec<Player>) -> (r: String)
    requires
        taken@.len() <= KEY_LEN,
        forall|p: int| 0 <= p < taken@.len() ==> (#[trigger] taken@[p]).key@.len() == KEY_LEN,
    ensures
        r@.len() == KEY_LEN,
        is_alphanumeric_key(r@),
        !holds_key(taken@, r@),
{
    let first = random_token(rng, KEY_LEN);
    if !key_taken(taken, &first) {
        return first;
    }
    let base = random_token(rng, KEY_LEN);
    let mut key = String::new();
    let mut i: usize = 0;
    proof {
        reveal_strlit("a");
        reveal_strlit("b");
    }
    while i < KEY_LEN
        invariant
            i <= KEY_LEN,
            base@.len() == KEY_LEN,
            is_alphanumeric_key(base@),
            taken@.len() <= KEY_LEN,
            forall|p: int| 0 <= p < taken@.len() ==> (#[trigger] taken@[p]).key@.len() == KEY_LEN,
            "a"@ == seq!['a'],
            "b"@ == seq!['b'],
            key@.len() == i,
            is_alphanumeric_key(key@),
            forall|j: int| 0 <= j < i && j < taken@.len() ==> key@[j] != (#[trigger] taken@[j]).key@[j],
        decreases KEY_LEN - i,
    {
        let c = base.as_str().get_char(i);
        let ghost prev = key@;
        if i < taken.len() && taken[i].key.as_str().get_char(i) == c {
            if c == 'a' {
                key = key.concat("b");
            } else {
                key = key.concat("a");
            }
        } else {
            key = key.concat(base.as_str().substring_char(i, i + 1));
        }
        assert(forall|j: int| 0 <= j < i ==> key@[j] == prev[j]);
        i = i + 1;
    }
    proof {
        assert forall|p: int| 0 <= p < taken@.len() implies (#[trigger] taken@[p]).key@ != key@ by {
            assert(key@[p] != taken@[p].key@[p]);
        }
    }
    key
}

impl Player {
    /// A player with a fresh random key, held by none of `taken`, and a display name drawn from
    /// `word_list`.
    fn new(
        rng: &mut rand::rngs::ThreadRng,
        word_list: &Option<Vec<String>>,
        taken: &Vec<Player>,
    ) -> (r: Self)
        requires
            taken@.len() <= KEY_LEN,
            forall|p: int| 0 <= p < taken@.len() ==> (#[trigger] taken@[p]).key@.len() == KEY_LEN,
        ensures
            r.player_type == PlayerType::Agent,
            r.key@.len() == KEY_LEN,
            is_alphanumeric_key(r.key@),
            !holds_key(taken@, r.key@),
            r.id == 0,
            is_drawn_name(*word_list, r.name@),
    {
        let key = fresh_key(rng, taken);
        let name = get_name(word_list, rng);
        Player { player_type: PlayerType::default(), key, name, id: 0 }
    }

    fn set_type(&mut self, player_type: PlayerType)
        ensures
            *final(self) == with_type(*old(self), player_type),
    {
        self.player_type = player_type;
    }

    fn change_name(&mut self, new_name: String)
        ensures
            *final(self) == with_name(*old(self), new_name),
    {
        self.name = new_name;
    }
}

/// A seat: the key of the player who sits there, and whether someone has joined on it.
#[derive(Clone, Debug)]
pub struct Spot {
    pub key: String,
    pub claimed: bool,
}

/// The highest creation index that is dealt `Agent`; the players after it are dealt `Spy`.
pub open spec fn spy_threshold(n: int) -> int {
    if n - n / 2 == 0 {
        n / 2 - 1
    } else {
        n / 2
    }
}

/// The faction dealt to the player created `i`-th in a session of `n` players.
pub open spec fn dealt_type(n: int, i: int) -> PlayerType {
    if i <= spy_threshold(n) {
        PlayerType::Agent
    } else {
        PlayerType::Spy
    }
}

/// Some player holds key `k`.
pub open spec fn holds_key(ps: Seq<Player>, k: Seq<char>) -> bool {
    exists|i: int| 0 <= i < ps.len() && (#[trigger] ps[i]).key@ == k
}

/// `i` is the first player that holds key `k`.
pub open spec fn first_with_key(ps: Seq<Player>, k: Seq<char>, i: int) -> bool {
    &&& 0 <= i < ps.len()
    &&& ps[i].key@ == k
    &&& forall|j: int| 0 <= j < i ==> (#[trigger] ps[j]).key@ != k
}

/// The player that key `k` resolves to.
pub open spec fn key_index(ps: Seq<Player>, k: Seq<char>) -> int {
    choose|i: int| first_with_key(ps, k, i)
}

pub(crate) proof fn lemma_key_index(ps: Seq<Player>, k: Seq<char>, i: int)
    requires
        first_with_key(ps, k, i),
    ensures
        key_index(ps, k) == i,
{
    let c = key_index(ps, k);
    assert(first_with_key(ps, k, c));
    if c < i {
        assert(ps[c].key@ != k);
    } else if i < c {
        assert(ps[i].key@ != k);
    }
}

pub(crate) proof fn lemma_holds_key(ps: Seq<Player>, k: Seq<char>)
    requires
        holds_key(ps, k),
    ensures
        first_with_key(ps, k, key_index(ps, k)),
    decreases ps.len(),
{
    let front = ps.drop_last();
    if holds_key(front, k) {
        lemma_holds_key(front, k);
        let c = key_index(front, k);
        assert forall|j: int| 0 <= j < c implies (#[trigger] ps[j]).key@ != k by {
            assert(front[j] == ps[j]);
        }
        assert(first_with_key(ps, k, c));
        lemma_key_index(ps, k, c);
    } else {
        let i = choose|i: int| 0 <= i < ps.len() && (#[trigger] ps[i]).key@ == k;
        assert forall|j: int| 0 <= j < ps.len() - 1 implies (#[trigger] ps[j]).key@ != k by {
            assert(front[j] == ps[j]);
        }
        assert(first_with_key(ps, k, ps.len() - 1));
        lemma_key_index(ps, k, ps.len() - 1);
    }
}

/// Every seat is claimed.
pub open spec fn all_claimed(spots: Seq<Spot>) -> bool {
    forall|s: int| 0 <= s < spots.len() ==> (#[trigger] spots[s]).claimed
}

/// Each seat holds the key of a player, and each player's key is on a seat.
pub open spec fn seats_match(spots: Seq<Spot>, ps: Seq<Player>) -> bool {
    &&& forall|s: int| 0 <= s < spots.len() ==> holds_key(ps, (#[trigger] spots[s]).key@)
    &&& forall|p: int| 0 <= p < ps.len() ==> seated(spots, (#[trigger] ps[p]).key@)
}

/// A value at two places of `s` counts at least twice in its multiset.
proof fn lemma_two_copies(s: Seq<usize>, i: int, j: int)
    requires
        0 <= i < s.len(),
        0 <= j < s.len(),
        i != j,
        s[i] == s[j],
    ensures
        s.to_multiset().count(s[i]) >= 2,
{
    broadcast use vstd::seq_lib::group_to_multiset_ensures;
    broadcast use vstd::multiset::group_multiset_axioms;

    let rest = s.remove(i);
    let k = if j < i { j } else { j - 1 };
    assert(rest[k] == s[j]);
    assert(rest.contains(s[i]));
    assert(rest.to_multiset() =~= s.to_multiset().remove(s[i]));
    assert(rest.to_multiset().count(s[i]) > 0);
}

/// Some seat holds key `k`.
pub open spec fn seated(spots: Seq<Spot>, k: Seq<char>) -> bool {
    exists|s: int| 0 <= s < spots.len() && (#[trigger] spots[s]).key@ == k
}

/// The keys on the seats and of the players stay where they were, so seats and players still
/// match.
proof fn lemma_keys_kept(spots0: Seq<Spot>, ps0: Seq<Player>, spots1: Seq<Spot>, ps1: Seq<Player>)
    requires
        seats_match(spots0, ps0),
        spots1.len() == spots0.len(),
        ps1.len() == ps0.len(),
        forall|s: int| 0 <= s < spots0.len() ==> (#[trigger] spots1[s]).key@ == spots0[s].key@,
        forall|p: int| 0 <= p < ps0.len() ==> (#[trigger] ps1[p]).key@ == ps0[p].key@,
    ensures
        seats_match(spots1, ps1),
        player_keys_distinct(ps0) ==> player_keys_distinct(ps1),
        seat_keys_distinct(spots0) ==> seat_keys_distinct(spots1),
{
    if player_keys_distinct(ps0) {
        assert forall|i: int, j: int|
            0 <= i < ps1.len() && 0 <= j < ps1.len() && i != j implies (#[trigger] ps1[i]).key@ != (
            #[trigger] ps1[j]).key@ by {
            assert(ps0[i].key@ != ps0[j].key@);
        }
    }
    if seat_keys_distinct(spots0) {
        assert forall|i: int, j: int|
            0 <= i < spots1.len() && 0 <= j < spots1.len() && i != j implies (
            #[trigger] spots1[i]).key@ != (#[trigger] spots1[j]).key@ by {
            assert(spots0[i].key@ != spots0[j].key@);
        }
    }
    assert forall|s: int| 0 <= s < spots1.len() implies holds_key(
        ps1,
        (#[trigger] spots1[s]).key@,
    ) by {
        assert(holds_key(ps0, spots0[s].key@));
        let p = choose|p: int| 0 <= p < ps0.len() && (#[trigger] ps0[p]).key@ == spots0[s].key@;
        assert(ps1[p].key@ == ps0[p].key@);
    }
    assert forall|p: int| 0 <= p < ps1.len() implies seated(spots1, (#[trigger] ps1[p]).key@) by {
        assert(seated(spots0, ps0[p].key@));
        let s = choose|s: int| 0 <= s < spots0.len() && (#[trigger] spots0[s]).key@ == ps0[p].key@;
        assert(spots1[s].key@ == spots0[s].key@);
    }
}

/// `s` is the first seat that nobody has claimed.
pub open spec fn first_unclaimed(spots: Seq<Spot>, s: int) -> bool {
    &&& 0 <= s < spots.len()
    &&& !spots[s].claimed
    &&& forall|t: int| 0 <= t < s ==> (#[trigger] spots[t]).claimed
}

/// `after` is `before` once a join has gone through and handed out key `k`.
pub open spec fn joins_once(before: ResistanceGame, after: ResistanceGame, k: Seq<char>) -> bool {
    exists|s: int| #[trigger] before.joined(after, s, k)
}

/// A round that has left the vote on its team.
pub open spec fn is_past_approval(st: MissionState) -> bool {
    st == MissionState::RunningMission || st == MissionState::Failure || st
        == MissionState::Victory
}

/// One game session.
#[derive(Debug)]
pub struct ResistanceGame {
    pub leader: usize,
    pub players: Vec<Player>,
    pub spots: Vec<Spot>,
    pub round: usize,
    pub wins: usize,
    pub status: Vec<RoundStatus>,
    pub vote: usize,
    pub started: bool,
    pub numberofplayers: usize,
}

impl ResistanceGame {
    /// The state of the current round.
    pub open spec fn current_state(&self) -> MissionState {
        self.status@[self.round as int].state
    }

    pub open spec fn wf(&self) -> bool {
        &&& MIN_PLAYERS <= self.numberofplayers <= MAX_PLAYERS
        &&& self.spots@.len() == self.numberofplayers
        &&& self.players@.len() == self.numberofplayers
        &&& seats_match(self.spots@, self.players@)
        &&& player_keys_distinct(self.players@)
        &&& seat_keys_distinct(self.spots@)
        &&& self.started ==> all_claimed(self.spots@)
        &&& forall|p: int|
            0 <= p < self.players@.len() ==> (#[trigger] self.players@[p]).id
                < self.numberofplayers
        &&& self.status@.len() == ROUNDS
        &&& self.round < ROUNDS
        &&& forall|r: int|
            0 <= r < ROUNDS ==> {
                let n = (#[trigger] self.status@[r]).approvals@.len();
                n == 0 || n == self.numberofplayers
            }
        &&& self.vote <= self.round + 1
        &&& !is_past_approval(self.current_state()) ==> self.vote <= self.round
        &&& !self.started ==> self.round == 0 && self.vote == 0 && self.current_state()
            == MissionState::Pending
    }

    /// A session just dealt for `n` players with names from `word_list`: nobody has joined,
    /// the first `spy_threshold(n) + 1` players created are agents and the rest spies, and every
    /// round is pending with nothing recorded.
    pub open spec fn is_fresh(&self, n: usize, word_list: Option<Vec<String>>) -> bool {
        &&& self.wf()
        &&& self.numberofplayers == n
        &&& self.leader == 0
        &&& self.round == 0
        &&& self.wins == 0
        &&& self.vote == 0
        &&& !self.started
        &&& forall|s: int| 0 <= s < self.spots@.len() ==> !(#[trigger] self.spots@[s]).claimed
        &&& forall|i: int|
            0 <= i < self.players@.len() ==> {
                let p = #[trigger] self.players@[i];
                &&& p.player_type == dealt_type(n as int, i)
                &&& p.id == 0
                &&& p.key@.len() == KEY_LEN
                &&& is_alphanumeric_key(p.key@)
                &&& is_drawn_name(word_list, p.name@)
            }
        &&& forall|r: int|
            0 <= r < ROUNDS ==> {
                let st = #[trigger] self.status@[r];
                &&& st.state == MissionState::Pending
                &&& st.operatives@.len() == 0
                &&& st.approvals@.len() == 0
                &&& st.mission@.len() == 0
            }
    }

    /// Deals a new session for `numberofplayers` players, drawing keys with `rng` and display
    /// names from `word_list`.
    pub fn new(
        numberofplayers: usize,
        rng: &mut rand::rngs::ThreadRng,
        word_list: &Option<Vec<String>>,
    ) -> (r: Result<Self, ResistanceError>)
        ensures
            r is Ok <==> MIN_PLAYERS <= numberofplayers <= MAX_PLAYERS,
            r matches Err(e) ==> e == ResistanceError::InvalidHeadcount,
            r matches Ok(g) ==> g.is_fresh(numberofplayers, *word_list),
    {
        if numberofplayers >= MIN_PLAYERS && numberofplayers <= MAX_PLAYERS {
            let (players, spots) = ResistanceGame::generate_players(numberofplayers, rng, word_list);
            let mut status: Vec<RoundStatus> = Vec::new();
            let mut r: usize = 0;
            while r < ROUNDS
                invariant
                    r <= ROUNDS,
                    status@.len() == r,
                    forall|q: int|
                        0 <= q < r ==> {
                            let st = #[trigger] status@[q];
                            &&& st.state == MissionState::Pending
                            &&& st.operatives@.len() == 0
                            &&& st.approvals@.len() == 0
                            &&& st.mission@.len() == 0
                        },
                decreases ROUNDS - r,
            {
                status.push(RoundStatus::default());
                r = r + 1;
            }
            Ok(ResistanceGame {
                players,
                leader: 0,
                round: 0,
                wins: 0,
                status,
                vote: 0,
                spots,
                started: false,
                numberofplayers,
            })
        } else {
            Err(ResistanceError::InvalidHeadcount)
        }
    }

    fn generate_players(
        numberofplayers: usize,
        rng: &mut rand::rngs::ThreadRng,
        word_list: &Option<Vec<String>>,
    ) -> (r: (Vec<Player>, Vec<Spot>))
        requires
            1 <= numberofplayers <= KEY_LEN,
        ensures
            r.0@.len() == numberofplayers,
            r.1@.len() == numberofplayers,
            seats_match(r.1@, r.0@),
            player_keys_distinct(r.0@),
            seat_keys_distinct(r.1@),
            forall|s: int| 0 <= s < r.1@.len() ==> !(#[trigger] r.1@[s]).claimed,
            forall|i: int|
                0 <= i < r.0@.len() ==> {
                    let p = #[trigger] r.0@[i];
                    &&& p.player_type == dealt_type(numberofplayers as int, i)
                    &&& p.id == 0
                    &&& p.key@.len() == KEY_LEN
                    &&& is_alphanumeric_key(p.key@)
                    &&& is_drawn_name(*word_list, p.name@)
                },
    {
        broadcast use vstd::seq_lib::group_to_multiset_ensures;
        broadcast use vstd::multiset::group_multiset_axioms;
        broadcast use vstd::multiset::group_multiset_properties;

        let mut players: Vec<Player> = Vec::new();
        let mut order: Vec<usize> = Vec::new();
        let mut spies: usize = numberofplayers / 2;
        if numberofplayers - spies == 0 {
            spies = spies - 1;
        }
        let mut n: usize = 0;
        while n < numberofplayers
            invariant
                n <= numberofplayers <= KEY_LEN,
                spies == spy_threshold(numberofplayers as int),
                players@.len() == n,
                order@.len() == n,
                player_keys_distinct(players@),
                forall|i: int|
                    0 <= i < n ==> {
                        let p = #[trigger] players@[i];
                        &&& p.player_type == dealt_type(numberofplayers as int, i)
                        &&& p.id == 0
                        &&& p.key@.len() == KEY_LEN
                        &&& is_alphanumeric_key(p.key@)
                        &&& is_drawn_name(*word_list, p.name@)
                    },
                forall|i: int| 0 <= i < n ==> (#[trigger] order@[i]) == i,
                forall|x: usize| (#[trigger] order@.to_multiset().count(x)) <= 1,
            decreases numberofplayers - n,
        {
            let mut player = Player::new(rng, word_list, &players);
            if n <= spies {
                player.set_type(PlayerType::Agent);
            } else {
                player.set_type(PlayerType::Spy);
            }
            proof {
                order@.to_multiset_ensures();
                assert(!order@.contains(n));
                assert(order@.push(n).to_multiset() =~= order@.to_multiset().insert(n));
                assert(order@.to_multiset().count(n) == 0);
            }
            order.push(n);
            players.push(player);
            n = n + 1;
        }
        let ghost dealt = order@;
        shuffle_vec(&mut order, rng);
        proof {
            assert(order@.len() == order@.to_multiset().len());
            assert(dealt.len() == dealt.to_multiset().len());
            assert forall|s: int| 0 <= s < order@.len() implies #[trigger] order@[s]
                < numberofplayers by {
                assert(order@.to_multiset().count(order@[s]) > 0);
                assert(dealt.contains(order@[s]));
            }
            assert forall|s: int, t: int|
                0 <= s < order@.len() && 0 <= t < order@.len() && s != t implies #[trigger] order@[s]
                != #[trigger] order@[t] by {
                if order@[s] == order@[t] {
                    lemma_two_copies(order@, s, t);
                    assert(dealt.to_multiset().count(order@[s]) <= 1);
                }
            }
        }
        let mut spots: Vec<Spot> = Vec::new();
        let mut s: usize = 0;
        while s < numberofplayers
            invariant
                s <= numberofplayers,
                players@.len() == numberofplayers,
                order@.len() == numberofplayers,
                forall|t: int| 0 <= t < numberofplayers ==> #[trigger] order@[t] < numberofplayers,
                spots@.len() == s,
                forall|t: int|
                    0 <= t < s ==> (#[trigger] spots@[t]).key@ == players@[order@[t] as int].key@
                        && !spots@[t].claimed,
            decreases numberofplayers - s,
        {
            let p = order[s];
            spots.push(Spot { key: players[p].key.clone(), claimed: false });
            s = s + 1;
        }
        proof {
            assert forall|t: int| 0 <= t < spots@.len() implies holds_key(
                players@,
                (#[trigger] spots@[t]).key@,
            ) by {
                assert(players@[order@[t] as int].key@ == spots@[t].key@);
            }
            assert forall|p: int| 0 <= p < players@.len() implies seated(
                spots@,
                (#[trigger] players@[p]).key@,
            ) by {
                assert(dealt[p] == p);
                assert(dealt.to_multiset().count(p as usize) > 0);
                assert(order@.contains(p as usize));
                let t = choose|t: int| 0 <= t < order@.len() && order@[t] == p as usize;
                assert(spots@[t].key@ == players@[p].key@);
            }
            assert forall|i: int, j: int|
                0 <= i < spots@.len() && 0 <= j < spots@.len() && i != j implies (
                #[trigger] spots@[i]).key@ != (#[trigger] spots@[j]).key@ by {
                assert(order@[i] != order@[j]);
                assert(players@[order@[i] as int].key@ != players@[order@[j] as int].key@);
            }
        }
        (players, spots)
    }

    /// The seat id of the player that key `k` resolves to.
    pub open spec fn seat_of(&self, k: Seq<char>) -> usize {
        self.players@[key_index(self.players@, k)].id
    }

    /// The seat `pid` has voted in the current round.
    pub open spec fn has_voted_spec(&self, pid: usize) -> bool {
        let a = self.status@[self.round as int].approvals@;
        a.len() != 0 && a[pid as int] != Approval::NotVoted
    }

    /// The votes of the current round, with one empty slot per seat before the first vote.
    pub open spec fn ballots(&self) -> Seq<Approval> {
        let a = self.status@[self.round as int].approvals@;
        if a.len() == 0 {
            Seq::new(self.numberofplayers as nat, |i: int| Approval::NotVoted)
        } else {
            a
        }
    }

    /// Why a vote with key `k` is refused, if it is.
    pub open spec fn vote_error(&self, k: Seq<char>) -> Option<ResistanceError> {
        if !holds_key(self.players@, k) {
            Option::Some(ResistanceError::InvalidPlayer)
        } else if self.current_state() != MissionState::ApprovingMission {
            Option::Some(ResistanceError::WrongPhase)
        } else if self.has_voted_spec(self.seat_of(k)) {
            Option::Some(ResistanceError::AlreadyVoted)
        } else {
            Option::None
        }
    }

    /// `self` and `other` agree on everything but the rounds' records and the rejection count.
    pub open spec fn same_but_rounds(&self, other: Self) -> bool {
        &&& other.leader == self.leader
        &&& other.players == self.players
        &&& other.spots == self.spots
        &&& other.round == self.round
        &&& other.wins == self.wins
        &&& other.started == self.started
        &&& other.numberofplayers == self.numberofplayers
    }

    /// `after` is `self` once seat `pid` has cast `approve`: the vote is recorded and, when it is
    /// the last one, the round goes on to its mission, counting a rejection when the rejections
    /// outnumber the approvals.
    pub open spec fn voted(&self, after: Self, pid: usize, approve: bool) -> bool {
        let r = self.round as int;
        let cast = self.ballots().update(
            pid as int,
            if approve {
                Approval::Approve
            } else {
                Approval::Reject
            },
        );
        let before = self.status@[r];
        let now = after.status@[r];
        &&& self.same_but_rounds(after)
        &&& after.status@.len() == self.status@.len()
        &&& forall|q: int| 0 <= q < self.status@.len() && q != r ==> after.status@[q] == self.status@[q]
        &&& now.approvals@ == cast
        &&& now.operatives == before.operatives
        &&& now.mission == before.mission
        &&& if all_voted(cast) {
            &&& now.state == MissionState::RunningMission
            &&& after.vote == self.vote + if approved(cast) {
                0int
            } else {
                1int
            }
        } else {
            now.state == before.state && after.vote == self.vote
        }
    }

    fn current_status(&self) -> (r: MissionState)
        requires
            self.wf(),
        ensures
            r == self.current_state(),
    {
        self.status[self.round].state
    }

    /// The index of the player that holds `player_key`.
    fn player_index(&self, player_key: &String) -> (r: Result<usize, ResistanceError>)
        ensures
            r is Ok <==> holds_key(self.players@, player_key@),
            r matches Ok(i) ==> i == key_index(self.players@, player_key@) && first_with_key(
                self.players@,
                player_key@,
                i as int,
            ),
            r matches Err(e) ==> e == ResistanceError::InvalidPlayer,
    {
        let mut i: usize = 0;
        while i < self.players.len()
            invariant
                i <= self.players@.len(),
                forall|j: int| 0 <= j < i ==> (#[trigger] self.players@[j]).key@ != player_key@,
            decreases self.players@.len() - i,
        {
            if self.players[i].key == *player_key {
                proof {
                    lemma_key_index(self.players@, player_key@, i as int);
                }
                return Ok(i);
            }
            i = i + 1;
        }
        Err(ResistanceError::InvalidPlayer)
    }

    fn get_player(&self, player_key: &String) -> (r: Result<&Player, ResistanceError>)
        ensures
            r is Ok <==> holds_key(self.players@, player_key@),
            r matches Ok(p) ==> *p == self.players@[key_index(self.players@, player_key@)],
            r matches Err(e) ==> e == ResistanceError::InvalidPlayer,
    {
        match self.player_index(player_key) {
            Ok(i) => Ok(&self.players[i]),
            Err(e) => Err(e),
        }
    }

    fn playerid(&self, player_key: &String) -> (r: Result<usize, ResistanceError>)
        ensures
            r is Ok <==> holds_key(self.players@, player_key@),
            r matches Ok(id) ==> id == self.seat_of(player_key@),
            r matches Err(e) ==> e == ResistanceError::InvalidPlayer,
    {
        match self.get_player(player_key) {
            Ok(p) => Ok(p.id),
            Err(e) => Err(e),
        }
    }

    fn has_voted(&self, playerid: usize) -> (r: bool)
        requires
            self.round < self.status@.len(),
            self.status@[self.round as int].approvals@.len() == 0 || playerid
                < self.status@[self.round as int].approvals@.len(),
        ensures
            r == self.has_voted_spec(playerid),
    {
        let round = self.round;
        !(self.status[round].approvals.len() == 0 || self.status[round].approvals[playerid]
            == Approval::NotVoted)
    }

    fn has_everyone_voted(&self) -> (r: bool)
        requires
            self.wf(),
        ensures
            r == all_voted(self.status@[self.round as int].approvals@),
    {
        let approvals = &self.status[self.round].approvals;
        let mut i: usize = 0;
        while i < approvals.len()
            invariant
                approvals@ == self.status@[self.round as int].approvals@,
                i <= approvals@.len(),
                forall|j: int| 0 <= j < i ==> (#[trigger] approvals@[j]) != Approval::NotVoted,
            decreases approvals@.len() - i,
        {
            if approvals[i] == Approval::NotVoted {
                return false;
            }
            i = i + 1;
        }
        true
    }

    fn approve_or_reject(&mut self)
        requires
            old(self).round < old(self).status@.len(),
            old(self).vote < usize::MAX,
        ensures
            old(self).wf() && old(self).current_state() == MissionState::ApprovingMission
                ==> final(self).wf(),
            old(self).same_but_rounds(*final(self)),
            ({
                let r = old(self).round as int;
                let a = old(self).status@[r].approvals@;
                &&& final(self).status@ == old(self).status@.update(
                    r,
                    with_state(old(self).status@[r], MissionState::RunningMission),
                )
                &&& final(self).vote == old(self).vote + if approved(a) {
                    0int
                } else {
                    1int
                }
            }),
    {
        let round = self.round;
        let approve = count_votes(&self.status[round].approvals, Approval::Approve);
        let reject = count_votes(&self.status[round].approvals, Approval::Reject);
        if approve >= reject {
            self.status[round].state = MissionState::RunningMission;
        } else {
            self.vote = self.vote + 1;
            self.status[round].state = MissionState::RunningMission;
        }
    }

    /// Casts the vote of the seat that `player_key` resolves to on the current round's team.
    /// The vote that fills the last empty slot settles the round at once.
    pub fn vote_to_approve(&mut self, player_key: &String, vote: bool) -> (r: Result<
        (),
        ResistanceError,
    >)
        requires
            old(self).wf(),
        ensures
            final(self).wf(),
            match old(self).vote_error(player_key@) {
                Option::Some(e) => r == Err::<(), ResistanceError>(e) && *final(self) == *old(self),
                Option::None => r is Ok && old(self).voted(
                    *final(self),
                    old(self).seat_of(player_key@),
                    vote,
                ),
            },
    {
        let playerid = match self.playerid(player_key) {
            Ok(id) => id,
            Err(e) => {
                return Err(e);
            },
        };
        proof {
            lemma_holds_key(self.players@, player_key@);
        }
        if self.current_status() != MissionState::ApprovingMission {
            return Err(ResistanceError::WrongPhase);
        }
        if self.has_voted(playerid) {
            return Err(ResistanceError::AlreadyVoted);
        }
        let ghost before = *self;
        let round = self.round;
        if self.status[round].approvals.len() == 0 {
            let mut fresh: Vec<Approval> = Vec::new();
            let mut i: usize = 0;
            while i < self.numberofplayers
                invariant
                    i <= self.numberofplayers,
                    fresh@ =~= Seq::new(i as nat, |j: int| Approval::NotVoted),
                decreases self.numberofplayers - i,
            {
                fresh.push(Approval::NotVoted);
                i = i + 1;
            }
            self.status[round].approvals = fresh;
        }
        if vote {
            self.status[round].approvals[playerid] = Approval::Approve;
        } else {
            self.status[round].approvals[playerid] = Approval::Reject;
        }
        assert(self.status@[round as int].approvals@ =~= before.ballots().update(
            playerid as int,
            if vote {
                Approval::Approve
            } else {
                Approval::Reject
            },
        ));
        if self.has_everyone_voted() {
            self.approve_or_reject();
        }
        Ok(())
    }

    /// Why `start` is refused, if it is.
    pub open spec fn start_error(&self) -> Option<ResistanceError> {
        if self.started {
            Option::Some(ResistanceError::AlreadyStarted)
        } else if !all_claimed(self.spots@) {
            Option::Some(ResistanceError::NotEveryoneJoined)
        } else {
            Option::None
        }
    }

    /// `after` is `self` once the game has started: the first round goes to operative selection.
    pub open spec fn started_to(&self, after: Self) -> bool {
        &&& after.started
        &&& after.vote == self.vote
        &&& after.leader == self.leader
        &&& after.players == self.players
        &&& after.spots == self.spots
        &&& after.round == self.round
        &&& after.wins == self.wins
        &&& after.numberofplayers == self.numberofplayers
        &&& after.status@ == self.status@.update(
            0,
            with_state(self.status@[0], MissionState::SelectingOperatives),
        )
    }

    /// Starts the game once every seat is claimed: the first round goes to operative selection.
    pub fn start(&mut self) -> (r: Result<(), ResistanceError>)
        requires
            old(self).wf(),
        ensures
            final(self).wf(),
            match old(self).start_error() {
                Option::Some(e) => r == Err::<(), ResistanceError>(e) && *final(self) == *old(self),
                Option::None => r is Ok && old(self).started_to(*final(self)),
            },
    {
        if self.started {
            Err(ResistanceError::AlreadyStarted)
        } else {
            let mut n: usize = 0;
            while n < self.spots.len()
                invariant
                    *self == *old(self),
                    self.wf(),
                    !self.started,
                    n <= self.spots@.len(),
                    forall|s: int| 0 <= s < n ==> (#[trigger] self.spots@[s]).claimed,
                decreases self.spots@.len() - n,
            {
                if !self.spots[n].claimed {
                    return Err(ResistanceError::NotEveryoneJoined);
                }
                n = n + 1;
            }
            self.started = true;
            self.status[0].state = MissionState::SelectingOperatives;
            Ok(())
        }
    }

    /// Why a rename with key `k` is refused, if it is.
    pub open spec fn change_name_error(&self, k: Seq<char>) -> Option<ResistanceError> {
        if self.started {
            Option::Some(ResistanceError::NameChangeAfterStart)
        } else if !holds_key(self.players@, k) {
            Option::Some(ResistanceError::InvalidPlayer)
        } else {
            Option::None
        }
    }

    /// Renames the player that `player_key` resolves to; names are fixed once the game starts.
    pub fn change_name(&mut self, player_key: &String, name: String) -> (r: Result<
        (),
        ResistanceError,
    >)
        requires
            old(self).wf(),
        ensures
            final(self).wf(),
            match old(self).change_name_error(player_key@) {
                Option::Some(e) => r == Err::<(), ResistanceError>(e) && *final(self) == *old(self),
                Option::None => {
                    let i = key_index(old(self).players@, player_key@);
                    &&& r is Ok
                    &&& final(self).players@ == old(self).players@.update(
                        i,
                        with_name(old(self).players@[i], name),
                    )
                    &&& final(self).leader == old(self).leader
                    &&& final(self).spots == old(self).spots
                    &&& final(self).round == old(self).round
                    &&& final(self).wins == old(self).wins
                    &&& final(self).status == old(self).status
                    &&& final(self).vote == old(self).vote
                    &&& final(self).started == old(self).started
                    &&& final(self).numberofplayers == old(self).numberofplayers
                },
            },
    {
        if self.started {
            Err(ResistanceError::NameChangeAfterStart)
        } else {
            let i = match self.player_index(player_key) {
                Ok(i) => i,
                Err(e) => {
                    return Err(e);
                },
            };
            let ghost before = self.players@;
            self.players[i].change_name(name);
            proof {
                lemma_keys_kept(self.spots@, before, self.spots@, self.players@);
            }
            Ok(())
        }
    }

    /// Why a choice of `count` operatives with key `k` is refused, if it is.
    pub open spec fn choose_error(&self, k: Seq<char>, count: int) -> Option<ResistanceError> {
        if self.current_state() != MissionState::SelectingOperatives {
            Option::Some(ResistanceError::WrongPhase)
        } else if !holds_key(self.players@, k) {
            Option::Some(ResistanceError::InvalidPlayer)
        } else if self.seat_of(k) != self.leader {
            Option::Some(ResistanceError::NotLeader)
        } else if count != mission_size_spec(self.numberofplayers as int, self.round as int) {
            Option::Some(ResistanceError::WrongOperativeCount)
        } else {
            Option::None
        }
    }

    /// The leader names the seats that go on the current round's mission; the round goes on to
    /// the vote on that team.
    pub fn choose_operatives(&mut self, player_key: &String, selected_players: Vec<usize>) -> (r:
        Result<(), ResistanceError>)
        requires
            old(self).wf(),
        ensures
            final(self).wf(),
            match old(self).choose_error(player_key@, selected_players@.len() as int) {
                Option::Some(e) => r == Err::<(), ResistanceError>(e) && *final(self) == *old(self),
                Option::None => {
                    let q = old(self).round as int;
                    &&& r is Ok
                    &&& old(self).same_but_rounds(*final(self))
                    &&& final(self).vote == old(self).vote
                    &&& final(self).status@ == old(self).status@.update(
                        q,
                        RoundStatus {
                            state: MissionState::ApprovingMission,
                            operatives: selected_players,
                            approvals: old(self).status@[q].approvals,
                            mission: old(self).status@[q].mission,
                        },
                    )
                },
            },
    {
        if self.current_status() != MissionState::SelectingOperatives {
            Err(ResistanceError::WrongPhase)
        } else {
            let id = match self.get_player(player_key) {
                Ok(p) => p.id,
                Err(e) => {
                    return Err(e);
                },
            };
            if self.leader != id {
                Err(ResistanceError::NotLeader)
            } else if mission_size(self.numberofplayers, self.round) != selected_players.len() {
                Err(ResistanceError::WrongOperativeCount)
            } else {
                let round = self.round;
                self.status[round].operatives = selected_players;
                self.status[round].state = MissionState::ApprovingMission;
                Ok(())
            }
        }
    }

    /// The mission phase of a round; how its outcome is settled is not decided yet, so every
    /// report is refused and nothing changes.
    pub fn succeed_mission(&mut self, player_key: &String, status: bool) -> (r: Result<
        (),
        ResistanceError,
    >)
        ensures
            r == Err::<(), ResistanceError>(ResistanceError::WrongPhase),
            *final(self) == *old(self),
    {
        Err(ResistanceError::WrongPhase)
    }

    /// `after` is `self` once someone has joined on seat `s` and been handed key `k`: the first
    /// free seat is claimed, and the player whose key is on it takes it as seat id.
    pub open spec fn joined(&self, after: Self, s: int, k: Seq<char>) -> bool {
        let i = key_index(self.players@, k);
        &&& first_unclaimed(self.spots@, s)
        &&& k == self.spots@[s].key@
        &&& after.spots@ == self.spots@.update(s, Spot { key: self.spots@[s].key, claimed: true })
        &&& after.players@ == self.players@.update(i, with_id(self.players@[i], s as usize))
        &&& after.leader == self.leader
        &&& after.round == self.round
        &&& after.wins == self.wins
        &&& after.status == self.status
        &&& after.vote == self.vote
        &&& after.started == self.started
        &&& after.numberofplayers == self.numberofplayers
    }

    /// Claims the first free seat, in seat order, and hands back the key of the player on it.
    pub fn join(&mut self) -> (r: Result<String, ResistanceError>)
        requires
            old(self).wf(),
        ensures
            final(self).wf(),
            r is Ok <==> !all_claimed(old(self).spots@),
            r matches Ok(k) ==> joins_once(*old(self), *final(self), k@),
            r matches Err(e) ==> e == ResistanceError::NoSpotsAvailable && *final(self) == *old(
                self,
            ),
    {
        match self.first_free_seat() {
            Option::Some(n) => {
                let ghost before = *self;
                let player_key = self.spots[n].key.clone();
                let i = match self.player_index(&player_key) {
                    Ok(i) => i,
                    Err(e) => {
                        return Err(e);
                    },
                };
                self.spots[n].claimed = true;
                self.players[i].id = n;
                proof {
                    lemma_keys_kept(before.spots@, before.players@, self.spots@, self.players@);
                }
                let r: Result<String, ResistanceError> = Ok(player_key);
                assert(r matches Ok(k) ==> old(self).joined(*self, n as int, k@));
                r
            },
            Option::None => Err(ResistanceError::NoSpotsAvailable),
        }
    }

    fn first_free_seat(&self) -> (r: Option<usize>)
        ensures
            r is None <==> all_claimed(self.spots@),
            r matches Option::Some(s) ==> first_unclaimed(self.spots@, s as int),
    {
        let mut n: usize = 0;
        while n < self.spots.len()
            invariant
                n <= self.spots@.len(),
                forall|t: int| 0 <= t < n ==> (#[trigger] self.spots@[t]).claimed,
            decreases self.spots@.len() - n,
        {
            if !self.spots[n].claimed {
                return Option::Some(n);
            }
            n = n + 1;
        }
        Option::None
    }
}

/// The length of a session id.
pub const ID_LEN: usize = 6;

/// Some session is filed under id `k`.
pub open spec fn holds_id(ids: Seq<String>, k: Seq<char>) -> bool {
    exists|i: int| 0 <= i < ids.len() && (#[trigger] ids[i])@ == k
}

/// Where the session filed under `k` stands.
pub open spec fn id_index(ids: Seq<String>, k: Seq<char>) -> int {
    choose|i: int| 0 <= i < ids.len() && (#[trigger] ids[i])@ == k
}

/// No two sessions share an id.
pub open spec fn ids_distinct(ids: Seq<String>) -> bool {
    forall|i: int, j: int| 0 <= i < ids.len() && 0 <= j < ids.len() && i != j ==> (#[trigger] ids[i])@
        != (#[trigger] ids[j])@
}

proof fn lemma_id_index(ids: Seq<String>, k: Seq<char>, i: int)
    requires
        ids_distinct(ids),
        0 <= i < ids.len(),
        ids[i]@ == k,
    ensures
        id_index(ids, k) == i,
{
    assert(holds_id(ids, k));
}

/// All the sessions of a process, filed by id, with the generator that draws ids and keys and
/// the word list that display names come from.
#[derive(Debug)]
pub struct ResistanceGames {
    pub rng: rand::rngs::ThreadRng,
    pub ids: Vec<String>,
    pub games: Vec<ResistanceGame>,
    pub word_list: Option<Vec<String>>,
}

impl ResistanceGames {
    pub open spec fn wf(&self) -> bool {
        &&& self.ids@.len() == self.games@.len()
        &&& ids_distinct(self.ids@)
    }

    /// The session filed under id `k`.
    pub open spec fn game_of(&self, k: Seq<char>) -> Option<ResistanceGame> {
        if holds_id(self.ids@, k) {
            Option::Some(self.games@[id_index(self.ids@, k)])
        } else {
            Option::None
        }
    }

    /// An empty registry whose sessions draw display names from `word_list`, the lines of the
    /// word list when it could be read.
    pub fn new(word_list: Option<Vec<String>>) -> (r: Self)
        ensures
            r.wf(),
            r.ids@.len() == 0,
            r.word_list == word_list,
    {
        ResistanceGames {
            rng: rand::thread_rng(),
            ids: Vec::new(),
            games: Vec::new(),
            word_list,
        }
    }

    fn find(&self, key: &String) -> (r: Option<usize>)
        requires
            self.wf(),
        ensures
            r is None <==> !holds_id(self.ids@, key@),
            r matches Option::Some(i) ==> i == id_index(self.ids@, key@) && i < self.ids@.len(),
    {
        let mut i: usize = 0;
        while i < self.ids.len()
            invariant
                self.wf(),
                i <= self.ids@.len(),
                forall|j: int| 0 <= j < i ==> (#[trigger] self.ids@[j])@ != key@,
            decreases self.ids@.len() - i,
        {
            if self.ids[i] == *key {
                proof {
                    lemma_id_index(self.ids@, key@, i as int);
                }
                return Option::Some(i);
            }
            i = i + 1;
        }
        Option::None
    }

    /// Deals a new session for `numberofplayers` players under a fresh random id, which is
    /// handed back. A session already filed under the same id is replaced.
    pub fn create(&mut self, numberofplayers: usize) -> (r: Result<String, ResistanceError>)
        requires
            old(self).wf(),
        ensures
            final(self).wf(),
            final(self).word_list == old(self).word_list,
            r is Ok <==> MIN_PLAYERS <= numberofplayers <= MAX_PLAYERS,
            r matches Err(e) ==> e == ResistanceError::InvalidHeadcount && final(self).ids
                == old(self).ids && final(self).games == old(self).games,
            r matches Ok(id) ==> {
                &&& id@.len() == ID_LEN
                &&& final(self).game_of(id@) matches Option::Some(g) && g.is_fresh(
                    numberofplayers,
                    old(self).word_list,
                )
                &&& forall|k: Seq<char>|
                    k != id@ ==> #[trigger] final(self).game_of(k) == old(self).game_of(k)
            },
    {
        let id = random_token(&mut self.rng, ID_LEN);
        let game = match ResistanceGame::new(numberofplayers, &mut self.rng, &self.word_list) {
            Ok(g) => g,
            Err(e) => {
                return Err(e);
            },
        };
        let ghost before = *self;
        match self.find(&id) {
            Option::Some(i) => {
                self.games.set(i, game);
                proof {
                    assert forall|k: Seq<char>| k != id@ implies #[trigger] self.game_of(k)
                        == before.game_of(k) by {
                        if holds_id(self.ids@, k) {
                            let j = choose|j: int|
                                0 <= j < self.ids@.len() && (#[trigger] self.ids@[j])@ == k;
                            lemma_id_index(self.ids@, k, j);
                        }
                    }
                }
            },
            Option::None => {
                self.ids.push(id.clone());
                self.games.push(game);
                proof {
                    let n = before.ids@.len() as int;
                    assert(self.ids@[n]@ == id@);
                    lemma_id_index(self.ids@, id@, n);
                    assert forall|k: Seq<char>| k != id@ implies #[trigger] self.game_of(k)
                        == before.game_of(k) by {
                        if holds_id(self.ids@, k) {
                            let j = choose|j: int|
                                0 <= j < self.ids@.len() && (#[trigger] self.ids@[j])@ == k;
                            assert(j != n);
                            assert(before.ids@[j] == self.ids@[j]);
                            lemma_id_index(self.ids@, k, j);
                            lemma_id_index(before.ids@, k, j);
                        }
                        if holds_id(before.ids@, k) {
                            let j = choose|j: int|
                                0 <= j < before.ids@.len() && (#[trigger] before.ids@[j])@ == k;
                            assert(before.ids@[j] == self.ids@[j]);
                        }
                    }
                }
            },
        }
        Ok(id)
    }

    /// The session filed under `key`.
    pub fn get(&self, key: &String) -> (r: Option<&ResistanceGame>)
        requires
            self.wf(),
        ensures
            r is None <==> self.game_of(key@) is None,
            r matches Option::Some(g) ==> self.game_of(key@) == Option::Some(*g),
    {
        match self.find(key) {
            Option::Some(i) => Option::Some(&self.games[i]),
            Option::None => Option::None,
        }
    }

    /// The session filed under `key`, to be changed in place.
    pub fn get_mut(&mut self, key: &String) -> (r: Option<&mut ResistanceGame>)
        requires
            old(self).wf(),
        ensures
            r is None <==> old(self).game_of(key@) is None,
            r is None ==> *final(self) == *old(self),
            r matches Option::Some(g) ==> {
                &&& old(self).game_of(key@) == Option::Some(*g)
                &&& final(self).ids == old(self).ids
                &&& final(self).word_list == old(self).word_list
                &&& final(self).games@ == old(self).games@.update(
                    id_index(old(self).ids@, key@),
                    *final(g),
                )
            },
    {
        match self.find(key) {
            Option::Some(i) => Option::Some(&mut self.games[i]),
            Option::None => Option::None,
        }
    }
}

} // verus!

use vstd::prelude::*;
use crate::resistance::{
    all_claimed, all_voted, first_with_key, holds_key, joins_once, lemma_key_index, key_index, lemma_holds_key, Approval, MissionState, ResistanceError,
    ResistanceGame,
};

verus! {

/// The claimed seats along a run of joins from a session with every seat free are the first
/// ones, as many as joins so far.
proof fn lemma_claimed_prefix(run: Seq<ResistanceGame>, keys: Seq<Seq<char>>, i: int)
    requires
        run.len() >= 1,
        keys.len() == run.len() - 1,
        forall|s: int| 0 <= s < run[0].spots@.len() ==> !(#[trigger] run[0].spots@[s]).claimed,
        forall|j: int| 0 <= j < run.len() - 1 ==> joins_once(#[trigger] run[j], run[j + 1], keys[j]),
        0 <= i < run.len(),
    ensures
        run[i].spots@.len() == run[0].spots@.len(),
        run[i].numberofplayers == run[0].numberofplayers,
        i <= run[0].spots@.len(),
        forall|s: int| 0 <= s < run[i].spots@.len() ==> ((#[trigger] run[i].spots@[s]).claimed <==> s < i),
    decreases i,
{
    if i > 0 {
        lemma_claimed_prefix(run, keys, i - 1);
        assert(joins_once(run[i - 1], run[i], keys[i - 1]));
        let s = choose|s: int| #[trigger] run[i - 1].joined(run[i], s, keys[i - 1]);
        if s > i - 1 {
            assert(run[i - 1].spots@[i - 1].claimed);
        }
        assert(s == i - 1);
    }
}

/// Seats run out: along any run of successful joins from a session in which no seat is claimed,
/// there are at most as many joins as seats; after fewer, some seat is still free, so `start`
/// is refused for want of players; after exactly that many every seat is claimed, so the next
/// join is refused.
pub proof fn law_seats_run_out(run: Seq<ResistanceGame>, keys: Seq<Seq<char>>)
    requires
        run.len() >= 1,
        run[0].wf(),
        forall|s: int| 0 <= s < run[0].spots@.len() ==> !(#[trigger] run[0].spots@[s]).claimed,
        keys.len() == run.len() - 1,
        forall|j: int| 0 <= j < run.len() - 1 ==> joins_once(#[trigger] run[j], run[j + 1], keys[j]),
    ensures
        run.len() - 1 <= run[0].numberofplayers,
        run.len() - 1 < run[0].numberofplayers ==> !all_claimed(run.last().spots@),
        run.len() - 1 == run[0].numberofplayers ==> all_claimed(run.last().spots@),
{
    let last = run.len() - 1;
    lemma_claimed_prefix(run, keys, last);
    if last < run[0].numberofplayers {
        assert(!run[last].spots@[last].claimed);
    }
}

/// Along a run of joins from a session with every seat free, the keys and the seat ids stay as
/// the joins have left them so far.
proof fn lemma_seats_in_order(run: Seq<ResistanceGame>, keys: Seq<Seq<char>>, m: int)
    requires
        run.len() >= 1,
        run[0].wf(),
        keys.len() == run.len() - 1,
        forall|s: int| 0 <= s < run[0].spots@.len() ==> !(#[trigger] run[0].spots@[s]).claimed,
        forall|j: int| 0 <= j < run.len() - 1 ==> joins_once(#[trigger] run[j], run[j + 1], keys[j]),
        0 <= m < run.len(),
    ensures
        run[m].players@.len() == run[0].players@.len(),
        forall|p: int|
            0 <= p < run[0].players@.len() ==> (#[trigger] run[m].players@[p]).key@
                == run[0].players@[p].key@,
        forall|i: int| 0 <= i < m ==> #[trigger] keys[i] == run[0].spots@[i].key@,
        forall|i: int|
            0 <= i < m ==> run[m].players@[key_index(run[0].players@, #[trigger] keys[i])].id == i,
    decreases m,
{
    if m > 0 {
        let l = m - 1;
        lemma_seats_in_order(run, keys, l);
        lemma_claimed_prefix(run, keys, l);
        let s = choose|s: int| #[trigger] run[l].joined(run[m], s, keys[l]);
        if s > l {
            assert(run[l].spots@[l].claimed);
        }
        assert(s == l);
        let ps0 = run[0].players@;
        assert(holds_key(ps0, run[0].spots@[l].key@));
        lemma_holds_key(ps0, keys[l]);
        let c = key_index(ps0, keys[l]);
        assert forall|j: int| 0 <= j < c implies (#[trigger] run[l].players@[j]).key@ != keys[l] by {
            assert(ps0[j].key@ != keys[l]);
        }
        assert(first_with_key(run[l].players@, keys[l], c));
        lemma_key_index(run[l].players@, keys[l], c);
        assert forall|p: int| 0 <= p < ps0.len() implies (#[trigger] run[m].players@[p]).key@
            == ps0[p].key@ by {
            assert(run[l].players@[p].key@ == ps0[p].key@);
        }
        assert forall|i: int| 0 <= i < m implies run[m].players@[key_index(
            ps0,
            #[trigger] keys[i],
        )].id == i by {
            if i < l {
                assert(keys[i] != keys[l]);
                lemma_holds_key(ps0, keys[i]);
                assert(key_index(ps0, keys[i]) != c);
            }
        }
    }
}

/// Joins seat players in seat order: along a run of successful joins from a session in which no
/// seat is claimed, the `i`-th join hands out the key on seat `i`, no key is handed out twice,
/// and each key handed out resolves to the player that sits on its seat.
pub proof fn law_joins_follow_seat_order(run: Seq<ResistanceGame>, keys: Seq<Seq<char>>)
    requires
        run.len() >= 1,
        run[0].wf(),
        forall|s: int| 0 <= s < run[0].spots@.len() ==> !(#[trigger] run[0].spots@[s]).claimed,
        keys.len() == run.len() - 1,
        forall|j: int| 0 <= j < run.len() - 1 ==> joins_once(#[trigger] run[j], run[j + 1], keys[j]),
    ensures
        forall|i: int| 0 <= i < keys.len() ==> #[trigger] keys[i] == run[0].spots@[i].key@,
        forall|i: int, j: int|
            0 <= i < keys.len() && 0 <= j < keys.len() && i != j ==> #[trigger] keys[i]
                != #[trigger] keys[j],
        forall|i: int|
            0 <= i < keys.len() ==> holds_key(run.last().players@, #[trigger] keys[i])
                && run.last().seat_of(keys[i]) == i,
{
    let last = run.len() - 1;
    lemma_seats_in_order(run, keys, last);
    lemma_claimed_prefix(run, keys, last);
    let ps0 = run[0].players@;
    let ps = run[last].players@;
    assert forall|i: int| 0 <= i < keys.len() implies holds_key(ps, #[trigger] keys[i])
        && run.last().seat_of(keys[i]) == i by {
        assert(holds_key(ps0, run[0].spots@[i].key@));
        lemma_holds_key(ps0, keys[i]);
        let c = key_index(ps0, keys[i]);
        assert forall|j: int| 0 <= j < c implies (#[trigger] ps[j]).key@ != keys[i] by {
            assert(ps0[j].key@ != keys[i]);
        }
        assert(first_with_key(ps, keys[i], c));
        lemma_key_index(ps, keys[i], c);
    }
}

/// Names are fixed at the start: before `start` a key that resolves to a player may rename it,
/// and once `start` has gone through every rename is refused with `NameChangeAfterStart`.
pub proof fn law_names_fixed_at_start(before: ResistanceGame, after: ResistanceGame, k: Seq<char>)
    requires
        before.wf(),
        before.start_error() is None,
        before.started_to(after),
        holds_key(before.players@, k),
    ensures
        before.change_name_error(k) is None,
        after.change_name_error(k) == Option::Some(ResistanceError::NameChangeAfterStart),
{
}

/// One vote per seat: once a seat's vote is recorded, a further vote with any key that resolves
/// to the same seat is refused, with `AlreadyVoted` while the round is still being voted on; and
/// the vote that fills the last slot sends the round to its mission whatever the tally.
pub proof fn law_one_vote_per_seat(
    before: ResistanceGame,
    after: ResistanceGame,
    k: Seq<char>,
    approve: bool,
    k2: Seq<char>,
)
    requires
        before.wf(),
        before.vote_error(k) is None,
        before.voted(after, before.seat_of(k), approve),
        holds_key(after.players@, k2),
        after.seat_of(k2) == before.seat_of(k),
    ensures
        after.vote_error(k2) is Some,
        after.current_state() == MissionState::ApprovingMission ==> after.vote_error(k2)
            == Option::Some(ResistanceError::AlreadyVoted),
        all_voted(after.status@[after.round as int].approvals@) ==> after.current_state() == MissionState::RunningMission,
{
    lemma_holds_key(before.players@, k);
    let pid = before.seat_of(k);
    let i = key_index(before.players@, k);
    assert(before.players@[i].id < before.numberofplayers);
    let a = after.status@[after.round as int].approvals@;
    assert(a[pid as int] != Approval::NotVoted);
}

} // verus!

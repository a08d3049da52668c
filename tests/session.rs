use distance_resistance::names::get_name;
use distance_resistance::resistance::{
    mission_size, Approval, MissionState, PlayerType, ResistanceError, ResistanceGame,
    ResistanceGames,
};

fn fresh(n: usize) -> ResistanceGame {
    let mut rng = rand::thread_rng();
    ResistanceGame::new(n, &mut rng, &None).unwrap()
}

fn seated(n: usize) -> (ResistanceGame, Vec<String>) {
    let mut g = fresh(n);
    let mut keys = Vec::new();
    for _ in 0..n {
        keys.push(g.join().unwrap());
    }
    (g, keys)
}

fn started(n: usize) -> (ResistanceGame, Vec<String>) {
    let (mut g, keys) = seated(n);
    g.start().unwrap();
    (g, keys)
}

#[test]
fn construction_accepts_five_to_ten() {
    let mut rng = rand::thread_rng();
    for n in 0..20usize {
        let r = ResistanceGame::new(n, &mut rng, &None);
        if (5..=10).contains(&n) {
            let g = r.unwrap();
            assert_eq!(g.numberofplayers, n);
            assert_eq!(g.spots.len(), n);
            assert_eq!(g.players.len(), n);
            assert_eq!(g.status.len(), 5);
            assert!(!g.started);
            assert!(g.status.iter().all(|s| s.state == MissionState::Pending));
            assert!(g.spots.iter().all(|s| !s.claimed));
        } else {
            assert_eq!(r.unwrap_err(), ResistanceError::InvalidHeadcount);
        }
    }
    assert_eq!(
        ResistanceGame::new(usize::MAX, &mut rng, &None).unwrap_err(),
        ResistanceError::InvalidHeadcount
    );
}

#[test]
fn roles_are_dealt_by_creation_order() {
    for n in 5..=10usize {
        let g = fresh(n);
        for (i, p) in g.players.iter().enumerate() {
            let expected = if i <= n / 2 { PlayerType::Agent } else { PlayerType::Spy };
            assert_eq!(p.player_type, expected);
        }
        let agents = g.players.iter().filter(|p| p.player_type == PlayerType::Agent).count();
        assert_eq!(agents, n / 2 + 1);
    }
}

#[test]
fn seats_hold_the_players_keys() {
    let g = fresh(8);
    let mut seat_keys: Vec<String> = g.spots.iter().map(|s| s.key.clone()).collect();
    let mut player_keys: Vec<String> = g.players.iter().map(|p| p.key.clone()).collect();
    seat_keys.sort();
    player_keys.sort();
    assert_eq!(seat_keys, player_keys);
    for k in &player_keys {
        assert_eq!(k.len(), 18);
        assert!(k.chars().all(|c| c.is_ascii_alphanumeric()));
    }
}

#[test]
fn mission_size_table() {
    let table = [
        [2, 2, 2, 3, 3, 3],
        [3, 3, 3, 4, 4, 4],
        [2, 4, 3, 4, 4, 4],
        [3, 3, 4, 5, 5, 5],
        [3, 4, 4, 5, 5, 5],
    ];
    for round in 0..5usize {
        for n in 5..=10usize {
            assert_eq!(mission_size(n, round), table[round][n - 5]);
        }
    }
    assert_eq!(mission_size(5, 0), 2);
    assert_eq!(mission_size(7, 2), 3);
    assert_eq!(mission_size(10, 4), 5);
}

#[test]
fn join_claims_seats_in_order_until_full() {
    let mut g = fresh(6);
    for n in 0..6usize {
        let key = g.join().unwrap();
        assert_eq!(key, g.spots[n].key);
        assert!(g.spots[n].claimed);
        let p = g.players.iter().find(|p| p.key == key).unwrap();
        assert_eq!(p.id, n);
    }
    assert_eq!(g.join().unwrap_err(), ResistanceError::NoSpotsAvailable);
    assert_eq!(g.join().unwrap_err(), ResistanceError::NoSpotsAvailable);
}

#[test]
fn start_waits_for_everyone() {
    let mut g = fresh(5);
    assert_eq!(g.start().unwrap_err(), ResistanceError::NotEveryoneJoined);
    for _ in 0..4 {
        g.join().unwrap();
        assert_eq!(g.start().unwrap_err(), ResistanceError::NotEveryoneJoined);
    }
    assert_eq!(g.status[0].state, MissionState::Pending);
    g.join().unwrap();
    g.start().unwrap();
    assert!(g.started);
    assert_eq!(g.status[0].state, MissionState::SelectingOperatives);
    assert_eq!(g.start().unwrap_err(), ResistanceError::AlreadyStarted);
}

#[test]
fn names_change_only_before_start() {
    let (mut g, keys) = seated(5);
    g.change_name(&keys[2], "Alice".to_string()).unwrap();
    let p = g.players.iter().find(|p| p.key == keys[2]).unwrap();
    assert_eq!(p.name, "Alice");
    assert_eq!(
        g.change_name(&"nobody".to_string(), "Bob".to_string()).unwrap_err(),
        ResistanceError::InvalidPlayer
    );
    g.start().unwrap();
    assert_eq!(
        g.change_name(&keys[2], "Carol".to_string()).unwrap_err(),
        ResistanceError::NameChangeAfterStart
    );
    let p = g.players.iter().find(|p| p.key == keys[2]).unwrap();
    assert_eq!(p.name, "Alice");
}

#[test]
fn choose_operatives_before_start_is_wrong_phase() {
    let (mut g, keys) = seated(5);
    assert_eq!(
        g.choose_operatives(&keys[0], vec![0, 1]).unwrap_err(),
        ResistanceError::WrongPhase
    );
    assert_eq!(g.status[0].state, MissionState::Pending);
}

#[test]
fn non_leader_cannot_choose() {
    let (mut g, keys) = started(5);
    assert_eq!(
        g.choose_operatives(&keys[1], vec![0, 1]).unwrap_err(),
        ResistanceError::NotLeader
    );
    assert_eq!(g.status[0].state, MissionState::SelectingOperatives);
    assert!(g.status[0].operatives.is_empty());
}

#[test]
fn unknown_key_cannot_choose() {
    let (mut g, _) = started(5);
    assert_eq!(
        g.choose_operatives(&"x".to_string(), vec![0, 1]).unwrap_err(),
        ResistanceError::InvalidPlayer
    );
    assert_eq!(g.status[0].state, MissionState::SelectingOperatives);
}

#[test]
fn leader_must_pick_the_mission_size() {
    let (mut g, keys) = started(7);
    for picks in [vec![], vec![0], vec![0, 1, 2]] {
        assert_eq!(
            g.choose_operatives(&keys[0], picks).unwrap_err(),
            ResistanceError::WrongOperativeCount
        );
        assert_eq!(g.status[0].state, MissionState::SelectingOperatives);
    }
    g.choose_operatives(&keys[0], vec![3, 3]).unwrap();
    assert_eq!(g.status[0].state, MissionState::ApprovingMission);
    assert_eq!(g.status[0].operatives, vec![3, 3]);
    assert_eq!(
        g.choose_operatives(&keys[0], vec![1, 2]).unwrap_err(),
        ResistanceError::WrongPhase
    );
}

#[test]
fn vote_before_choice_is_wrong_phase() {
    let (mut g, keys) = started(5);
    assert_eq!(g.vote_to_approve(&keys[0], true).unwrap_err(), ResistanceError::WrongPhase);
    assert_eq!(g.status[0].state, MissionState::SelectingOperatives);
    assert!(g.status[0].approvals.is_empty());
}

#[test]
fn each_seat_votes_once() {
    let (mut g, keys) = started(5);
    g.choose_operatives(&keys[0], vec![0, 1]).unwrap();
    g.vote_to_approve(&keys[3], false).unwrap();
    assert_eq!(g.status[0].approvals.len(), 5);
    assert_eq!(g.status[0].approvals[3], Approval::Reject);
    assert_eq!(g.status[0].approvals[0], Approval::NotVoted);
    assert_eq!(g.vote_to_approve(&keys[3], true).unwrap_err(), ResistanceError::AlreadyVoted);
    assert_eq!(g.status[0].approvals[3], Approval::Reject);
    assert_eq!(
        g.vote_to_approve(&"x".to_string(), true).unwrap_err(),
        ResistanceError::InvalidPlayer
    );
    assert_eq!(g.status[0].state, MissionState::ApprovingMission);
}

#[test]
fn tie_counts_as_approval() {
    let (mut g, keys) = started(6);
    g.choose_operatives(&keys[0], vec![0, 1]).unwrap();
    for (i, k) in keys.iter().enumerate() {
        g.vote_to_approve(k, i % 2 == 0).unwrap();
    }
    assert_eq!(g.status[0].state, MissionState::RunningMission);
    assert_eq!(g.vote, 0);
}

#[test]
fn rejection_still_runs_the_mission() {
    let (mut g, keys) = started(5);
    g.choose_operatives(&keys[0], vec![0, 1]).unwrap();
    for k in &keys {
        g.vote_to_approve(k, false).unwrap();
    }
    assert_eq!(g.status[0].state, MissionState::RunningMission);
    assert_eq!(g.vote, 1);
    assert_eq!(g.vote_to_approve(&keys[0], true).unwrap_err(), ResistanceError::WrongPhase);
}

#[test]
fn five_player_round() {
    let (mut g, keys) = seated(5);
    g.start().unwrap();
    assert_eq!(g.status[0].state, MissionState::SelectingOperatives);
    assert_eq!(g.leader, 0);
    g.choose_operatives(&keys[0], vec![0, 1]).unwrap();
    assert_eq!(g.status[0].state, MissionState::ApprovingMission);
    let votes = [false, true, true, false, false];
    for (k, v) in keys.iter().zip(votes) {
        assert_eq!(g.status[0].state, MissionState::ApprovingMission);
        g.vote_to_approve(k, v).unwrap();
    }
    assert_eq!(g.status[0].state, MissionState::RunningMission);
    assert_eq!(g.vote, 1);
    assert_eq!(g.round, 0);
}

#[test]
fn mission_reports_are_refused() {
    let (mut g, keys) = started(5);
    assert_eq!(g.succeed_mission(&keys[0], true).unwrap_err(), ResistanceError::WrongPhase);
    assert_eq!(g.status[0].state, MissionState::SelectingOperatives);
}

#[test]
fn names_come_from_the_word_list() {
    let mut rng = rand::thread_rng();
    assert_eq!(get_name(&None, &mut rng), "Crash Override");
    assert_eq!(get_name(&Some(vec![]), &mut rng), "Acid Burn");
    assert_eq!(get_name(&Some(vec!["Zero Cool".to_string()]), &mut rng), "Zero Cool");
    let words = vec!["Cereal Killer".to_string(), "Lord Nikon".to_string()];
    for _ in 0..20 {
        assert!(words.contains(&get_name(&Some(words.clone()), &mut rng)));
    }
    let g = ResistanceGame::new(5, &mut rng, &Some(vec!["Phantom Phreak".to_string()])).unwrap();
    assert!(g.players.iter().all(|p| p.name == "Phantom Phreak"));
    let g = ResistanceGame::new(5, &mut rng, &None).unwrap();
    assert!(g.players.iter().all(|p| p.name == "Crash Override"));
}

#[test]
fn registry_files_sessions_by_id() {
    let mut games = ResistanceGames::new(None);
    assert_eq!(games.create(4).unwrap_err(), ResistanceError::InvalidHeadcount);
    assert_eq!(games.create(11).unwrap_err(), ResistanceError::InvalidHeadcount);
    assert!(games.ids.is_empty());
    let a = games.create(5).unwrap();
    let b = games.create(9).unwrap();
    assert_eq!(a.len(), 6);
    assert!(a.chars().all(|c| c.is_ascii_alphanumeric()));
    assert_eq!(games.get(&a).unwrap().numberofplayers, 5);
    assert_eq!(games.get(&b).unwrap().numberofplayers, 9);
    assert!(games.get(&"nope".to_string()).is_none());
    assert!(games.get_mut(&"nope".to_string()).is_none());
    games.get_mut(&a).unwrap().join().unwrap();
    assert!(games.get(&a).unwrap().spots[0].claimed);
    assert!(!games.get(&b).unwrap().spots[0].claimed);
}

#[test]
fn seat_order_is_shuffled() {
    let mut reordered = false;
    for _ in 0..5 {
        let g = fresh(10);
        let seat_keys: Vec<&String> = g.spots.iter().map(|s| &s.key).collect();
        let player_keys: Vec<&String> = g.players.iter().map(|p| &p.key).collect();
        reordered |= seat_keys != player_keys;
    }
    assert!(reordered);
}

#[test]
fn keys_are_distinct_and_each_sits_on_its_seat() {
    for n in 5..=10usize {
        let (g, keys) = seated(n);
        for i in 0..n {
            assert_eq!(keys[i], g.spots[i].key);
            for j in 0..n {
                if i != j {
                    assert_ne!(keys[i], keys[j]);
                    assert_ne!(g.players[i].key, g.players[j].key);
                }
            }
            let p = g.players.iter().find(|p| p.key == keys[i]).unwrap();
            assert_eq!(p.id, i);
        }
    }
}

#[test]
fn join_after_start_finds_no_seat() {
    let (mut g, _) = started(5);
    assert_eq!(g.join().unwrap_err(), ResistanceError::NoSpotsAvailable);
    assert!(g.started);
}

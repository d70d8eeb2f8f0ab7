use guess_the_song::message::ServerMessage;
use guess_the_song::round::{build_options, log10_floor_exec, score_delta, RoundEngine};
use guess_the_song::song::Song;

fn song(id: &str, title: &str, artist: &str) -> Song {
    Song { id: id.to_string(), title: title.to_string(), artist: artist.to_string() }
}

fn bag(n: usize) -> Vec<Song> {
    (0..n).map(|i| song(&format!("id{}", i), &format!("title{}", i), &format!("artist{}", i))).collect()
}

fn pair(s: &Song) -> (String, String) {
    (s.title.clone(), s.artist.clone())
}

#[test]
fn score_at_zero_is_33() {
    assert_eq!(score_delta(0), 33);
    assert_eq!(score_delta(1790), 33);
    assert_eq!(score_delta(5), 33);
}

#[test]
fn log10_floor_values() {
    assert_eq!(log10_floor_exec(1), 0);
    assert_eq!(log10_floor_exec(9), 0);
    assert_eq!(log10_floor_exec(10), 1);
    assert_eq!(log10_floor_exec(100), 2);
    assert_eq!(log10_floor_exec(999), 2);
    assert_eq!(log10_floor_exec(u64::MAX), 19);
}

#[test]
fn options_hold_current_song_and_come_from_bag() {
    let songs = bag(10);
    for k in 0..songs.len() {
        let (opts, correct) = build_options(&songs, k);
        let all: Vec<(String, String)> = songs.iter().map(pair).collect();
        if songs.len() - k >= 4 {
            assert_eq!(opts.len(), 4);
        }
        assert!(opts.len() >= 1 && opts.len() <= 4);
        assert_eq!(opts[correct as usize], pair(&songs[k]));
        for o in &opts {
            assert!(all.contains(o));
        }
    }
}

#[test]
fn options_for_bag_of_one() {
    let songs = bag(1);
    let (opts, correct) = build_options(&songs, 0);
    assert_eq!(opts, vec![pair(&songs[0])]);
    assert_eq!(correct, 0);
}

#[test]
fn options_pad_from_played_songs() {
    let songs = bag(5);
    let (opts, correct) = build_options(&songs, 4);
    assert_eq!(opts.len(), 4);
    assert_eq!(opts[correct as usize], pair(&songs[4]));
    let n_current = opts.iter().filter(|o| **o == pair(&songs[4])).count();
    assert_eq!(n_current, 1);
}

#[test]
fn engine_runs_rounds_in_order() {
    let songs = bag(3);
    let mut e = RoundEngine::new(42, vec![1, 2], vec!["A".to_string(), "B".to_string()], songs);
    let mut rounds = 0;
    while e.has_next_round() {
        let msgs = e.begin_round();
        assert_eq!(msgs.len(), 2);
        let current = e.songs[e.round].clone();
        assert_eq!(msgs[0], ServerMessage::GamePlayAudio(current.id.clone()));
        match &msgs[1] {
            ServerMessage::GameGuessOptions(opts) => {
                assert_eq!(opts[e.correct_idx as usize], pair(&current));
            }
            other => panic!("unexpected {:?}", other),
        }
        assert!(!e.round_over(10));
        let correct = e.correct_idx;
        assert!(e.take_guess(1, correct, 3));
        assert!(!e.take_guess(1, correct, 4));
        assert!(e.take_guess(2, correct.wrapping_add(1), 5));
        assert!(e.round_over(10));
        let msgs = e.end_round();
        assert_eq!(msgs[0], ServerMessage::Correct(correct));
        rounds += 1;
        assert_eq!(msgs[1], ServerMessage::LeaderBoard(vec![("A".to_string(), 33 * rounds)]));
    }
    assert_eq!(rounds, 3);
}

#[test]
fn round_without_guesses_times_out_and_scores_nothing() {
    let mut e = RoundEngine::new(1, vec![1, 2], vec!["A".to_string(), "B".to_string()], bag(2));
    e.begin_round();
    assert!(!e.round_over(179));
    assert!(e.round_over(180));
    let msgs = e.end_round();
    assert_eq!(msgs[1], ServerMessage::LeaderBoard(vec![]));
}

#[test]
fn late_or_foreign_guesses_do_not_score() {
    let mut e = RoundEngine::new(1, vec![1, 2], vec!["A".to_string(), "B".to_string()], bag(4));
    e.begin_round();
    let c = e.correct_idx;
    assert!(!e.take_guess(9, c, 1));
    assert!(e.take_guess(2, c, 180));
    assert!(e.take_guess(1, c, 0));
    assert_eq!(e.leaderboard, vec![(1, 33)]);
    let msgs = e.end_round();
    assert_eq!(msgs[1], ServerMessage::LeaderBoard(vec![("A".to_string(), 33)]));
}

#[test]
fn options_count_with_duplicate_ids() {
    let songs = vec![song("a", "t1", "x"), song("a", "t2", "x"), song("b", "t3", "x"), song("c", "t4", "x")];
    let (opts, correct) = build_options(&songs, 3);
    assert_eq!(opts.len(), 4);
    assert_eq!(opts[correct as usize], pair(&songs[3]));
    let (opts, _) = build_options(&songs, 1);
    assert_eq!(opts.len(), 3);
    assert!(!opts.contains(&pair(&songs[0])));
}

#[test]
fn leaderboard_is_ranked_by_score() {
    let mut e = RoundEngine::new(1, vec![1, 2], vec!["A".to_string(), "B".to_string()], bag(3));
    e.begin_round();
    let c = e.correct_idx;
    e.take_guess(1, c, 1);
    e.take_guess(2, c, 2);
    let msgs = e.end_round();
    assert_eq!(msgs[1], ServerMessage::LeaderBoard(vec![("A".to_string(), 33), ("B".to_string(), 33)]));
    e.begin_round();
    let c = e.correct_idx;
    e.take_guess(2, c, 1);
    let msgs = e.end_round();
    assert_eq!(msgs[1], ServerMessage::LeaderBoard(vec![("B".to_string(), 66), ("A".to_string(), 33)]));
    e.begin_round();
    let c = e.correct_idx;
    e.take_guess(1, c, 1);
    let msgs = e.end_round();
    assert_eq!(msgs[1], ServerMessage::LeaderBoard(vec![("A".to_string(), 66), ("B".to_string(), 66)]));
}

#[test]
fn options_are_distinct_songs() {
    let songs = bag(8);
    for k in 0..songs.len() {
        let (opts, _) = build_options(&songs, k);
        assert_eq!(opts.len(), 4);
        for i in 0..opts.len() {
            for j in 0..i {
                assert_ne!(opts[i], opts[j]);
            }
        }
        if songs.len() - k >= 4 {
            let unplayed: Vec<(String, String)> = songs[k..].iter().map(pair).collect();
            for o in &opts {
                assert!(unplayed.contains(o));
            }
        }
    }
}

use guess_the_song::music_handler::{
    get_one_or_more_songs_from_id, keep_retrying, pick_initial_videos, retry_candidate, search_query,
    source_kind, take_suggestions, InstanceFinder, SourceKind,
};
use guess_the_song::song::{OneOrMoreSongs, Song};

fn song(id: &str) -> Song {
    Song { id: id.to_string(), title: "t".to_string(), artist: "a".to_string() }
}

#[test]
fn instances_rotate() {
    let mut f = InstanceFinder::new(vec!["a".to_string(), "b".to_string(), "c".to_string()]);
    assert_eq!(f.get_instance(), "a");
    assert_eq!(f.get_instance(), "b");
    assert_eq!(f.get_instance(), "c");
    assert_eq!(f.get_instance(), "a");
}

#[test]
fn instances_update_and_fallback() {
    let mut f = InstanceFinder::new(Vec::new());
    f.update_instances(None);
    assert_eq!(f.instances, InstanceFinder::backup_instances());
    assert_eq!(f.instances, vec!["yt.oelrichsgarcia.de", "invidious.einfachzocken.eu", "iv.nboeck.de"]);
    f.get_instance();
    f.get_instance();
    f.update_instances(Some(vec!["x".to_string(), "y".to_string(), "z".to_string(), "w".to_string()]));
    assert_eq!(f.instances, vec!["x", "y", "z"]);
    assert_eq!(f.get_instance(), "z");
    f.update_instances(Some(vec!["only".to_string()]));
    assert_eq!(f.rr_index, 0);
    assert_eq!(f.get_instance(), "only");
    f.update_instances(Some(Vec::new()));
    assert_eq!(f.instances.len(), 3);
}

#[test]
fn source_ids_by_prefix() {
    assert_eq!(source_kind("UCabc"), SourceKind::Channel);
    assert_eq!(source_kind("PLabc"), SourceKind::Playlist);
    assert_eq!(source_kind("dQw4w9WgXcQ"), SourceKind::Video);
    assert_eq!(source_kind("U"), SourceKind::Video);
    assert_eq!(source_kind(""), SourceKind::Video);
}

#[test]
fn one_or_more_by_source() {
    match get_one_or_more_songs_from_id("vid", vec![song("vid")]) {
        Some(OneOrMoreSongs::One(s)) => assert_eq!(s.id, "vid"),
        other => panic!("unexpected {:?}", other),
    }
    assert!(get_one_or_more_songs_from_id("vid", vec![]).is_none());
    match get_one_or_more_songs_from_id("PLx", vec![song("a"), song("b")]) {
        Some(OneOrMoreSongs::More(v)) => assert_eq!(v.len(), 2),
        other => panic!("unexpected {:?}", other),
    }
}

#[test]
fn initial_pick_from_top_thirty() {
    let ids: Vec<String> = (0..40).map(|i| format!("v{}", i)).collect();
    let (picked, rest) = pick_initial_videos(ids.clone());
    assert_eq!(picked.len(), 5);
    assert_eq!(rest.len(), 25);
    let mut all: Vec<String> = picked.iter().chain(rest.iter()).cloned().collect();
    all.sort();
    let mut top: Vec<String> = ids[..30].to_vec();
    top.sort();
    assert_eq!(all, top);
    let (picked, rest) = pick_initial_videos(vec!["a".to_string(), "b".to_string()]);
    assert_eq!(picked.len(), 2);
    assert!(rest.is_empty());
}

#[test]
fn retry_skips_known_songs() {
    let have = vec![song("a")];
    assert_eq!(retry_candidate(&have, &vec!["a".to_string()]), None);
    assert_eq!(retry_candidate(&have, &vec!["b".to_string()]), Some(0));
    assert_eq!(retry_candidate(&have, &Vec::new()), None);
}

#[test]
fn retry_when_nothing_is_had_yet() {
    let rest = vec!["x".to_string(), "y".to_string()];
    let i = retry_candidate(&Vec::new(), &rest).unwrap();
    assert!(i < 2);
}

#[test]
fn retry_stop_rule() {
    assert!(keep_retrying(2, 5, 0));
    assert!(keep_retrying(4, 5, 4));
    assert!(!keep_retrying(4, 5, 5));
    assert!(!keep_retrying(5, 5, 0));
}

#[test]
fn suggestion_query_text() {
    assert_eq!(search_query("\"abba waterloo\""), "q=abba+waterloo");
    assert_eq!(search_query("a b  c"), "q=a+b++c");
    assert_eq!(search_query(""), "q=");
}

#[test]
fn suggestions_keep_six() {
    assert_eq!(take_suggestions((0..10).collect::<Vec<u32>>()), vec![0, 1, 2, 3, 4, 5]);
    assert_eq!(take_suggestions(vec![1u32, 2]), vec![1, 2]);
}

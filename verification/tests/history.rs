use tui_fi::config::{config_path, config_path_in};
use tui_fi::history::{History, HistoryEntry, CAP};

fn paths(h: &History) -> Vec<String> {
    h.entries.iter().map(|e| e.path.clone()).collect()
}

#[test]
fn adding_puts_the_track_first() {
    let mut h = History::new();
    h.add("a".to_string(), "/a.mp3".to_string());
    h.add("b".to_string(), "/b.mp3".to_string());
    assert_eq!(paths(&h), vec!["/b.mp3", "/a.mp3"]);
    assert_eq!(h.entries[0].name, "b");
}

#[test]
fn adding_again_moves_to_top_without_duplicates() {
    let mut h = History::new();
    for p in ["/a", "/b", "/c"] {
        h.add(p.to_string(), p.to_string());
    }
    h.add("again".to_string(), "/a".to_string());
    assert_eq!(paths(&h), vec!["/a", "/c", "/b"]);
    assert_eq!(h.entries[0].name, "again");
    h.add("again".to_string(), "/a".to_string());
    assert_eq!(paths(&h), vec!["/a", "/c", "/b"]);
}

#[test]
fn history_is_capped() {
    let mut h = History::new();
    for i in 0..40 {
        h.add(format!("t{}", i), format!("/t{}", i));
    }
    assert_eq!(CAP, 25);
    assert_eq!(h.entries.len(), 25);
    assert_eq!(h.entries[0].path, "/t39");
    assert_eq!(h.entries[24].path, "/t15");
}

#[test]
fn duplicates_from_a_loaded_file_of_the_added_path_are_dropped() {
    let mut h = History {
        entries: vec![
            HistoryEntry { name: "x".to_string(), path: "/x".to_string() },
            HistoryEntry { name: "y".to_string(), path: "/y".to_string() },
            HistoryEntry { name: "x2".to_string(), path: "/x".to_string() },
        ],
    };
    h.add("x".to_string(), "/x".to_string());
    assert_eq!(paths(&h), vec!["/x", "/y"]);
}

#[test]
fn history_file_is_under_the_data_directory() {
    assert_eq!(History::path_in("/data"), "/data/tui-fi/history.json");
    assert!(History::path().ends_with("tui-fi/history.json"));
}

#[test]
fn settings_live_in_the_config_directory() {
    assert_eq!(config_path_in("/home/u/.config"), "/home/u/.config/tui-fi/config.json");
    assert!(config_path().ends_with("tui-fi/config.json"));
}

#[test]
fn the_same_file_written_differently_is_one_entry() {
    let mut h = History::new();
    h.add("b".to_string(), "/a//b".to_string());
    h.add("c".to_string(), "/m/c.mp3".to_string());
    h.add("b".to_string(), "/a/./b/".to_string());
    assert_eq!(paths(&h), vec!["/a/./b/".to_string(), "/m/c.mp3".to_string()]);
}

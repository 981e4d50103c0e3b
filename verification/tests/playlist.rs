use tui_fi::playlist::{copy_track, is_playlist_file, sort_by_name, Playlist, Track};

#[test]
fn new_playlist_is_empty() {
    let p = Playlist::new("Road");
    assert_eq!(p.name, "Road");
    assert!(p.tracks.is_empty());
    assert_eq!(p.selected, 0);
}

#[test]
fn playlist_files_are_named_after_playlists() {
    assert_eq!(Playlist::path_in("/d/tui-fi/playlists", "Road"), "/d/tui-fi/playlists/Road.json");
    assert_eq!(Playlist::data_dir_in("/home/u/.local/share"), "/home/u/.local/share/tui-fi/playlists");
    assert!(Playlist::path_for("Road").ends_with("tui-fi/playlists/Road.json"));
    assert!(Playlist::data_dir().ends_with("tui-fi/playlists"));
}

#[test]
fn only_json_files_are_playlists() {
    assert!(is_playlist_file("/d/Road.json"));
    assert!(!is_playlist_file("/d/Road.JSON"));
    assert!(!is_playlist_file("/d/Road.json.bak"));
    assert!(!is_playlist_file("/d/json"));
}

#[test]
fn playlists_sort_by_name() {
    let v = vec![Playlist::new("b"), Playlist::new("C"), Playlist::new("a"), Playlist::new("B")];
    let names: Vec<String> = sort_by_name(v).into_iter().map(|p| p.name).collect();
    assert_eq!(names, vec!["B", "C", "a", "b"]);
}

#[test]
fn copied_tracks_are_equal() {
    let t = Track { name: "n".to_string(), path: "/p".to_string() };
    let c = copy_track(&t);
    assert_eq!((c.name, c.path), ("n".to_string(), "/p".to_string()));
}

#[test]
fn playlists_of_one_name_keep_their_order() {
    let mut first = Playlist::new("mix");
    first.tracks.push(Track { name: "one".to_string(), path: "/1".to_string() });
    let mut second = Playlist::new("mix");
    second.tracks.push(Track { name: "two".to_string(), path: "/2".to_string() });
    let sorted = sort_by_name(vec![Playlist::new("zz"), first, Playlist::new("aa"), second]);
    let order: Vec<(String, usize)> = sorted.iter().map(|p| (p.name.clone(), p.tracks.len())).collect();
    assert_eq!(order[0].0, "aa");
    assert_eq!(sorted[1].tracks[0].name, "one");
    assert_eq!(sorted[2].tracks[0].name, "two");
    assert_eq!(order[3].0, "zz");
}

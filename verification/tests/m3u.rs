use tui_fi::m3u::{export_text, import, import_candidates, m3u_dir_of, parse};
use tui_fi::paths::is_same_path;
use tui_fi::playlist::{Playlist, Track};

fn track(n: &str, p: &str) -> Track {
    Track { name: n.to_string(), path: p.to_string() }
}

#[test]
fn parse_reads_titles_and_locations() {
    let text = "#EXTM3U\n#EXTINF:123, Artist - Song \nsongs/one.mp3\n\n# comment\n/abs/two.flac\r\n#EXTINF:-1\nthree.ogg\n";
    let es = parse(text);
    assert_eq!(es.len(), 3);
    assert_eq!(es[0].title.as_deref(), Some("Artist - Song"));
    assert_eq!(es[0].location, "songs/one.mp3");
    assert_eq!(es[1].title, None);
    assert_eq!(es[1].location, "/abs/two.flac");
    assert_eq!(es[2].title.as_deref(), Some(""));
    assert_eq!(es[2].location, "three.ogg");
}

#[test]
fn a_title_is_dropped_by_the_next_location() {
    let es = parse("#EXTINF:1,First\nmissing.mp3\nplain.mp3\n");
    assert_eq!(es[0].title.as_deref(), Some("First"));
    assert_eq!(es[1].title, None);
}

#[test]
fn candidates_resolve_against_the_m3u_directory() {
    let c = import_candidates("/music/lists/mix.m3u", "a.mp3\n/abs/b.mp3\n../c.mp3");
    assert_eq!(c, vec!["/music/lists/a.mp3", "/abs/b.mp3", "/music/lists/../c.mp3"]);
    assert_eq!(m3u_dir_of("mix.m3u"), "");
    assert_eq!(m3u_dir_of("/"), ".");
}

#[test]
fn import_keeps_existing_files_and_names_them() {
    let text = "#EXTM3U\n#EXTINF:1,Nice Title\na.mp3\n#EXTINF:2,\nb.mp3\nc.mp3\n#EXTINF:3,Gone\nd.mp3\n";
    let pl = import("/m/mix.m3u", text, &vec![true, true, true, false]).unwrap();
    assert_eq!(pl.name, "mix");
    assert_eq!(pl.selected, 0);
    let got: Vec<(String, String)> = pl.tracks.iter().map(|t| (t.name.clone(), t.path.clone())).collect();
    assert_eq!(
        got,
        vec![
            ("Nice Title".to_string(), "/m/a.mp3".to_string()),
            ("b".to_string(), "/m/b.mp3".to_string()),
            ("c".to_string(), "/m/c.mp3".to_string()),
        ]
    );
}

#[test]
fn import_needs_a_file_name() {
    assert!(import("/m/..", "a.mp3\n", &vec![true]).is_none());
}

#[test]
fn export_writes_relative_paths_where_possible() {
    let mut pl = Playlist::new("Mix");
    pl.tracks.push(track("One", "/music/out/one.mp3"));
    pl.tracks.push(track("Two", "/elsewhere/two.mp3"));
    let text = export_text(&pl, "/music/out/Mix.m3u");
    assert_eq!(text, "#EXTM3U\n#EXTINF:-1,One\none.mp3\n#EXTINF:-1,Two\n/elsewhere/two.mp3\n");
    assert_eq!(export_text(&Playlist::new("E"), "/x/E.m3u"), "#EXTM3U\n");
}

#[test]
fn export_then_parse_round_trips() {
    let mut pl = Playlist::new("Mix");
    pl.tracks.push(track("Song A", "/music/out/a.mp3"));
    pl.tracks.push(track("Song, B", "/music/b.flac"));
    let text = export_text(&pl, "/music/out/Mix.m3u");
    let es = parse(&text);
    assert_eq!(es.len(), 2);
    assert_eq!(es[0].title.as_deref(), Some("Song A"));
    assert_eq!(es[0].location, "a.mp3");
    assert_eq!(es[1].title.as_deref(), Some("Song, B"));
    assert_eq!(es[1].location, "/music/b.flac");
}

#[test]
fn export_then_import_gives_the_tracks_back() {
    let mut pl = Playlist::new("Mix");
    pl.tracks.push(track("Song A", "/music/out/a.mp3"));
    pl.tracks.push(track("Song, B", "/music/b.flac"));
    pl.tracks.push(track("Deep", "/music/out/sub/../c.ogg"));
    let text = export_text(&pl, "/music/out/Mix.m3u");
    let found = vec![true; 3];
    let back = import("/music/out/Mix.m3u", &text, &found).unwrap();
    assert_eq!(back.name, "Mix");
    assert_eq!(back.tracks.len(), 3);
    for (a, b) in back.tracks.iter().zip(pl.tracks.iter()) {
        assert_eq!(a.name, b.name);
        assert_eq!(a.path, b.path);
    }
}

#[test]
fn export_then_import_from_an_unusual_playlist_path() {
    let mut pl = Playlist::new("Mix");
    pl.tracks.push(track("Song A", "/music/out/a.mp3"));
    pl.tracks.push(track("Far", "/other//b.flac"));
    let m3u = "/music//out/./Mix.m3u";
    let text = export_text(&pl, m3u);
    let back = import(m3u, &text, &vec![true; 2]).unwrap();
    assert_eq!(back.tracks.len(), 2);
    for (a, b) in back.tracks.iter().zip(pl.tracks.iter()) {
        assert_eq!(a.name, b.name);
        assert!(is_same_path(&a.path, &b.path), "{} {}", a.path, b.path);
    }
}

use tui_fi::browser::{
    is_audio, is_audio_extension, is_hidden, is_m3u, is_m3u_extension, list_audio_and_dirs,
    BrowserState, DirEntry,
};

fn entry(p: &str, d: bool) -> DirEntry {
    DirEntry { path: p.to_string(), is_dir: d }
}

#[test]
fn audio_files_are_known_by_extension_in_any_case() {
    assert!(is_audio("/m/song.mp3"));
    assert!(is_audio("/m/SONG.MP3"));
    assert!(is_audio("a.Flac"));
    assert!(is_audio("a.m4a"));
    assert!(is_audio("a.opus"));
    assert!(!is_audio("a.txt"));
    assert!(!is_audio("mp3"));
    assert!(!is_audio(".mp3"));
    assert!(is_audio_extension("wav"));
    assert!(!is_audio_extension("WAV"));
}

#[test]
fn m3u_files_are_known_ignoring_ascii_case() {
    assert!(is_m3u("list.m3u"));
    assert!(is_m3u("list.M3U"));
    assert!(!is_m3u("list.m3u8"));
    assert!(is_m3u_extension("m3U"));
    assert!(!is_m3u_extension("m3"));
}

#[test]
fn hidden_files_start_with_a_dot() {
    assert!(is_hidden("/home/a/.config"));
    assert!(!is_hidden("/home/a/config"));
    assert!(!is_hidden("/"));
}

#[test]
fn listing_filters_and_puts_directories_first() {
    let raw = vec![
        entry("/m/zeta.mp3", false),
        entry("/m/notes.txt", false),
        entry("/m/b_dir", true),
        entry("/m/.hidden_dir", true),
        entry("/m/a_list.m3u", false),
        entry("/m/a_dir", true),
        entry("/m/alpha.FLAC", false),
    ];
    let out: Vec<String> = list_audio_and_dirs(raw).into_iter().map(|e| e.path).collect();
    assert_eq!(out, vec!["/m/a_dir", "/m/b_dir", "/m/a_list.m3u", "/m/alpha.FLAC", "/m/zeta.mp3"]);
}

#[test]
fn listing_does_not_depend_on_read_order() {
    let a = vec![entry("/m/b.mp3", false), entry("/m/a.mp3", false), entry("/m/d", true)];
    let b = vec![entry("/m/d", true), entry("/m/a.mp3", false), entry("/m/b.mp3", false)];
    let pa: Vec<String> = list_audio_and_dirs(a).into_iter().map(|e| e.path).collect();
    let pb: Vec<String> = list_audio_and_dirs(b).into_iter().map(|e| e.path).collect();
    assert_eq!(pa, pb);
}

#[test]
fn browser_refresh_keeps_cursor_in_range() {
    let mut b = BrowserState::new(
        "/m".to_string(),
        vec![entry("/m/a.mp3", false), entry("/m/b.mp3", false), entry("/m/c.mp3", false)],
    );
    assert_eq!(b.entries.len(), 3);
    assert_eq!(b.selected, 0);
    b.selected = 2;
    b.refresh(vec![entry("/m/a.mp3", false)]);
    assert_eq!(b.selected, 0);
    b.refresh(vec![]);
    assert_eq!(b.selected, 0);
    assert_eq!(b.selected_path(), None);
}

#[test]
fn browser_enters_directories_and_goes_up() {
    let mut b = BrowserState::new("/m".to_string(), vec![entry("/m/sub", true), entry("/m/x.mp3", false)]);
    assert_eq!(b.selected_path().map(|s| s.as_str()), Some("/m/sub"));
    b.enter_selected(false, vec![]);
    assert_eq!(b.current_dir, "/m");
    b.enter_selected(true, vec![entry("/m/sub/y.ogg", false)]);
    assert_eq!(b.current_dir, "/m/sub");
    assert_eq!(b.entries, vec!["/m/sub/y.ogg".to_string()]);
    assert_eq!(b.parent_dir(), Some("/m".to_string()));
    b.go_up(vec![entry("/m/sub", true)]);
    assert_eq!(b.current_dir, "/m");
    assert_eq!(b.selected, 0);
    let mut root = BrowserState::new("/".to_string(), vec![]);
    root.go_up(vec![entry("/x", true)]);
    assert_eq!(root.current_dir, "/");
    assert!(root.entries.is_empty());
}

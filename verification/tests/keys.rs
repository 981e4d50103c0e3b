use tui_fi::app::{App, Mode, Panel};
use tui_fi::browser::DirEntry;
use tui_fi::history::History;
use tui_fi::keys::{Effect, Key, KeyEnv};
use tui_fi::playlist::{Playlist, Track};

fn app() -> App {
    let mut p = Playlist::new("Mix");
    for t in ["one", "two", "three"] {
        p.tracks.push(Track { name: t.to_string(), path: format!("/m/{}.mp3", t) });
    }
    App::new(
        "/m".to_string(),
        vec![
            DirEntry { path: "/m/sub".to_string(), is_dir: true },
            DirEntry { path: "/m/list.m3u".to_string(), is_dir: false },
            DirEntry { path: "/m/song.mp3".to_string(), is_dir: false },
        ],
        vec![p],
        History::new(),
    )
}

const ENV: KeyEnv = KeyEnv { selected_is_dir: false, downloading: false };

fn press(a: &mut App, k: Key) -> Effect {
    a.handle_key(k, ENV)
}

fn type_text(a: &mut App, s: &str) {
    for c in s.chars() {
        assert!(matches!(press(a, Key::Char(c)), Effect::Nothing));
    }
}

#[test]
fn q_quits() {
    let mut a = app();
    press(&mut a, Key::Char('q'));
    assert!(a.should_quit);
}

#[test]
fn naming_creates_a_trimmed_playlist() {
    let mut a = app();
    press(&mut a, Key::Char('n'));
    assert_eq!(a.mode, Mode::Naming);
    type_text(&mut a, "  Road trip!");
    press(&mut a, Key::Backspace);
    assert!(matches!(press(&mut a, Key::Enter), Effect::SavePlaylist));
    assert_eq!(a.mode, Mode::Normal);
    assert_eq!(a.input_buffer, "");
    assert_eq!(a.current_playlist().name, "Road trip");
    assert_eq!(a.status_msg, "Created playlist 'Road trip'");
}

#[test]
fn naming_with_blank_input_creates_nothing() {
    let mut a = app();
    press(&mut a, Key::Char('n'));
    type_text(&mut a, "   ");
    assert!(matches!(press(&mut a, Key::Enter), Effect::Nothing));
    assert_eq!(a.playlists.len(), 1);
    press(&mut a, Key::Char('n'));
    type_text(&mut a, "x");
    press(&mut a, Key::Esc);
    assert_eq!(a.mode, Mode::Normal);
    assert_eq!(a.playlists.len(), 1);
}

#[test]
fn url_input_starts_a_download_unless_one_runs() {
    let mut a = app();
    a.handle_key(Key::Char('y'), KeyEnv { selected_is_dir: false, downloading: true });
    assert_eq!(a.mode, Mode::Normal);
    press(&mut a, Key::Char('y'));
    assert_eq!(a.mode, Mode::UrlInput);
    type_text(&mut a, " https://e.org/v ");
    match press(&mut a, Key::Enter) {
        Effect::StartDownload(u) => assert_eq!(u, "https://e.org/v"),
        _ => panic!("expected a download"),
    }
    assert_eq!(a.mode, Mode::Normal);
}

#[test]
fn browser_enter_plays_imports_or_enters() {
    let mut a = app();
    assert!(matches!(a.handle_key(Key::Enter, KeyEnv { selected_is_dir: true, downloading: false }), Effect::EnterDir));
    press(&mut a, Key::Down);
    match press(&mut a, Key::Enter) {
        Effect::ImportM3u(p) => assert_eq!(p, "/m/list.m3u"),
        _ => panic!("expected an import"),
    }
    press(&mut a, Key::Char('j'));
    a.set_status("old".to_string());
    match press(&mut a, Key::Char('l')) {
        Effect::Play(p) => assert_eq!(p, "/m/song.mp3"),
        _ => panic!("expected play"),
    }
    assert_eq!(a.status_msg, "");
    assert!(matches!(press(&mut a, Key::Left), Effect::GoUp));
    assert!(matches!(press(&mut a, Key::Char('a')), Effect::SavePlaylist));
    assert_eq!(a.current_playlist().tracks.len(), 4);
    match press(&mut a, Key::Char('e')) {
        Effect::EditTags(p) => assert_eq!(p, "/m/song.mp3"),
        _ => panic!("expected tag editing"),
    }
}

#[test]
fn playlist_keys_reorder_play_and_delete() {
    let mut a = app();
    press(&mut a, Key::Tab);
    assert_eq!(a.focused_panel, Panel::Playlist);
    assert!(matches!(press(&mut a, Key::Char('J')), Effect::SavePlaylist));
    assert_eq!(a.current_playlist().tracks[1].name, "one");
    assert!(matches!(press(&mut a, Key::Char('K')), Effect::SavePlaylist));
    assert!(matches!(press(&mut a, Key::Char('K')), Effect::Nothing));
    press(&mut a, Key::Down);
    match press(&mut a, Key::Enter) {
        Effect::Play(p) => assert_eq!(p, "/m/two.mp3"),
        _ => panic!("expected play"),
    }
    assert_eq!(a.playing_track, Some((0, 1)));
    assert!(matches!(press(&mut a, Key::Char('X')), Effect::ExportM3u));
    assert!(matches!(press(&mut a, Key::Char('d')), Effect::SavePlaylist));
    assert_eq!(a.current_playlist().tracks.len(), 2);
    match press(&mut a, Key::Char('e')) {
        Effect::EditTags(p) => assert_eq!(p, "/m/three.mp3"),
        _ => panic!("expected tag editing"),
    }
}

#[test]
fn skipping_and_playback_keys() {
    let mut a = app();
    assert!(matches!(press(&mut a, Key::Char(' ')), Effect::TogglePause));
    assert!(matches!(press(&mut a, Key::Char('s')), Effect::Stop));
    assert!(matches!(press(&mut a, Key::Char('+')), Effect::VolumeUp));
    assert!(matches!(press(&mut a, Key::Char('-')), Effect::VolumeDown));
    assert!(matches!(press(&mut a, Key::Char(']')), Effect::Nothing));
    a.play_playlist_track(0, 0);
    match press(&mut a, Key::Char(']')) {
        Effect::Play(p) => assert_eq!(p, "/m/two.mp3"),
        _ => panic!("expected play"),
    }
    match press(&mut a, Key::Char('[')) {
        Effect::Play(p) => assert_eq!(p, "/m/one.mp3"),
        _ => panic!("expected play"),
    }
    assert!(matches!(press(&mut a, Key::Char('r')), Effect::Refresh));
    assert_eq!(a.status_msg, "Refreshed");
    press(&mut a, Key::Char('p'));
    assert_eq!(a.status_msg, "Repeat: all");
    press(&mut a, Key::Char('z'));
    assert!(a.shuffle);
}

#[test]
fn searching_filters_and_enter_ends_the_search() {
    let mut a = app();
    press(&mut a, Key::Char('/'));
    assert_eq!(a.mode, Mode::Searching);
    type_text(&mut a, "SONG");
    assert_eq!(a.browser.selected, 2);
    press(&mut a, Key::Backspace);
    assert_eq!(a.input_buffer, "SON");
    match press(&mut a, Key::Enter) {
        Effect::Play(p) => assert_eq!(p, "/m/song.mp3"),
        _ => panic!("expected play"),
    }
    assert_eq!(a.mode, Mode::Normal);
    assert_eq!(a.input_buffer, "");
}

#[test]
fn history_popup_keys() {
    let mut a = app();
    a.history.add("x".to_string(), "/m/x.mp3".to_string());
    a.history.add("y".to_string(), "/m/y.mp3".to_string());
    press(&mut a, Key::Char('H'));
    assert!(a.show_history);
    press(&mut a, Key::Down);
    press(&mut a, Key::Down);
    assert_eq!(a.history_selected, 1);
    press(&mut a, Key::Up);
    press(&mut a, Key::Up);
    assert_eq!(a.history_selected, 0);
    match press(&mut a, Key::Enter) {
        Effect::Play(p) => assert_eq!(p, "/m/y.mp3"),
        _ => panic!("expected play"),
    }
    assert!(!a.show_history);
}

#[test]
fn tag_editor_keys_edit_fields() {
    let mut a = app();
    a.open_tag_editor("/m/song.mp3".to_string(), None);
    type_text(&mut a, "Tit");
    press(&mut a, Key::Tab);
    type_text(&mut a, "Art");
    press(&mut a, Key::Backspace);
    press(&mut a, Key::BackTab);
    press(&mut a, Key::BackTab);
    assert_eq!(a.tag_editor.as_ref().unwrap().active, 2);
    type_text(&mut a, "Alb");
    match press(&mut a, Key::Enter) {
        Effect::SaveTags(ed) => {
            assert_eq!(ed.fields, ["Tit".to_string(), "Ar".to_string(), "Alb".to_string()]);
            assert_eq!(ed.path, "/m/song.mp3");
        },
        _ => panic!("expected saving"),
    }
    assert_eq!(a.mode, Mode::Normal);
    assert!(a.tag_editor.is_none());
    assert!(a.finish_tag_save(true));
    assert_eq!(a.status_msg, "Tags saved");
    assert!(!a.finish_tag_save(false));
    assert_eq!(a.status_msg, "Failed to save tags");
}

#[test]
fn finishing_imports_and_exports_says_so() {
    let mut a = app();
    a.finish_import(Some(12));
    assert_eq!(a.status_msg, "Imported 'Mix' (12 tracks)");
    a.finish_import(None);
    assert_eq!(a.status_msg, "Failed to import M3U");
    a.finish_export(Some("/h/Music/tui-fi/Mix.m3u".to_string()));
    assert_eq!(a.status_msg, "Exported to /h/Music/tui-fi/Mix.m3u");
    a.finish_export(None);
    assert_eq!(a.status_msg, "Export failed");
}

#[test]
fn switching_playlists_clears_the_status() {
    let mut a = app();
    a.new_playlist("Second");
    a.set_status("x".to_string());
    press(&mut a, Key::Char(','));
    assert_eq!(a.active_playlist, 0);
    assert_eq!(a.status_msg, "");
    press(&mut a, Key::Char('.'));
    assert_eq!(a.active_playlist, 1);
}

#[test]
fn only_cursor_keys_need_the_length_limit() {
    let mut a = app();
    assert!(a.key_moves_cursor(Key::Char('j')));
    assert!(a.key_moves_cursor(Key::Down));
    assert!(!a.key_moves_cursor(Key::Char('q')));
    a.mode = Mode::Searching;
    assert!(a.key_moves_cursor(Key::Up));
    assert!(!a.key_moves_cursor(Key::Char('j')));
    a.mode = Mode::TagEditing;
    assert!(!a.key_moves_cursor(Key::Tab));
    a.mode = Mode::Normal;
    a.show_history = true;
    assert!(!a.key_moves_cursor(Key::Down));
}

use tui_fi::app::{App, Mode, Panel, RepeatMode};
use tui_fi::browser::DirEntry;
use tui_fi::history::History;
use tui_fi::keys::Effect;
use tui_fi::mpris::{metadata, mpris_state, needs_update, playback_status, Cmd, MprisState, PlaybackStatus};
use tui_fi::player::{tags_for_editor, TrackInfo};
use tui_fi::playlist::{Playlist, Track};
use tui_fi::ui::{
    entry_label,
    browser_title, centered_rect, naming_text, now_playing_text, pause_symbol, playlist_title,
    repeat_text, shuffle_text, status_line, tag_field_text, tag_label, time_text, url_text, Rect,
};

fn app() -> App {
    let mut p = Playlist::new("Mix");
    p.tracks.push(Track { name: "a".to_string(), path: "/m/a.mp3".to_string() });
    p.tracks.push(Track { name: "b".to_string(), path: "/m/b.mp3".to_string() });
    App::new("/m".to_string(), vec![DirEntry { path: "/m/a.mp3".to_string(), is_dir: false }], vec![p], History::new())
}

#[test]
fn popups_are_centred_and_cut_to_fit() {
    let area = Rect { x: 0, y: 0, width: 100, height: 40 };
    assert_eq!(centered_rect(40, 3, area), Rect { x: 30, y: 18, width: 40, height: 3 });
    let small = Rect { x: 2, y: 1, width: 10, height: 2 };
    assert_eq!(centered_rect(40, 3, small), Rect { x: 2, y: 1, width: 10, height: 2 });
}

#[test]
fn titles_show_the_search_or_the_place() {
    let mut a = app();
    assert_eq!(browser_title(&a), " Browser — /m ");
    assert_eq!(playlist_title(&a), " Playlist: Mix (1/1) ");
    a.mode = Mode::Searching;
    a.input_buffer = "ab".to_string();
    assert_eq!(browser_title(&a), " Browser  /ab_ ");
    a.focused_panel = Panel::Playlist;
    assert_eq!(playlist_title(&a), " Playlist: Mix  /ab_ ");
    assert_eq!(naming_text(&a), " New playlist: ab_");
    assert_eq!(url_text(&a, "/d"), " YouTube URL:\n ab_\n\n  → saves to /d");
}

#[test]
fn now_playing_prefers_tags() {
    let p = "/m/dir/file.mp3".to_string();
    let both = TrackInfo { title: Some("T".to_string()), artist: Some("A".to_string()), album: None };
    let title = TrackInfo { title: Some("T".to_string()), artist: None, album: None };
    let none = TrackInfo { title: None, artist: Some("A".to_string()), album: None };
    assert_eq!(now_playing_text(Some(&both), Some(&p)), "A — T");
    assert_eq!(now_playing_text(Some(&title), Some(&p)), "T");
    assert_eq!(now_playing_text(Some(&none), Some(&p)), "file.mp3");
    assert_eq!(now_playing_text(None, None), "—");
}

#[test]
fn bar_texts() {
    assert_eq!(time_text(Some(65), Some(200)), "  1:05 / 3:20");
    assert_eq!(time_text(Some(5), None), "  0:05");
    assert_eq!(time_text(None, Some(5)), "");
    assert_eq!(pause_symbol(true), "⏸");
    assert_eq!(pause_symbol(false), "▶");
    assert_eq!(shuffle_text(true), " ⇀ ");
    assert_eq!(repeat_text(RepeatMode::One), " ⟳¹");
    assert_eq!(repeat_text(RepeatMode::Off), "");
    assert_eq!(tag_label(0), "  Title: ");
    assert_eq!(tag_label(1), " Artist: ");
    assert_eq!(tag_field_text(&"x".to_string(), true), "x_");
    let mut a = app();
    assert!(status_line(&a).starts_with(" [Tab] panel"));
    a.set_status("hi".to_string());
    assert_eq!(status_line(&a), " hi");
}

#[test]
fn media_controls_state() {
    let p = "/m/song.mp3".to_string();
    let info = TrackInfo { title: None, artist: Some("A".to_string()), album: Some("B".to_string()) };
    let s = mpris_state(Some(&p), true, Some(&info), Some(3_000_000));
    assert_eq!(s.title, "song.mp3");
    assert_eq!(s.artist.as_deref(), Some("A"));
    assert_eq!(s.album.as_deref(), Some("B"));
    assert_eq!(s.length_us, Some(3_000_000));
    assert_eq!(playback_status(&s), PlaybackStatus::Paused);
    let idle = mpris_state(None, true, Some(&info), None);
    assert_eq!(idle.title, "");
    assert!(idle.artist.is_none());
    assert_eq!(playback_status(&idle), PlaybackStatus::Playing);
    assert!(needs_update(None, false, Some(&p), false));
    assert!(!needs_update(Some(&p), false, Some(&p), false));
    assert!(needs_update(Some(&p), false, Some(&p), true));
    assert!(!needs_update(None, false, None, true));
}

#[test]
fn media_commands() {
    let mut a = app();
    assert!(matches!(a.handle_mpris(Cmd::Play, true, true), Effect::TogglePause));
    assert!(matches!(a.handle_mpris(Cmd::Play, false, true), Effect::Nothing));
    assert!(matches!(a.handle_mpris(Cmd::Pause, false, true), Effect::TogglePause));
    assert!(matches!(a.handle_mpris(Cmd::Pause, false, false), Effect::Nothing));
    assert!(matches!(a.handle_mpris(Cmd::Toggle, false, false), Effect::TogglePause));
    assert!(matches!(a.handle_mpris(Cmd::Stop, false, true), Effect::Stop));
    a.play_playlist_track(0, 0);
    match a.handle_mpris(Cmd::Next, false, true) {
        Effect::Play(p) => assert_eq!(p, "/m/b.mp3"),
        _ => panic!("expected play"),
    }
    assert!(matches!(a.on_track_finished(), Effect::Stop));
    match a.handle_mpris(Cmd::Previous, false, true) {
        Effect::Play(p) => assert_eq!(p, "/m/a.mp3"),
        _ => panic!("expected play"),
    }
}

#[test]
fn entries_are_labelled_by_file_name() {
    assert_eq!(entry_label("/music/a/song.mp3"), "song.mp3");
    assert_eq!(entry_label("/"), "");
}

#[test]
fn announced_fields_skip_an_empty_title() {
    let s = MprisState {
        title: String::new(),
        artist: Some("A".to_string()),
        album: None,
        length_us: Some(5),
        paused: false,
        stopped: false,
    };
    let m = metadata(&s);
    assert_eq!(m.title, None);
    assert_eq!(m.artist, Some("A".to_string()));
    assert_eq!(m.album, None);
    assert_eq!(m.length_us, Some(5));
    let s2 = MprisState { title: "T".to_string(), ..s };
    assert_eq!(metadata(&s2).title, Some("T".to_string()));
}

#[test]
fn the_tag_editor_prefers_the_file_then_the_playing_track() {
    let read = TrackInfo { title: Some("file".to_string()), artist: None, album: None };
    let playing = TrackInfo { title: Some("playing".to_string()), artist: None, album: None };
    let path = "/m/a.mp3".to_string();
    let other = "/m/b.mp3".to_string();
    let r = tags_for_editor(&path, Some(&read), Some(&path), Some(&playing));
    assert_eq!(r.unwrap().title.as_deref(), Some("file"));
    let r = tags_for_editor(&path, None, Some(&path), Some(&playing));
    assert_eq!(r.unwrap().title.as_deref(), Some("playing"));
    assert!(tags_for_editor(&path, None, Some(&other), Some(&playing)).is_none());
    assert!(tags_for_editor(&path, None, None, Some(&playing)).is_none());
}

#[test]
fn the_same_file_written_differently_needs_no_update() {
    let a = "/m/a.mp3".to_string();
    let b = "/m//a.mp3".to_string();
    assert!(!needs_update(Some(&a), false, Some(&b), false));
    let playing = TrackInfo { title: Some("playing".to_string()), artist: None, album: None };
    assert!(tags_for_editor(&a, None, Some(&b), Some(&playing)).is_some());
}

#[test]
fn popups_near_the_edge_are_cut_to_stay_within_u16() {
    let area = Rect { x: 65530, y: 0, width: 10, height: 1 };
    assert_eq!(centered_rect(4, 1, area), Rect { x: 65533, y: 0, width: 2, height: 1 });
    let area = Rect { x: 0, y: 65534, width: 3, height: 1 };
    assert_eq!(centered_rect(1, 1, area), Rect { x: 1, y: 65534, width: 1, height: 1 });
}

use tui_fi::app::{
    download_args_in, download_dir, download_dir_in, home_or, home_or_root, next_track_index, wrap_index, App, Mode, Panel,
    RepeatMode, LOG_AFTER,
};
use tui_fi::browser::DirEntry;
use tui_fi::history::History;
use tui_fi::player::TrackInfo;
use tui_fi::playlist::{Playlist, Track};

fn entry(p: &str, d: bool) -> DirEntry {
    DirEntry { path: p.to_string(), is_dir: d }
}

fn playlist(name: &str, tracks: &[&str]) -> Playlist {
    let mut p = Playlist::new(name);
    for t in tracks {
        p.tracks.push(Track { name: t.to_string(), path: format!("/m/{}.mp3", t) });
    }
    p
}

fn app_with(playlists: Vec<Playlist>) -> App {
    App::new(
        "/m".to_string(),
        vec![entry("/m/alpha.mp3", false), entry("/m/beta.mp3", false), entry("/m/docs", true), entry("/m/gamma.txt", false)],
        playlists,
        History::new(),
    )
}

#[test]
fn a_new_app_has_a_default_playlist() {
    let a = app_with(vec![]);
    assert_eq!(a.playlists.len(), 1);
    assert_eq!(a.playlists[0].name, "Default");
    assert_eq!(a.active_playlist, 0);
    assert_eq!(a.mode, Mode::Normal);
    assert_eq!(a.focused_panel, Panel::Browser);
    assert_eq!(a.browser.entries, vec!["/m/docs", "/m/alpha.mp3", "/m/beta.mp3"]);
    let b = app_with(vec![playlist("x", &[]), playlist("y", &[])]);
    assert_eq!(b.playlists.len(), 2);
}

#[test]
fn next_and_prev_playlist_wrap_around() {
    let mut a = app_with(vec![playlist("a", &[]), playlist("b", &[]), playlist("c", &[])]);
    a.prev_playlist();
    assert_eq!(a.active_playlist, 2);
    a.next_playlist();
    assert_eq!(a.active_playlist, 0);
    a.next_playlist();
    a.next_playlist();
    assert_eq!(a.active_playlist, 2);
    a.next_playlist();
    assert_eq!(a.active_playlist, 0);
}

#[test]
fn repeat_cycles_and_says_so() {
    let mut a = app_with(vec![]);
    a.toggle_repeat();
    assert_eq!(a.repeat, RepeatMode::All);
    assert_eq!(a.status_msg, "Repeat: all");
    assert!(a.status_msg_time.is_some());
    a.toggle_repeat();
    assert_eq!(a.repeat, RepeatMode::One);
    assert_eq!(a.status_msg, "Repeat: one");
    a.toggle_repeat();
    assert_eq!(a.repeat, RepeatMode::Off);
    assert_eq!(a.status_msg, "Repeat: off");
}

#[test]
fn shuffle_toggles_and_says_so() {
    let mut a = app_with(vec![]);
    a.toggle_shuffle();
    assert!(a.shuffle);
    assert_eq!(a.status_msg, "Shuffle on");
    a.toggle_shuffle();
    assert!(!a.shuffle);
    assert_eq!(a.status_msg, "Shuffle off");
}

#[test]
fn status_expires_after_two_seconds() {
    let mut a = app_with(vec![]);
    a.set_status("hello".to_string());
    a.expire_status(1);
    assert_eq!(a.status_msg, "hello");
    a.expire_status(2);
    assert_eq!(a.status_msg, "");
    assert!(a.status_msg_time.is_none());
    a.set_status("again".to_string());
    a.tick_status();
    assert_eq!(a.status_msg, "again");
}

#[test]
fn search_filters_visible_entries_and_tracks() {
    let mut a = app_with(vec![playlist("p", &["Blue Song", "red song", "Green"])]);
    assert_eq!(a.browser_visible_indices(), vec![0, 1, 2]);
    a.mode = Mode::Searching;
    a.input_buffer = "ALP".to_string();
    assert_eq!(a.browser_visible_indices(), vec![1]);
    a.input_buffer = "a".to_string();
    assert_eq!(a.browser_visible_indices(), vec![1, 2]);
    assert_eq!(a.playlist_visible_indices(), vec![0, 1, 2]);
    a.focused_panel = Panel::Playlist;
    a.input_buffer = "SONG".to_string();
    assert_eq!(a.playlist_visible_indices(), vec![0, 1]);
    assert_eq!(a.browser_visible_indices(), vec![0, 1, 2]);
}

#[test]
fn navigation_wraps_within_matches() {
    let mut a = app_with(vec![playlist("p", &["a", "b", "c"])]);
    a.browser_nav(-1);
    assert_eq!(a.browser.selected, 2);
    a.browser_nav(1);
    assert_eq!(a.browser.selected, 0);
    a.playlist_nav(1);
    assert_eq!(a.playlists[0].selected, 1);
    a.playlist_nav(-2);
    assert_eq!(a.playlists[0].selected, 2);
    a.mode = Mode::Searching;
    a.input_buffer = "zzz".to_string();
    a.browser_nav(1);
    assert_eq!(a.browser.selected, 0);
}

#[test]
fn snapping_moves_the_cursor_onto_a_match() {
    let mut a = app_with(vec![playlist("p", &["a", "bb", "c"])]);
    a.mode = Mode::Searching;
    a.input_buffer = "beta".to_string();
    a.snap_browser_to_visible();
    assert_eq!(a.browser.selected, 2);
    a.focused_panel = Panel::Playlist;
    a.input_buffer = "b".to_string();
    a.snap_playlist_to_visible();
    assert_eq!(a.playlists[0].selected, 1);
}

#[test]
fn tracks_move_up_and_down() {
    let mut a = app_with(vec![playlist("p", &["a", "b", "c"])]);
    assert!(!a.move_track_up());
    assert!(a.move_track_down());
    let names: Vec<&str> = a.playlists[0].tracks.iter().map(|t| t.name.as_str()).collect();
    assert_eq!(names, vec!["b", "a", "c"]);
    assert_eq!(a.playlists[0].selected, 1);
    assert!(a.move_track_up());
    let names: Vec<&str> = a.playlists[0].tracks.iter().map(|t| t.name.as_str()).collect();
    assert_eq!(names, vec!["a", "b", "c"]);
    a.playlists[0].selected = 2;
    assert!(!a.move_track_down());
}

#[test]
fn removing_keeps_the_cursor_on_a_track() {
    let mut a = app_with(vec![playlist("p", &["a", "b"])]);
    a.playlists[0].selected = 1;
    assert!(a.remove_selected_from_playlist());
    assert_eq!(a.playlists[0].tracks.len(), 1);
    assert_eq!(a.playlists[0].selected, 0);
    assert!(a.remove_selected_from_playlist());
    assert!(a.playlists[0].tracks.is_empty());
    assert!(!a.remove_selected_from_playlist());
}

#[test]
fn adding_the_selected_file_names_it_after_the_file() {
    let mut a = app_with(vec![playlist("Mine", &[])]);
    assert!(!a.add_selected_to_playlist());
    assert_eq!(a.status_msg, "Not an audio file");
    a.browser.selected = 1;
    assert!(a.add_selected_to_playlist());
    assert_eq!(a.status_msg, "Added to Mine");
    assert_eq!(a.playlists[0].tracks[0].name, "alpha.mp3");
    assert_eq!(a.playlists[0].tracks[0].path, "/m/alpha.mp3");
}

#[test]
fn new_playlists_become_active() {
    let mut a = app_with(vec![]);
    a.new_playlist("Party");
    assert_eq!(a.playlists.len(), 2);
    assert_eq!(a.active_playlist, 1);
    assert_eq!(a.current_playlist().name, "Party");
}

#[test]
fn tag_editor_opens_with_existing_tags() {
    let mut a = app_with(vec![]);
    let info = TrackInfo { title: Some("T".to_string()), artist: None, album: Some("Al".to_string()) };
    a.open_tag_editor("/m/alpha.mp3".to_string(), Some(&info));
    assert_eq!(a.mode, Mode::TagEditing);
    let ed = a.tag_editor.as_ref().unwrap();
    assert_eq!(ed.fields, ["T".to_string(), String::new(), "Al".to_string()]);
    assert_eq!(ed.active, 0);
    assert_eq!(ed.path, "/m/alpha.mp3");
}

#[test]
fn playing_a_track_moves_the_cursor() {
    let mut a = app_with(vec![playlist("p", &["a", "b"])]);
    assert_eq!(a.play_playlist_track(0, 1), Some("/m/b.mp3".to_string()));
    assert_eq!(a.playlists[0].selected, 1);
    assert_eq!(a.playing_track, Some((0, 1)));
    assert_eq!(a.play_playlist_track(0, 5), None);
    assert_eq!(a.play_playlist_track(3, 0), None);
}

#[test]
fn advancing_follows_repeat_modes() {
    let mut a = app_with(vec![playlist("p", &["a", "b", "c"])]);
    assert_eq!(a.advance_track(1), None);
    a.play_playlist_track(0, 2);
    assert_eq!(a.advance_track(1), None);
    assert_eq!(a.advance_track(-1), Some("/m/b.mp3".to_string()));
    a.repeat = RepeatMode::All;
    a.play_playlist_track(0, 2);
    assert_eq!(a.advance_track(1), Some("/m/a.mp3".to_string()));
    assert_eq!(a.advance_track(-1), Some("/m/c.mp3".to_string()));
    a.repeat = RepeatMode::One;
    assert_eq!(a.advance_track(1), Some("/m/c.mp3".to_string()));
    a.repeat = RepeatMode::Off;
    a.shuffle = true;
    for _ in 0..20 {
        assert!(a.advance_track(1).is_some());
        assert!(a.playing_track.unwrap().1 < 3);
    }
}

#[test]
fn next_track_index_covers_each_mode() {
    assert_eq!(next_track_index(RepeatMode::One, true, 4, 3, 1, 0), Some(4));
    assert_eq!(next_track_index(RepeatMode::Off, true, 1, 3, 1, 2), Some(2));
    assert_eq!(next_track_index(RepeatMode::Off, false, 0, 3, -1, 0), None);
    assert_eq!(next_track_index(RepeatMode::Off, false, 1, 3, 1, 0), Some(2));
    assert_eq!(next_track_index(RepeatMode::Off, false, 7, 3, -1, 0), None);
    assert_eq!(next_track_index(RepeatMode::All, false, 0, 3, -1, 0), Some(2));
    assert_eq!(next_track_index(RepeatMode::All, false, 7, 3, 1, 0), Some(2));
}

#[test]
fn wrap_index_is_euclidean() {
    assert_eq!(wrap_index(0, -1, 5), 4);
    assert_eq!(wrap_index(4, 1, 5), 0);
    assert_eq!(wrap_index(2, -12, 5), 0);
    assert_eq!(wrap_index(7, 0, 5), 2);
    assert_eq!(wrap_index(3, i32::MAX, 7), ((3i64 + i32::MAX as i64).rem_euclid(7)) as usize);
    assert_eq!(wrap_index(3, i32::MIN, 7), ((3i64 + i32::MIN as i64).rem_euclid(7)) as usize);
    assert_eq!(wrap_index(usize::MAX, 1, usize::MAX), 1);
}

#[test]
fn a_track_is_logged_after_thirty_seconds_of_play() {
    let mut a = app_with(vec![]);
    let p = "/m/alpha.mp3".to_string();
    let tick = 10_000_000_000u128;
    assert!(!a.tick_play_time(tick, Some(&p), false));
    assert!(!a.tick_play_time(tick, Some(&p), false));
    assert!(!a.tick_play_time(tick, Some(&p), true));
    assert!(a.tick_play_time(tick, Some(&p), false));
    assert_eq!(a.play_elapsed, LOG_AFTER);
    assert_eq!(a.history.entries.len(), 1);
    assert_eq!(a.history.entries[0].name, "alpha.mp3");
    assert!(!a.tick_play_time(tick, Some(&p), false));
    assert_eq!(a.history.entries.len(), 1);
    let q = "/m/beta.mp3".to_string();
    assert!(!a.tick_play_time(tick, Some(&q), false));
    assert_eq!(a.play_elapsed, tick);
    assert!(!a.tick_play_time(tick, None, false));
    assert_eq!(a.play_elapsed, 0);
    assert!(a.history_logged_for.is_none());
}

#[test]
fn imported_playlists_become_active() {
    let mut a = app_with(vec![]);
    let n = a.import_m3u("/x/Mix.m3u", "a.mp3\nb.mp3\n", &vec![true, false]);
    assert_eq!(n, Some(1));
    assert_eq!(a.active_playlist, 1);
    assert_eq!(a.current_playlist().name, "Mix");
    assert_eq!(a.current_playlist().tracks[0].path, "/x/a.mp3");
}

#[test]
fn downloads_go_to_music_tui_fi() {
    assert_eq!(download_dir_in("/home/u"), "/home/u/Music/tui-fi");
    assert!(download_dir().ends_with("Music/tui-fi"));
    let args = download_args_in("/home/u/Music/tui-fi", "https://example.org/v");
    assert_eq!(
        args,
        vec!["-x", "--audio-format", "mp3", "--audio-quality", "0", "-o", "/home/u/Music/tui-fi/%(title)s.%(ext)s", "https://example.org/v"]
    );
    let mut a = app_with(vec![playlist("Road", &[])]);
    assert!(a.export_path().ends_with("Music/tui-fi/Road.m3u"));
    a.on_download_started(true);
    assert_eq!(a.status_msg, "Downloading...");
    assert!(a.status_msg_time.is_none());
    a.on_download_started(false);
    assert_eq!(a.status_msg, "Error: yt-dlp not found");
    assert!(!a.on_download_finished());
    assert_eq!(a.status_msg, "Download complete");
}

#[test]
fn missing_home_falls_back_to_root() {
    assert_eq!(home_or(None), "/");
    assert_eq!(home_or(Some("/home/u".to_string())), "/home/u");
}

#[test]
fn a_step_and_a_step_back_return_the_cursor() {
    let mut a = app_with(vec![playlist("p", &["ab", "b", "ac", "d"])]);
    a.browser.selected = 1;
    a.browser_nav(1);
    assert_eq!(a.browser.selected, 2);
    a.browser_nav(-1);
    assert_eq!(a.browser.selected, 1);
    a.focused_panel = Panel::Playlist;
    a.mode = Mode::Searching;
    a.input_buffer = "A".to_string();
    a.playlists[0].selected = 2;
    a.playlist_nav(1);
    assert_eq!(a.playlists[0].selected, 0);
    a.playlist_nav(-1);
    assert_eq!(a.playlists[0].selected, 2);
}

#[test]
fn the_start_directory_is_never_empty() {
    assert!(!home_or_root().is_empty());
}

#[test]
fn the_download_message_does_not_expire_after_an_earlier_one() {
    let mut a = app_with(vec![]);
    a.set_status("Refreshed".to_string());
    assert!(a.status_msg_time.is_some());
    a.on_download_started(true);
    assert_eq!(a.status_msg, "Downloading...");
    assert!(a.status_msg_time.is_none());
    a.expire_status(5);
    assert_eq!(a.status_msg, "Downloading...");
}

#[test]
fn a_track_written_differently_is_the_same_track() {
    let mut a = app_with(vec![]);
    let p = "/m/alpha.mp3".to_string();
    let q = "/m//alpha.mp3".to_string();
    let tick = 20_000_000_000u128;
    assert!(!a.tick_play_time(tick, Some(&p), false));
    assert!(a.tick_play_time(tick, Some(&q), false));
    assert!(!a.tick_play_time(tick, Some(&p), false));
    assert_eq!(a.history.entries.len(), 1);
    assert_eq!(a.play_elapsed, 3 * tick);
}

use tui_fi::paths::{
    dir_or_here, extension, file_name, file_stem, is_absolute, is_same_path, join, name_extension, name_stem,
};
use std::path::Path;
use tui_fi::player::{default_tag_kind, fmt_duration, TagKind};
use tui_fi::text::{chars_of, contains, push_decimal, starts_with, trim};

#[test]
fn trim_removes_unicode_whitespace_at_both_ends() {
    assert_eq!(trim("  \t hello world \r\n").as_str(), "hello world");
    assert_eq!(trim("\u{3000}x\u{a0}").as_str(), "x");
    assert_eq!(trim("   ").as_str(), "");
    assert_eq!(trim("").as_str(), "");
    assert_eq!(trim("a b").as_str(), "a b");
}

#[test]
fn contains_finds_substrings() {
    let hay = chars_of("the rolling stones");
    assert!(contains(&hay, &chars_of("roll")));
    assert!(contains(&hay, &chars_of("")));
    assert!(contains(&hay, &chars_of("stones")));
    assert!(!contains(&hay, &chars_of("stoned")));
    assert!(!contains(&chars_of("ab"), &chars_of("abc")));
}

#[test]
fn starts_with_checks_prefix() {
    assert!(starts_with(&chars_of("#EXTINF:-1,x"), &chars_of("#EXTINF:")));
    assert!(!starts_with(&chars_of("#EXT"), &chars_of("#EXTINF:")));
}

#[test]
fn decimal_digits_are_printed_like_display() {
    for n in [0u64, 7, 10, 99, 100, 12345, u64::MAX] {
        let mut s = String::new();
        push_decimal(&mut s, n);
        assert_eq!(s, n.to_string());
    }
}

#[test]
fn fmt_duration_is_minutes_and_two_digit_seconds() {
    assert_eq!(fmt_duration(0), "0:00");
    assert_eq!(fmt_duration(5), "0:05");
    assert_eq!(fmt_duration(65), "1:05");
    assert_eq!(fmt_duration(600), "10:00");
    assert_eq!(fmt_duration(3599), "59:59");
    assert_eq!(fmt_duration(3600), "60:00");
}

#[test]
fn extension_and_stem_follow_std_path() {
    for p in ["a/b/song.mp3", "song", ".hidden", "archive.tar.gz", "dir/", "x.", "/", ".x.y", ""] {
        let std_ext = std::path::Path::new(p).extension().map(|e| e.to_string_lossy().into_owned());
        let std_stem = std::path::Path::new(p).file_stem().map(|e| e.to_string_lossy().into_owned());
        assert_eq!(extension(p), std_ext, "extension of {:?}", p);
        assert_eq!(file_stem(p), std_stem, "stem of {:?}", p);
    }
    assert_eq!(name_extension("song.MP3"), Some("MP3".to_string()));
    assert_eq!(name_extension(".bashrc"), None);
    assert_eq!(name_stem("a.b.c"), "a.b");
    assert_eq!(name_stem(".bashrc"), ".bashrc");
}

#[test]
fn tag_kind_goes_by_extension() {
    assert_eq!(default_tag_kind("x/song.FLAC"), TagKind::VorbisComments);
    assert_eq!(default_tag_kind("song.ogg"), TagKind::VorbisComments);
    assert_eq!(default_tag_kind("song.Opus"), TagKind::VorbisComments);
    assert_eq!(default_tag_kind("song.mp3"), TagKind::Id3v2);
    assert_eq!(default_tag_kind("song"), TagKind::Id3v2);
}

#[test]
fn missing_data_dir_falls_back_to_working_dir() {
    assert_eq!(dir_or_here(None), ".");
    assert_eq!(dir_or_here(Some("/d".to_string())), "/d");
}

#[test]
fn paths_compare_by_component() {
    assert!(is_same_path("/a//b", "/a/b"));
    assert!(is_same_path("/a/./b/", "/a/b"));
    assert!(is_same_path("a/b", "a//b/."));
    assert!(!is_same_path("/a/b", "a/b"));
    assert!(!is_same_path("./a", "a"));
    assert!(is_same_path("./a", ".//a"));
    assert!(!is_same_path("/a/b", "/a/bc"));
    assert!(!is_same_path("/a/../b", "/b"));
    assert!(is_same_path("", ""));
    assert!(!is_same_path("", "."));
}

#[test]
fn join_and_absolute_follow_unix_rules() {
    assert_eq!(join("/a", "b"), "/a/b");
    assert_eq!(join("/a/", "b"), "/a/b");
    assert_eq!(join("/a", "/b"), "/b");
    assert_eq!(join("", "b"), "b");
    assert_eq!(join("/a", ""), "/a/");
    assert!(is_absolute("/x"));
    assert!(!is_absolute("x/y"));
}

#[test]
fn path_rules_agree_with_std() {
    let samples = [
        "", ".", "./", "/", "//", "/a", "/a/", "/a//b", "/a/./b", "/a/b/.", "a", "a/b", "./a", ".//a",
        "a/./b", "../a", "/a/../b", "/b", "a/", "/.hidden", "/a/.b", ".a", "/a b/c", "/a/..", "..",
        "/a/b/c.mp3", "/a//b/./c.mp3", "a/.", "/x/y/",
    ];
    for a in samples {
        assert_eq!(is_absolute(a), Path::new(a).is_absolute(), "{}", a);
        assert_eq!(
            file_name(a),
            Path::new(a).file_name().map(|n| n.to_string_lossy().into_owned()),
            "{}",
            a
        );
        if Path::new(a).is_absolute() && Path::new(a).components().count() > 1 {
            let d = Path::new(a).parent().unwrap();
            assert!(d.is_absolute(), "{}", a);
            let mut want: Vec<_> = Path::new(a).components().collect();
            want.pop();
            assert!(d.components().eq(want.into_iter()), "{}", a);
        }
        for b in samples {
            assert_eq!(is_same_path(a, b), Path::new(a) == Path::new(b), "{} {}", a, b);
            assert_eq!(join(a, b), Path::new(a).join(b).to_string_lossy(), "{} {}", a, b);
            if let Ok(x) = Path::new(a).strip_prefix(b) {
                let back = join(b, &x.to_string_lossy());
                assert!(is_same_path(&back, a), "{} {}", a, b);
            }
        }
    }
}

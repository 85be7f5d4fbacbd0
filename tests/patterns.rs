use soundsense::loader::{load_rules, LoadError};
use soundsense::pattern::{LoaderPatterns, Pattern};
use soundsense::playlist::{parse_playlist, PlaylistError};
use soundsense::rule::SoundSource;

fn patterns() -> LoaderPatterns {
    LoaderPatterns::new().expect("the loader's expressions compile")
}

#[test]
fn repair_drops_faulty_escapes() {
    let p = patterns();
    assert_eq!(p.repair(r"You\ strike"), "You strike");
    assert_eq!(p.repair(r"a\.b\(c\)"), r"a\.b\(c\)");
    assert_eq!(p.repair(r"\\d"), r"\d");
}

#[test]
fn repair_collapses_empty_alternatives() {
    let p = patterns();
    assert_eq!(p.repair("(goblin|())"), "(goblin)?");
    assert_eq!(p.repair("(a|())(b|())"), "(a)?(b)?");
}

#[test]
fn repair_twice_equals_once_on_clean_result() {
    let p = patterns();
    let once = p.repair(r"The\ (goblin|()) dies\.");
    assert_eq!(once, r"The (goblin)? dies\.");
    assert_eq!(p.repair(&once), once);
}

#[test]
fn repair_twice_differs_when_an_escape_is_left() {
    let p = patterns();
    let once = p.repair(r"\\a");
    assert_eq!(once, r"\a");
    assert_eq!(p.repair(&once), "a");
    let nested = p.repair("|()|())");
    assert_eq!(nested, "|())?");
    assert_eq!(p.repair(&nested), ")??");
}

#[test]
fn repaired_pattern_is_the_compiled_one() {
    let rules = match load_rules(
        &patterns(),
        "r.xml",
        r#"<sounds><sound logPattern="You\ hit (it|())"/></sounds>"#,
        &Vec::new(),
    ) {
        Ok(r) => r,
        Err(_) => panic!("rule file should load"),
    };
    assert_eq!(rules[0].pattern.as_str(), "You hit (it)?");
    assert!(rules[0].pattern.is_match("You hit it"));
    assert!(rules[0].pattern.is_match("You hit "));
}

#[test]
fn pattern_new_rejects_invalid_source() {
    assert!(Pattern::new("(").is_none());
    let p = Pattern::new("gob+lin").expect("compiles");
    assert!(p.is_match("a gobbblin"));
    assert!(!p.is_match("a golin"));
}

#[test]
fn m3u_playlist_skips_directives() {
    let r = parse_playlist(&patterns(), "dir/list.m3u", "#EXTM3U\na.ogg\nb.ogg\n");
    assert_eq!(r, Ok(vec!["dir/a.ogg".to_string(), "dir/b.ogg".to_string()]));
}

#[test]
fn pls_playlist_takes_file_entries() {
    let r = parse_playlist(&patterns(), "dir/list.pls", "[playlist]\nFile1=c.ogg\nNumberOfEntries=1\n");
    assert_eq!(r, Ok(vec!["dir/c.ogg".to_string()]));
}

#[test]
fn other_playlist_extension_is_refused() {
    assert_eq!(parse_playlist(&patterns(), "dir/list.txt", "a.ogg"), Err(PlaylistError::UnsupportedFormat));
    assert_eq!(parse_playlist(&patterns(), "dir/list", "a.ogg"), Err(PlaylistError::UnsupportedFormat));
}

#[test]
fn playlist_contents_are_asked_for_then_used() {
    let p = patterns();
    let doc = r#"<sounds><sound logPattern="a"><soundFile fileName="music/list.m3u" playlist="true"/></sound></sounds>"#;
    let path = match load_rules(&p, "pack/rules.xml", doc, &Vec::new()) {
        Err(LoadError::NeedPlaylist(path)) => path,
        _ => panic!("the playlist should be asked for"),
    };
    assert_eq!(path, "pack/music/list.m3u");
    let supplied = vec![(path.clone(), "#EXTM3U\none.ogg\ntwo.ogg".to_string())];
    let rules = match load_rules(&p, "pack/rules.xml", doc, &supplied) {
        Ok(r) => r,
        Err(_) => panic!("rule file should load"),
    };
    match &rules[0].files[0].source {
        SoundSource::Playlist(paths) => {
            assert_eq!(paths, &vec!["pack/music/one.ogg".to_string(), "pack/music/two.ogg".to_string()])
        }
        SoundSource::Path(_) => panic!("a playlist was expected"),
    }
    let bad = vec![("pack/music/list.m3u".to_string(), String::new())];
    let doc_bad = r#"<sounds><sound logPattern="a"><soundFile fileName="music/list.m3u" playlist="true"/></sound></sounds>"#;
    assert!(load_rules(&p, "pack/rules.xml", doc_bad, &bad).is_ok());
    let doc_txt = r#"<sounds><sound logPattern="a"><soundFile fileName="list.txt" playlist="true"/></sound></sounds>"#;
    let txt = vec![("pack/list.txt".to_string(), String::new())];
    assert!(matches!(
        load_rules(&p, "pack/rules.xml", doc_txt, &txt),
        Err(LoadError::UnsupportedPlaylist(_))
    ));
}

use yscale::player::{
    check_play_url, external_state, first_nonempty, has_visible, poll_source, poll_state,
    now_playing, tag_lookup, PlayState, ReplyCollector, Tag, TrackMeta, UrlError,
};

#[test]
fn first_nonempty_skips_blank() {
    let c = vec!["".to_string(), "  \t".to_string(), " Song ".to_string(), "Other".to_string()];
    assert_eq!(first_nonempty(&c), " Song ");
    assert_eq!(first_nonempty(&["\u{3000}".to_string()]), "");
    assert_eq!(first_nonempty(&[]), "");
    assert!(!has_visible(&"\u{a0}\n".to_string()));
    assert!(has_visible(&" x".to_string()));
}

#[test]
fn poll_state_precedence() {
    assert_eq!(poll_state(true, true, false), (true, PlayState::Loading));
    assert_eq!(poll_state(true, false, true), (false, PlayState::Paused));
    assert_eq!(poll_state(false, true, true), (false, PlayState::Stopped));
    assert_eq!(poll_state(false, false, false), (false, PlayState::Playing));
    assert_eq!(PlayState::Loading.as_str(), "loading");
    assert_eq!(PlayState::Stopped.as_str(), "stopped");
}

#[test]
fn sources_shown() {
    assert_eq!(poll_source(&"dlna".to_string(), true), "dlna");
    assert_eq!(poll_source(&String::new(), true), "idle");
    assert_eq!(poll_source(&String::new(), false), "stream");
    assert_eq!(external_state("idle"), PlayState::Stopped);
    assert_eq!(external_state("generator"), PlayState::Playing);
    let m = TrackMeta { source: String::new(), ..TrackMeta::default() }.for_load();
    assert_eq!(m.source, "stream");
    let k = TrackMeta { source: "radio".to_string(), ..TrackMeta::default() }.for_load();
    assert_eq!(k.source, "radio");
}

#[test]
fn tags_ignore_ascii_case() {
    let tags = vec![
        Tag { key: "ARTIST".to_string(), value: None },
        Tag { key: "Artist".to_string(), value: Some("Nina".to_string()) },
        Tag { key: "artist".to_string(), value: Some("Other".to_string()) },
        Tag { key: "Title".to_string(), value: Some("Song".to_string()) },
    ];
    assert_eq!(tag_lookup(&tags, "artist"), "Nina");
    assert_eq!(tag_lookup(&tags, "TITLE"), "Song");
    assert_eq!(tag_lookup(&tags, "album"), "");
}

#[test]
fn replies_match_requests() {
    let mut c: ReplyCollector<i32> = ReplyCollector::new(3);
    c.accept(2, true, Some(20), -1);
    c.accept(2, true, Some(99), -1);
    c.accept(0, true, Some(5), -1);
    c.accept(4, true, Some(5), -1);
    assert!(!c.complete());
    c.accept(1, false, Some(10), -1);
    assert!(!c.complete());
    c.accept(1, true, Some(11), -1);
    c.accept(3, true, None, -1);
    assert!(c.complete());
    assert_eq!(c.into_replies(), vec![None, Some(20), Some(-1)]);
}

fn tag(k: &str, v: Option<&str>) -> Tag {
    Tag { key: k.to_string(), value: v.map(|s| s.to_string()) }
}

#[test]
fn now_playing_precedence() {
    let tags = vec![
        tag("TITLE", Some("Tag Title")),
        tag("Album_Artist", Some("Band")),
        tag("artist", None),
        tag("album", Some(" ")),
    ];
    let meta = TrackMeta {
        title: "".to_string(),
        artist: "  ".to_string(),
        album: "LP".to_string(),
        art_url: "http://a/b.jpg".to_string(),
        source: "".to_string(),
    };
    let n = now_playing(&meta, &tags, &"media".to_string(), true, false, true);
    assert!(!n.loading);
    assert_eq!(n.state, PlayState::Paused);
    assert_eq!(n.title, "Tag Title");
    assert_eq!(n.artist, "Band");
    assert_eq!(n.album, "LP");
    assert_eq!(n.art_url, "http://a/b.jpg");
    assert_eq!(n.source, "stream");

    let meta = TrackMeta { title: "Mine".to_string(), source: "dlna".to_string(), ..TrackMeta::default() };
    let n = now_playing(&meta, &Vec::new(), &"media".to_string(), true, true, false);
    assert!(n.loading);
    assert_eq!(n.state, PlayState::Loading);
    assert_eq!(n.title, "Mine");
    assert_eq!(n.artist, "");
    assert_eq!(n.album, "");
    assert_eq!(n.source, "dlna");

    let n = now_playing(&TrackMeta::default(), &Vec::new(), &"media".to_string(), false, true, false);
    assert_eq!(n.title, "media");
    assert_eq!(n.state, PlayState::Stopped);
    assert_eq!(n.source, "idle");
}

#[test]
fn play_urls() {
    assert_eq!(check_play_url("  http://radio/stream ").unwrap(), "http://radio/stream");
    assert!(check_play_url("https://x").is_ok());
    assert!(check_play_url("file:///music/a.flac").is_ok());
    assert_eq!(check_play_url("ftp://x"), Err(UrlError::Scheme));
    assert_eq!(check_play_url("http:/"), Err(UrlError::Scheme));
}

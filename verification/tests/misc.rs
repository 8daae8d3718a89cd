use clipq::cli::{parse_format, resolve_clip, Format, InvalidInput};
use clipq::clipboard::{ClipboardManager, Reading};
use clipq::config::Config;
use clipq::database::{Clip, Database};
use clipq::hotkey::{parse_hotkey, read_word, split_on, HotKey};
use clipq::web::{get_clips, present, search_clips, WebClip};

fn clip(id: &str, content: &str, at: i64) -> Clip {
    Clip {
        id: id.to_string(),
        content: content.to_string(),
        clip_type: "text".to_string(),
        created_at: at,
        file_path: None,
    }
}

fn abc() -> Database {
    let mut db = Database::new();
    db.insert_clip(clip("id-a", "alpha", 1)).unwrap();
    db.insert_clip(clip("id-b", "beta", 2)).unwrap();
    db.insert_clip(clip("id-c", "gamma", 3)).unwrap();
    db
}

fn key(control: bool, alt: bool, shift: bool, meta: bool, key: char) -> HotKey {
    HotKey { control, alt, shift, meta, key }
}

#[test]
fn the_built_in_settings() {
    let c = Config::default();
    assert_eq!(c.max_clips, 100);
    assert_eq!(c.hotkey, "ctrl+shift+v");
    assert_eq!(c.picker_command, "fzf");
    assert_eq!(c.database_path, "~/.clipq/clipboard.db");
    assert!(c.enable_file_clips);
    assert!(!c.enable_encryption);
    assert!(!c.sync_enabled);
    assert_eq!(c.sync_gist_id, None);
    assert_eq!(c.sync_token, None);
}

#[test]
fn settings_found_override_every_field() {
    let found = Config {
        max_clips: 5,
        hotkey: "alt+x".to_string(),
        picker_command: "sk".to_string(),
        database_path: "/tmp/db".to_string(),
        enable_file_clips: false,
        enable_encryption: true,
        sync_enabled: true,
        sync_gist_id: Some("g".to_string()),
        sync_token: Some("t".to_string()),
    };
    let c = Config::load(Some(found.clone()));
    assert_eq!(c.max_clips, 5);
    assert_eq!(c.hotkey, "alt+x");
    assert_eq!(c.picker_command, "sk");
    assert_eq!(c.database_path, "/tmp/db");
    assert!(!c.enable_file_clips);
    assert!(c.enable_encryption);
    assert!(c.sync_enabled);
    assert_eq!(c.sync_gist_id, Some("g".to_string()));
    assert_eq!(c.sync_token, Some("t".to_string()));
    assert_eq!(Config::load(None).max_clips, 100);
}

#[test]
fn formats_are_named_in_lower_case() {
    assert_eq!(parse_format("json").unwrap(), Format::Json);
    assert_eq!(parse_format("csv").unwrap(), Format::Csv);
    assert_eq!(parse_format("txt").unwrap(), Format::Txt);
    for name in ["", "JSON", "xml", "json ", "text"] {
        match parse_format(name) {
            Err(InvalidInput::UnsupportedFormat(n)) => assert_eq!(n, name),
            _ => panic!("no such format"),
        }
    }
}

#[test]
fn a_number_names_a_clip_by_its_place() {
    let db = abc();
    assert_eq!(resolve_clip(&db, "1").unwrap(), "id-c");
    assert_eq!(resolve_clip(&db, "3").unwrap(), "id-a");
    assert_eq!(resolve_clip(&db, "+2").unwrap(), "id-b");
}

#[test]
fn a_place_the_history_lacks_is_refused() {
    let db = abc();
    assert!(matches!(resolve_clip(&db, "0"), Err(InvalidInput::InvalidIndex(0))));
    assert!(matches!(resolve_clip(&db, "4"), Err(InvalidInput::InvalidIndex(4))));
    assert!(matches!(resolve_clip(&Database::new(), "1"), Err(InvalidInput::InvalidIndex(1))));
}

#[test]
fn anything_else_is_the_id_itself() {
    let db = abc();
    assert_eq!(resolve_clip(&db, "id-b").unwrap(), "id-b");
    assert_eq!(resolve_clip(&db, "unknown").unwrap(), "unknown");
    assert_eq!(resolve_clip(&db, "").unwrap(), "");
    assert_eq!(resolve_clip(&db, "-1").unwrap(), "-1");
    assert_eq!(resolve_clip(&db, "1e3").unwrap(), "1e3");
    assert_eq!(
        resolve_clip(&db, "99999999999999999999999999").unwrap(),
        "99999999999999999999999999"
    );
}

#[test]
fn the_accessor_tells_changes_from_repeats() {
    let mut m = ClipboardManager::new();
    assert!(!m.has_changed(Reading::Absent));
    assert!(m.has_changed(Reading::Text("a".to_string())));
    assert!(!m.has_changed(Reading::Text("a".to_string())));
    assert!(!m.has_changed(Reading::Failed("no display".to_string())));
    assert!(!m.has_changed(Reading::Text("a".to_string())));
    assert!(m.has_changed(Reading::Text(" ".to_string())));
    assert!(m.has_changed(Reading::Text("a".to_string())));
}

#[test]
fn what_was_written_is_no_change_when_read_back() {
    let mut m = ClipboardManager::new();
    m.set_text("mine");
    assert!(!m.has_changed(Reading::Text("mine".to_string())));
    assert!(m.has_changed(Reading::Text("theirs".to_string())));
}

#[test]
fn watching_hands_out_the_new_content() {
    let mut m = ClipboardManager::new();
    assert_eq!(m.monitor_changes(Reading::Text("a".to_string())), Some("a".to_string()));
    assert_eq!(m.monitor_changes(Reading::Text("a".to_string())), None);
    assert_eq!(m.monitor_changes(Reading::Absent), None);
    assert_eq!(m.monitor_changes(Reading::Text("".to_string())), Some("".to_string()));
    assert_eq!(Reading::Text("t".to_string()).text(), Some("t".to_string()));
    assert_eq!(Reading::Failed("t".to_string()).text(), None);
}

#[test]
fn a_key_combination_is_read_word_by_word() {
    assert_eq!(parse_hotkey("ctrl+shift+v"), key(true, false, true, false, 'V'));
    assert_eq!(parse_hotkey("CTRL+Alt+X"), key(true, true, false, false, 'X'));
    assert_eq!(parse_hotkey(" cmd + c "), key(false, false, false, true, 'C'));
    assert_eq!(parse_hotkey("super+meta+k"), key(false, false, false, true, 'K'));
    assert_eq!(parse_hotkey("alt+Q"), key(false, true, false, false, 'Q'));
    assert_eq!(parse_hotkey(""), key(false, false, false, false, 'V'));
    assert_eq!(parse_hotkey("a+b"), key(false, false, false, false, 'B'));
    assert_eq!(parse_hotkey("shift+1"), key(false, false, true, false, 'V'));
    assert_eq!(parse_hotkey("zebra"), key(false, false, false, false, 'Z'));
    assert_eq!(parse_hotkey("shift+ z"), key(false, false, true, false, 'V'));
    assert_eq!(parse_hotkey("ctrl++é"), key(true, false, false, false, 'V'));
}

#[test]
fn a_word_is_read_given_its_lower_case() {
    let h = key(false, false, false, false, 'V');
    assert_eq!(read_word(h, "Ctrl", "ctrl"), key(true, false, false, false, 'V'));
    assert_eq!(read_word(h, "x", "x"), key(false, false, false, false, 'X'));
    assert_eq!(read_word(h, "Ctrl", "Ctrl"), key(false, false, false, false, 'C'));
    assert_eq!(read_word(h, "m", "m"), key(false, false, false, false, 'M'));
    assert_eq!(read_word(h, "", ""), h);
    assert_eq!(read_word(h, "[", "["), h);
    assert_eq!(read_word(h, "{", "{"), h);
}

#[test]
fn a_text_is_split_at_every_separator() {
    for text in ["", "a", "a+b", "+", "a++b+", "++"] {
        let expected: Vec<String> = text.split('+').map(|p| p.to_string()).collect();
        assert_eq!(split_on(text, '+'), expected);
    }
}

#[test]
fn a_web_clip_writes_the_time_out() {
    let mut c = clip("i", "content", 1431648000);
    c.file_path = Some("/p".to_string());
    let w = WebClip::from(c);
    assert_eq!(w.id, "i");
    assert_eq!(w.content, "content");
    assert_eq!(w.clip_type, "text");
    assert_eq!(w.created_at, "2015-05-15 00:00:00");
    assert_eq!(w.file_path, Some("/p".to_string()));
    assert!(w.tags.is_empty());
}

#[test]
fn the_front_page_lists_clips_with_their_tags() {
    let mut db = abc();
    db.add_tag_to_clip("id-b", "t1").unwrap();
    db.add_tag_to_clip("id-b", "t2").unwrap();
    let page = get_clips(&db);
    assert_eq!(page.len(), 3);
    assert_eq!(page[0].content, "gamma");
    assert!(page[0].tags.is_empty());
    assert_eq!(page[1].id, "id-b");
    let mut tags = page[1].tags.clone();
    tags.sort();
    assert_eq!(tags, vec!["t1", "t2"]);
    assert_eq!(page[2].created_at, "1970-01-01 00:00:01");
}

#[test]
fn the_front_page_lists_fifty_clips_at_most() {
    let mut db = Database::new();
    for i in 0..60 {
        db.insert_clip(clip(&i.to_string(), "c", i)).unwrap();
    }
    assert_eq!(get_clips(&db).len(), 50);
    assert_eq!(search_clips(&db, "c", None).len(), 20);
    assert_eq!(search_clips(&db, "c", Some(3)).len(), 3);
    assert_eq!(search_clips(&db, "c", Some(100)).len(), 60);
    assert_eq!(search_clips(&db, "zzz", None).len(), 0);
    assert_eq!(present(&db, Vec::new()).len(), 0);
}

#[test]
fn a_read_is_a_text_or_nothing_or_a_failure() {
    let m = ClipboardManager::new();
    assert_eq!(m.get_text(Reading::Text("t".to_string())).unwrap(), Some("t".to_string()));
    assert_eq!(m.get_text(Reading::Absent).unwrap(), None);
    assert_eq!(m.get_text(Reading::Failed("no display".to_string())).unwrap_err().message, "no display");
}

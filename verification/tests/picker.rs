use clipq::database::{Clip, Database};
use clipq::picker::{
    find_picker_command, picker_answer, picker_arguments, picker_listing, preview, show_picker,
    show_simple_menu, Offer, PickerError,
};

fn clip(id: &str, content: &str, at: i64) -> Clip {
    Clip {
        id: id.to_string(),
        content: content.to_string(),
        clip_type: "text".to_string(),
        created_at: at,
        file_path: None,
    }
}

fn abc() -> Database {
    let mut db = Database::new();
    db.insert_clip(clip("1", "alpha", 1)).unwrap();
    db.insert_clip(clip("2", "beta", 2)).unwrap();
    db.insert_clip(clip("3", "gamma", 3)).unwrap();
    db
}

fn offer() -> Offer {
    show_picker(&abc(), 50).unwrap()
}

#[test]
fn a_short_clip_is_shown_whole() {
    assert_eq!(preview("hello", 100), "hello");
    assert_eq!(preview("", 100), "");
    let exactly = "x".repeat(100);
    assert_eq!(preview(&exactly, 100), exactly);
    assert_eq!(preview("abc", 3), "abc");
}

#[test]
fn a_long_clip_is_cut_and_dotted() {
    let long = "x".repeat(101);
    assert_eq!(preview(&long, 100), format!("{}...", "x".repeat(97)));
    let longer = "0123456789".repeat(30);
    assert_eq!(preview(&longer, 80), format!("{}...", &longer[..77]));
    assert_eq!(preview("abcd", 3), "...");
}

#[test]
fn a_cut_never_splits_a_character() {
    let text = "é".repeat(60);
    assert_eq!(text.len(), 120);
    assert_eq!(preview(&text, 100), format!("{}...", "é".repeat(48)));
    let short = "é".repeat(50);
    assert_eq!(preview(&short, 100), short);
    let mixed = format!("{}{}", "a".repeat(96), "日本語");
    assert_eq!(preview(&mixed, 100), format!("{}...", "a".repeat(96)));
    let fits = format!("{}{}", "a".repeat(94), "日本語");
    assert_eq!(preview(&fits, 100), format!("{}日...", "a".repeat(94)));
}

#[test]
fn the_listing_numbers_the_clips_from_one() {
    let o = offer();
    assert_eq!(o.text, "1: gamma\n2: beta\n3: alpha");
    assert_eq!(o.clips.len(), 3);
    assert_eq!(show_picker(&abc(), 2).unwrap().text, "1: gamma\n2: beta");
    assert_eq!(show_picker(&abc(), 1).unwrap().text, "1: gamma");
}

#[test]
fn the_listing_of_many_clips_counts_on() {
    let clips: Vec<Clip> = (0..12).map(|i| clip(&i.to_string(), "c", i)).collect();
    let text = picker_listing(&clips);
    let lines: Vec<&str> = text.split('\n').collect();
    assert_eq!(lines.len(), 12);
    assert_eq!(lines[9], "10: c");
    assert_eq!(lines[11], "12: c");
    assert_eq!(picker_listing(&Vec::new()), "");
}

#[test]
fn the_listing_shows_previews() {
    let long = "y".repeat(150);
    let text = picker_listing(&vec![clip("1", &long, 1)]);
    assert_eq!(text, format!("1: {}...", "y".repeat(97)));
}

#[test]
fn an_empty_history_offers_nothing() {
    assert!(show_picker(&Database::new(), 50).is_none());
    assert!(show_simple_menu(&Database::new(), 50).is_none());
    assert!(show_picker(&abc(), 0).is_none());
}

#[test]
fn the_answer_names_a_clip_by_its_number() {
    let o = offer();
    assert_eq!(o.pick("1: gamma"), Some("gamma".to_string()));
    assert_eq!(o.pick("3: alpha"), Some("alpha".to_string()));
    assert_eq!(o.pick("2:"), Some("beta".to_string()));
    assert_eq!(o.pick("+2: beta"), Some("beta".to_string()));
    assert_eq!(o.pick("002: beta"), Some("beta".to_string()));
}

#[test]
fn an_answer_without_a_number_names_nothing() {
    let o = offer();
    assert_eq!(o.pick("0: none"), None);
    assert_eq!(o.pick("4: none"), None);
    assert_eq!(o.pick("2"), None);
    assert_eq!(o.pick(""), None);
    assert_eq!(o.pick(": x"), None);
    assert_eq!(o.pick(" 2: beta"), None);
    assert_eq!(o.pick("2 : beta"), None);
    assert_eq!(o.pick("-1: x"), None);
    assert_eq!(o.pick("two: beta"), None);
    assert_eq!(o.pick("99999999999999999999999999: x"), None);
}

#[test]
fn the_menu_has_a_heading_and_a_prompt() {
    let o = show_simple_menu(&abc(), 2).unwrap();
    assert_eq!(
        o.text,
        "\nClipboard History:\n==================\n1: gamma\n2: beta\n\nEnter number to select (0 to cancel): \n"
    );
    let long = "z".repeat(81);
    let mut db = Database::new();
    db.insert_clip(clip("1", &long, 1)).unwrap();
    let shown = show_simple_menu(&db, 5).unwrap();
    assert!(shown.text.contains(&format!("1: {}...\n", "z".repeat(77))));
}

#[test]
fn the_menu_takes_a_number_with_space_around_it() {
    let o = offer();
    assert_eq!(o.choose_numbered("2\n"), Some("beta".to_string()));
    assert_eq!(o.choose_numbered("  3  "), Some("alpha".to_string()));
    assert_eq!(o.choose_numbered("0"), None);
    assert_eq!(o.choose_numbered("4"), None);
    assert_eq!(o.choose_numbered(""), None);
    assert_eq!(o.choose_numbered("x"), None);
    assert_eq!(o.choose_numbered("1 2"), None);
    assert_eq!(o.choose_numbered("-1"), None);
}

#[test]
fn fzf_is_taken_before_sk_before_skim() {
    assert_eq!(find_picker_command(true, true, true).unwrap(), "fzf");
    assert_eq!(find_picker_command(false, true, true).unwrap(), "sk");
    assert_eq!(find_picker_command(false, false, true).unwrap(), "skim");
    assert!(matches!(find_picker_command(false, false, false), Err(PickerError::NoPicker)));
}

#[test]
fn known_pickers_get_the_same_arguments() {
    for cmd in ["fzf", "sk", "skim"] {
        assert_eq!(
            picker_arguments(cmd).unwrap(),
            vec!["--height", "40%", "--reverse", "--border"]
        );
    }
    match picker_arguments("dmenu") {
        Err(PickerError::UnknownCommand(c)) => assert_eq!(c, "dmenu"),
        _ => panic!("dmenu is no known picker"),
    }
}

#[test]
fn the_picker_answers_with_a_trimmed_line() {
    assert_eq!(picker_answer(true, "2: beta\n", "").unwrap(), Some("2: beta".to_string()));
    assert_eq!(picker_answer(true, "  \n", "").unwrap(), None);
    assert_eq!(picker_answer(true, "", "ignored").unwrap(), None);
}

#[test]
fn a_picker_the_user_left_answers_nothing() {
    assert_eq!(picker_answer(false, "x", "User aborted").unwrap(), None);
    assert_eq!(picker_answer(false, "", "was cancelled by user").unwrap(), None);
    match picker_answer(false, "", "no tty") {
        Err(PickerError::Failed(why)) => assert_eq!(why, "no tty"),
        _ => panic!("the picker failed"),
    }
    assert!(picker_answer(false, "", "user aborted").is_err());
}

#[test]
fn a_listing_too_narrow_for_the_dots_shows_only_the_dots() {
    assert_eq!(preview("abc", 2), "...");
    assert_eq!(preview("ab", 2), "ab");
    assert_eq!(preview("a", 0), "...");
    assert_eq!(preview("", 0), "");
}

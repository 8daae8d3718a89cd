use clipq::database::{moment_text, Clip, Database, StoreError};

fn clip(id: &str, content: &str, at: i64) -> Clip {
    Clip {
        id: id.to_string(),
        content: content.to_string(),
        clip_type: "text".to_string(),
        created_at: at,
        file_path: None,
    }
}

fn contents(clips: &Vec<Clip>) -> Vec<String> {
    clips.iter().map(|c| c.content.clone()).collect()
}

fn abc() -> Database {
    let mut db = Database::new();
    assert_eq!(db.insert_clip(clip("1", "a", 1)), Ok(()));
    assert_eq!(db.insert_clip(clip("2", "b", 2)), Ok(()));
    assert_eq!(db.insert_clip(clip("3", "c", 3)), Ok(()));
    db
}

fn sorted(mut v: Vec<String>) -> Vec<String> {
    v.sort();
    v
}

#[test]
fn new_store_is_empty() {
    let db = Database::new();
    assert_eq!(db.len(), 0);
    assert!(db.get_all_clips().is_empty());
    assert!(db.get_recent_clips(10).is_empty());
    assert!(db.tag_names().is_empty());
}

#[test]
fn trim_two_of_three_keeps_the_two_newest() {
    let mut db = abc();
    db.trim_history(2);
    assert_eq!(db.len(), 2);
    assert_eq!(contents(&db.get_recent_clips(10)), vec!["c", "b"]);
    assert!(db.get_clip_by_id("1").is_none());
}

#[test]
fn trim_goes_by_time_of_capture_not_by_arrival() {
    let mut db = Database::new();
    assert_eq!(db.insert_clip(clip("3", "c", 3)), Ok(()));
    assert_eq!(db.insert_clip(clip("1", "a", 1)), Ok(()));
    assert_eq!(db.insert_clip(clip("2", "b", 2)), Ok(()));
    assert_eq!(contents(&db.get_all_clips()), vec!["c", "b", "a"]);
    db.trim_history(2);
    assert_eq!(contents(&db.get_all_clips()), vec!["c", "b"]);
}

#[test]
fn trim_within_the_bound_changes_nothing() {
    let mut db = abc();
    db.trim_history(3);
    assert_eq!(contents(&db.get_all_clips()), vec!["c", "b", "a"]);
    db.trim_history(100);
    assert_eq!(db.len(), 3);
}

#[test]
fn trim_to_nothing_empties_the_store() {
    let mut db = abc();
    db.trim_history(0);
    assert_eq!(db.len(), 0);
}

#[test]
fn clips_of_one_second_stand_latest_arrival_first() {
    let mut db = Database::new();
    assert_eq!(db.insert_clip(clip("1", "first", 5)), Ok(()));
    assert_eq!(db.insert_clip(clip("2", "second", 5)), Ok(()));
    assert_eq!(db.insert_clip(clip("3", "third", 5)), Ok(()));
    assert_eq!(contents(&db.get_all_clips()), vec!["third", "second", "first"]);
    db.trim_history(1);
    assert_eq!(contents(&db.get_all_clips()), vec!["third"]);
}

#[test]
fn insert_rejects_a_repeated_id() {
    let mut db = Database::new();
    assert_eq!(db.insert_clip(clip("1", "a", 1)), Ok(()));
    assert_eq!(db.insert_clip(clip("1", "b", 2)), Err(StoreError::DuplicateId));
    assert_eq!(contents(&db.get_all_clips()), vec!["a"]);
}

#[test]
fn recent_gives_at_most_the_limit() {
    let db = abc();
    assert_eq!(contents(&db.get_recent_clips(0)), Vec::<String>::new());
    assert_eq!(contents(&db.get_recent_clips(1)), vec!["c"]);
    assert_eq!(contents(&db.get_recent_clips(2)), vec!["c", "b"]);
    assert_eq!(contents(&db.get_recent_clips(usize::MAX)), vec!["c", "b", "a"]);
}

#[test]
fn get_by_id_finds_the_clip_or_nothing() {
    let db = abc();
    let found = db.get_clip_by_id("2").unwrap();
    assert_eq!(found.content, "b");
    assert_eq!(found.created_at, 2);
    assert_eq!(found.clip_type, "text");
    assert_eq!(found.file_path, None);
    assert!(db.get_clip_by_id("22").is_none());
    assert!(db.get_clip_by_id("").is_none());
}

#[test]
fn search_matches_substrings_exactly() {
    let mut db = Database::new();
    db.insert_clip(clip("1", "Hello World", 1)).unwrap();
    db.insert_clip(clip("2", "hello there", 2)).unwrap();
    db.insert_clip(clip("3", "say hello", 3)).unwrap();
    db.insert_clip(clip("4", "100% sure", 4)).unwrap();
    assert_eq!(contents(&db.search_clips("hello", 10)), vec!["say hello", "hello there"]);
    assert_eq!(contents(&db.search_clips("Hello", 10)), vec!["Hello World"]);
    assert_eq!(contents(&db.search_clips("hello", 1)), vec!["say hello"]);
    assert_eq!(contents(&db.search_clips("hello", 0)), Vec::<String>::new());
    assert_eq!(contents(&db.search_clips("%", 10)), vec!["100% sure"]);
    assert_eq!(contents(&db.search_clips("_", 10)), Vec::<String>::new());
    assert_eq!(contents(&db.search_clips("zzz", 10)), Vec::<String>::new());
    assert_eq!(db.search_clips("", 10).len(), 4);
}

#[test]
fn tag_then_untag_restores_the_tags() {
    let mut db = abc();
    db.add_tag_to_clip("2", "work").unwrap();
    let before = sorted(db.get_clip_tags("2"));
    db.add_tag_to_clip("2", "urgent").unwrap();
    assert_eq!(sorted(db.get_clip_tags("2")), vec!["urgent", "work"]);
    db.remove_tag_from_clip("2", "urgent");
    assert_eq!(sorted(db.get_clip_tags("2")), before);
}

#[test]
fn tag_twice_is_one_association() {
    let mut db = abc();
    assert_eq!(db.add_tag_to_clip("1", "x"), Ok(()));
    assert_eq!(db.add_tag_to_clip("1", "x"), Ok(()));
    assert_eq!(db.get_clip_tags("1"), vec!["x"]);
    assert_eq!(db.tag_names(), vec!["x"]);
    db.remove_tag_from_clip("1", "x");
    assert!(db.get_clip_tags("1").is_empty());
}

#[test]
fn untag_of_what_is_not_attached_changes_nothing() {
    let mut db = abc();
    db.add_tag_to_clip("1", "x").unwrap();
    db.remove_tag_from_clip("1", "y");
    db.remove_tag_from_clip("2", "x");
    db.remove_tag_from_clip("nobody", "x");
    assert_eq!(db.get_clip_tags("1"), vec!["x"]);
}

#[test]
fn tag_of_a_missing_clip_is_refused_and_changes_nothing() {
    let mut db = abc();
    assert_eq!(db.add_tag_to_clip("nobody", "x"), Err(StoreError::MissingClip));
    assert!(db.tag_names().is_empty());
    assert!(db.get_clip_tags("nobody").is_empty());
    assert!(db.get_clips_by_tag("x").is_empty());
}

#[test]
fn clear_removes_clips_and_their_tags() {
    let mut db = abc();
    db.add_tag_to_clip("1", "x").unwrap();
    db.add_tag_to_clip("2", "x").unwrap();
    db.add_tag_to_clip("2", "y").unwrap();
    db.clear_history();
    assert_eq!(db.len(), 0);
    assert!(db.get_clip_tags("1").is_empty());
    assert!(db.get_clip_tags("2").is_empty());
    assert!(db.get_clips_by_tag("x").is_empty());
    assert_eq!(sorted(db.tag_names()), vec!["x", "y"]);
    db.insert_clip(clip("1", "again", 9)).unwrap();
    assert!(db.get_clip_tags("1").is_empty());
}

#[test]
fn trim_removes_the_tags_of_what_leaves() {
    let mut db = abc();
    db.add_tag_to_clip("1", "old").unwrap();
    db.add_tag_to_clip("3", "new").unwrap();
    db.trim_history(2);
    assert!(db.get_clip_tags("1").is_empty());
    assert!(db.get_clips_by_tag("old").is_empty());
    assert_eq!(db.get_clip_tags("3"), vec!["new"]);
    assert_eq!(sorted(db.tag_names()), vec!["new", "old"]);
}

#[test]
fn clips_by_tag_come_newest_first() {
    let mut db = abc();
    db.add_tag_to_clip("1", "t").unwrap();
    db.add_tag_to_clip("3", "t").unwrap();
    db.add_tag_to_clip("2", "other").unwrap();
    assert_eq!(contents(&db.get_clips_by_tag("t")), vec!["c", "a"]);
    assert_eq!(contents(&db.get_clips_by_tag("other")), vec!["b"]);
    assert!(db.get_clips_by_tag("none").is_empty());
}

#[test]
fn create_tag_makes_a_tag_known_once() {
    let mut db = Database::new();
    db.create_tag("a");
    db.create_tag("a");
    db.create_tag("b");
    assert_eq!(sorted(db.tag_names()), vec!["a", "b"]);
}

#[test]
fn statistics_count_kinds_and_write_moments() {
    let mut db = Database::new();
    db.insert_clip(clip("1", "a", 1)).unwrap();
    db.insert_clip(clip("2", "b", 1431648000)).unwrap();
    let mut file = clip("3", "/tmp/x", 86400);
    file.clip_type = "file".to_string();
    file.file_path = Some("/tmp/x".to_string());
    db.insert_clip(file).unwrap();
    let mut odd = clip("4", "d", 100);
    odd.clip_type = "image".to_string();
    db.insert_clip(odd).unwrap();
    let stats = db.get_statistics(7 * 1024 + 1023);
    assert_eq!(stats.total_clips, 4);
    assert_eq!(stats.text_clips, 2);
    assert_eq!(stats.file_clips, 1);
    assert_eq!(stats.oldest_clip, "1970-01-01 00:00:01");
    assert_eq!(stats.newest_clip, "2015-05-15 00:00:00");
    assert_eq!(stats.db_size_kb, 7);
    assert_eq!(db.stamps(), (1, 1431648000));
}

#[test]
fn statistics_of_an_empty_store() {
    let db = Database::new();
    let stats = db.get_statistics(0);
    assert_eq!(stats.total_clips, 0);
    assert_eq!(stats.text_clips, 0);
    assert_eq!(stats.file_clips, 0);
    assert_eq!(stats.oldest_clip, "1970-01-01 00:00:00");
    assert_eq!(stats.newest_clip, "1970-01-01 00:00:00");
    assert_eq!(db.stamps(), (0, 0));
}

#[test]
fn statistics_with_takes_the_moments_as_given() {
    let db = abc();
    let stats = db.statistics_with("then".to_string(), "now".to_string(), 3 * 1024);
    assert_eq!(stats.total_clips, 3);
    assert_eq!(stats.text_clips, 3);
    assert_eq!(stats.file_clips, 0);
    assert_eq!(stats.oldest_clip, "then");
    assert_eq!(stats.newest_clip, "now");
    assert_eq!(stats.db_size_kb, 3);
}

#[test]
fn moment_text_writes_utc() {
    assert_eq!(moment_text(0), "1970-01-01 00:00:00");
    assert_eq!(moment_text(-1), "1969-12-31 23:59:59");
    assert_eq!(moment_text(951782400), "2000-02-29 00:00:00");
    assert_eq!(moment_text(1431648000 + 3661), "2015-05-15 01:01:01");
}

#[test]
fn moment_text_of_a_moment_out_of_range_is_the_present() {
    let text = moment_text(i64::MAX);
    assert_eq!(text.len(), 19);
    assert_ne!(text, i64::MAX.to_string());
}

#[test]
fn add_clip_stores_text_under_a_fresh_id() {
    let mut db = Database::new();
    let a = db.add_clip("hello", "text").unwrap();
    let b = db.add_clip("hello", "text").unwrap();
    assert_eq!(a.content, "hello");
    assert_eq!(a.clip_type, "text");
    assert_eq!(a.file_path, None);
    assert_eq!(a.id.len(), 36);
    assert_ne!(a.id, b.id);
    assert!(a.created_at > 1_600_000_000);
    assert_eq!(db.len(), 2);
    assert_eq!(db.get_clip_by_id(&a.id).unwrap().content, "hello");
    assert_eq!(db.get_all_clips()[0].id, b.id);
}

#[test]
fn add_file_clip_stores_the_path_twice() {
    let mut db = Database::new();
    let f = db.add_file_clip("/etc/hosts").unwrap();
    assert_eq!(f.content, "/etc/hosts");
    assert_eq!(f.clip_type, "file");
    assert_eq!(f.file_path, Some("/etc/hosts".to_string()));
    assert_eq!(db.get_statistics(0).file_clips, 1);
}

#[test]
fn clone_of_a_clip_is_the_same_clip() {
    let mut c = clip("1", "a", 1);
    c.file_path = Some("p".to_string());
    let d = c.clone();
    assert_eq!(d.id, "1");
    assert_eq!(d.content, "a");
    assert_eq!(d.clip_type, "text");
    assert_eq!(d.created_at, 1);
    assert_eq!(d.file_path, Some("p".to_string()));
}

#[test]
fn the_size_is_given_in_whole_kilobytes() {
    let db = Database::new();
    assert_eq!(db.get_statistics(0).db_size_kb, 0);
    assert_eq!(db.get_statistics(1023).db_size_kb, 0);
    assert_eq!(db.get_statistics(1024).db_size_kb, 1);
    assert_eq!(db.get_statistics(2047).db_size_kb, 1);
    assert_eq!(db.get_statistics(10 * 1024 * 1024).db_size_kb, 10240);
    assert_eq!(db.get_statistics(usize::MAX).db_size_kb, usize::MAX / 1024);
}

#[test]
fn the_first_clip_of_a_new_store_is_always_taken() {
    for _ in 0..50 {
        let mut db = Database::new();
        assert!(db.add_clip("a", "text").is_ok());
        let mut files = Database::new();
        assert!(files.add_file_clip("/f").is_ok());
    }
}

#[test]
fn a_store_without_drawn_ids_takes_every_new_clip() {
    let mut db = abc();
    assert!(db.add_clip("d", "text").is_ok());
    assert_eq!(db.len(), 4);
}

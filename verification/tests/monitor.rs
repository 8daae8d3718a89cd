use clipq::config::Config;
use clipq::daemon::{Daemon, Tick};
use clipq::database::{Clip, Database};
use clipq::plugins::{PluginConfig, PluginManager, PluginTrigger};

fn monitor(max: usize) -> Daemon {
    Daemon::new(Config::default(), max)
}

fn shown(values: &[&str]) -> Vec<Option<String>> {
    values.iter().map(|v| Some(v.to_string())).collect()
}

fn stored(db: &Database) -> Vec<String> {
    db.get_recent_clips(usize::MAX).iter().map(|c| c.content.clone()).collect()
}

fn text_clip(id: &str, content: &str, at: i64) -> Clip {
    Clip {
        id: id.to_string(),
        content: content.to_string(),
        clip_type: "text".to_string(),
        created_at: at,
        file_path: None,
    }
}

#[test]
fn distinct_values_are_recorded_in_reverse_order() {
    let mut db = Database::new();
    let mut d = monitor(100);
    let (ticks, _) = d.run(&mut db, &PluginManager::new(), &shown(&["one", "two", "three", "four"]));
    assert_eq!(ticks.len(), 4);
    assert!(ticks.iter().all(|t| matches!(t, Tick::Stored(_))));
    assert_eq!(stored(&db), vec!["four", "three", "two", "one"]);
}

#[test]
fn a_value_may_come_back_after_another() {
    let mut db = Database::new();
    let mut d = monitor(100);
    d.run(&mut db, &PluginManager::new(), &shown(&["a", "b", "a"]));
    assert_eq!(stored(&db), vec!["a", "b", "a"]);
}

#[test]
fn the_same_value_twice_in_a_row_is_stored_once() {
    let mut db = Database::new();
    let mut d = monitor(100);
    let (ticks, _) = d.run(&mut db, &PluginManager::new(), &shown(&["a", "a", "a"]));
    assert!(matches!(ticks[0], Tick::Stored(_)));
    assert!(matches!(ticks[1], Tick::Idle));
    assert!(matches!(ticks[2], Tick::Idle));
    assert_eq!(stored(&db), vec!["a"]);
}

#[test]
fn blank_values_between_repeats_do_not_count() {
    let mut db = Database::new();
    let mut d = monitor(100);
    let mut readings = shown(&["a", " ", "\t\n", "", "\u{3000}", "a"]);
    readings.insert(2, None);
    let (ticks, _) = d.run(&mut db, &PluginManager::new(), &readings);
    assert_eq!(ticks.len(), 7);
    assert!(matches!(ticks[0], Tick::Stored(_)));
    assert!(ticks[1..].iter().all(|t| matches!(t, Tick::Idle)));
    assert_eq!(stored(&db), vec!["a"]);
}

#[test]
fn values_are_compared_as_they_stand() {
    let mut db = Database::new();
    let mut d = monitor(100);
    d.run(&mut db, &PluginManager::new(), &shown(&["a", " a", "a ", "A"]));
    assert_eq!(stored(&db), vec!["A", "a ", " a", "a"]);
}

#[test]
fn an_empty_clipboard_is_no_change() {
    let mut db = Database::new();
    let mut d = monitor(100);
    assert!(matches!(d.tick(&mut db, None), Tick::Idle));
    assert!(matches!(d.tick(&mut db, Some("x".to_string())), Tick::Stored(_)));
    assert!(matches!(d.tick(&mut db, None), Tick::Idle));
    assert!(matches!(d.tick(&mut db, Some("x".to_string())), Tick::Idle));
    assert_eq!(db.len(), 1);
}

#[test]
fn the_store_never_grows_over_the_bound() {
    let mut db = Database::new();
    let mut d = monitor(2);
    for v in ["1", "2", "3", "4", "5"] {
        d.tick(&mut db, Some(v.to_string()));
        assert!(db.len() <= 2);
    }
    assert_eq!(stored(&db), vec!["5", "4"]);
}

#[test]
fn a_bound_of_zero_keeps_nothing() {
    let mut db = Database::new();
    let mut d = monitor(0);
    assert!(matches!(d.tick(&mut db, Some("x".to_string())), Tick::Stored(_)));
    assert_eq!(db.len(), 0);
}

#[test]
fn a_tick_hands_out_the_stored_clip() {
    let mut db = Database::new();
    let mut d = monitor(10);
    match d.tick(&mut db, Some("payload".to_string())) {
        Tick::Stored(c) => {
            assert_eq!(c.content, "payload");
            assert_eq!(c.clip_type, "text");
            assert_eq!(c.file_path, None);
            assert_eq!(db.get_clip_by_id(&c.id).unwrap().content, "payload");
        }
        _ => panic!("the content was new"),
    }
}

#[test]
fn notice_tells_news_from_repeats() {
    let mut d = monitor(10);
    assert_eq!(d.notice(None), None);
    assert_eq!(d.notice(Some("  ".to_string())), None);
    assert_eq!(d.notice(Some("a".to_string())), Some("a".to_string()));
    assert_eq!(d.notice(Some("a".to_string())), None);
    assert_eq!(d.notice(Some("".to_string())), None);
    assert_eq!(d.notice(Some("a".to_string())), None);
    assert_eq!(d.notice(Some("b".to_string())), Some("b".to_string()));
}

#[test]
fn store_inserts_then_trims() {
    let mut db = Database::new();
    let d = monitor(1);
    assert!(matches!(d.store(&mut db, text_clip("1", "old", 10)), Tick::Stored(_)));
    assert!(matches!(d.store(&mut db, text_clip("2", "older", 5)), Tick::Stored(_)));
    assert_eq!(stored(&db), vec!["old"]);
    assert!(matches!(d.store(&mut db, text_clip("1", "again", 20)), Tick::Failed(_)));
    assert_eq!(stored(&db), vec!["old"]);
}

#[test]
fn the_monitor_keeps_its_settings() {
    let d = monitor(42);
    assert_eq!(d.max_clips(), 42);
    assert_eq!(d.config().max_clips, 100);
    assert_eq!(d.config().picker_command, "fzf");
    assert_eq!(clipq::daemon::POLL_INTERVAL_MS, 500);
}

fn hub() -> PluginManager {
    let mut hub = PluginManager::new();
    hub.load_plugins();
    hub.add_plugin(PluginConfig {
        name: "off".to_string(),
        command: "cat".to_string(),
        args: Vec::new(),
        enabled: false,
        trigger: PluginTrigger::OnClipAdd,
    });
    hub
}

#[test]
fn a_stored_capture_fires_the_handlers_for_added_clips() {
    let mut db = Database::new();
    let mut d = monitor(1);
    let hub = hub();
    let (tick, jobs) = d.poll(&mut db, &hub, Some("see https://a.b".to_string()));
    assert!(matches!(tick, Tick::Stored(_)));
    let names: Vec<String> = jobs.iter().map(|j| j.name.clone()).collect();
    assert_eq!(names, vec!["url_extractor", "code_formatter"]);
    assert!(jobs.iter().all(|j| j.input == "see https://a.b"));
    assert_eq!(db.len(), 1);
}

#[test]
fn a_poll_that_stores_nothing_fires_nothing() {
    let mut db = Database::new();
    let mut d = monitor(10);
    let hub = hub();
    let (tick, jobs) = d.poll(&mut db, &hub, None);
    assert!(matches!(tick, Tick::Idle));
    assert!(jobs.is_empty());
    let (_, first) = d.poll(&mut db, &hub, Some("a".to_string()));
    assert_eq!(first.len(), 2);
    let (tick, jobs) = d.poll(&mut db, &hub, Some("a".to_string()));
    assert!(matches!(tick, Tick::Idle));
    assert!(jobs.is_empty());
    let (tick, jobs) = d.poll(&mut db, &hub, Some("  ".to_string()));
    assert!(matches!(tick, Tick::Idle));
    assert!(jobs.is_empty());
}

#[test]
fn an_empty_hub_fires_nothing() {
    let mut db = Database::new();
    let mut d = monitor(10);
    let (tick, jobs) = d.poll(&mut db, &PluginManager::new(), Some("a".to_string()));
    assert!(matches!(tick, Tick::Stored(_)));
    assert!(jobs.is_empty());
}

#[test]
fn the_jobs_for_a_stored_clip_carry_its_content() {
    let d = monitor(10);
    let jobs = d.on_stored(&hub(), &text_clip("1", "payload", 1));
    assert_eq!(jobs.len(), 2);
    assert_eq!(jobs[0].command, "python3");
    assert_eq!(jobs[1].input, "payload");
}

#[test]
fn the_first_capture_on_a_new_store_is_stored() {
    for _ in 0..50 {
        let mut db = Database::new();
        let mut d = monitor(10);
        assert!(matches!(d.tick(&mut db, Some("a".to_string())), Tick::Stored(_)));
    }
}

#[test]
fn a_run_makes_out_the_jobs_poll_by_poll() {
    let mut db = Database::new();
    let mut d = monitor(10);
    let mut readings = shown(&["a", "a", "b"]);
    readings.push(None);
    let (ticks, jobs) = d.run(&mut db, &hub(), &readings);
    assert_eq!(ticks.len(), 4);
    assert_eq!(jobs.len(), 4);
    assert_eq!(jobs[0].len(), 2);
    assert!(jobs[1].is_empty());
    assert_eq!(jobs[2].len(), 2);
    assert!(jobs[2].iter().all(|j| j.input == "b"));
    assert!(jobs[3].is_empty());
}

use clipq::database::Clip;
use clipq::plugins::builtin::{
    calculate_hash, extract, extract_emails, extract_phone_numbers, extract_urls, format_json,
    generate_password, json_outcome, number_to_hex, to_hex,
};
use clipq::plugins::{finish_plugin, Job, PluginConfig, PluginError, PluginManager, PluginTrigger};
use std::hash::{Hash, Hasher};

fn plugin(name: &str, enabled: bool, trigger: PluginTrigger) -> PluginConfig {
    PluginConfig {
        name: name.to_string(),
        command: "cat".to_string(),
        args: vec!["-n".to_string()],
        enabled,
        trigger,
    }
}

fn loaded() -> PluginManager {
    let mut m = PluginManager::new();
    m.load_plugins();
    m
}

fn names(m: &PluginManager) -> Vec<String> {
    m.list_plugins().iter().map(|p| p.name.clone()).collect()
}

fn job_names(jobs: &Vec<Job>) -> Vec<String> {
    jobs.iter().map(|j| j.name.clone()).collect()
}

fn clip(content: &str) -> Clip {
    Clip {
        id: "id".to_string(),
        content: content.to_string(),
        clip_type: "text".to_string(),
        created_at: 1,
        file_path: None,
    }
}

#[test]
fn calling_an_unknown_plugin_is_not_found() {
    let m = loaded();
    match m.execute_plugin("nonexistent", "x") {
        Err(PluginError::NotFound(name)) => assert_eq!(name, "nonexistent"),
        _ => panic!("no such plugin is registered"),
    }
    let empty = PluginManager::new();
    assert!(matches!(empty.execute_plugin("url_extractor", "x"), Err(PluginError::NotFound(_))));
}

#[test]
fn calling_a_disabled_plugin_is_refused() {
    let mut m = loaded();
    m.disable_plugin("url_extractor").unwrap();
    match m.execute_plugin("url_extractor", "x") {
        Err(PluginError::Disabled(name)) => assert_eq!(name, "url_extractor"),
        _ => panic!("the plugin is switched off"),
    }
    m.enable_plugin("url_extractor").unwrap();
    assert!(m.execute_plugin("url_extractor", "x").is_ok());
}

#[test]
fn calling_a_plugin_gives_its_command_and_the_input() {
    let m = loaded();
    let job = m.execute_plugin("password_generator", "seed").unwrap();
    assert_eq!(job.name, "password_generator");
    assert_eq!(job.command, "python3");
    assert_eq!(job.args.len(), 2);
    assert_eq!(job.args[0], "-c");
    assert_eq!(
        job.args[1],
        "import secrets, string; print(''.join(secrets.choice(string.ascii_letters + string.digits) for _ in range(16)))"
    );
    assert_eq!(job.input, "seed");
}

#[test]
fn the_built_in_plugins_are_three() {
    let m = loaded();
    assert_eq!(names(&m), vec!["url_extractor", "code_formatter", "password_generator"]);
    let list = m.list_plugins();
    assert!(list.iter().all(|p| p.enabled && p.command == "python3" && p.args[0] == "-c"));
    assert_eq!(list[0].trigger, PluginTrigger::OnClipAdd);
    assert_eq!(list[1].trigger, PluginTrigger::OnClipAdd);
    assert_eq!(list[2].trigger, PluginTrigger::Manual);
    assert_eq!(
        list[0].args[1],
        "import re, sys; print('\\n'.join(re.findall(r'https?://[^\\s]+', sys.stdin.read())))"
    );
    assert_eq!(
        list[1].args[1],
        "import json, sys; data=json.loads(sys.stdin.read()); print(json.dumps(data, indent=2))"
    );
}

#[test]
fn loading_twice_registers_nothing_twice() {
    let mut m = loaded();
    m.load_plugins();
    assert_eq!(names(&m).len(), 3);
}

#[test]
fn adding_under_a_taken_name_replaces() {
    let mut m = PluginManager::new();
    m.add_plugin(plugin("a", true, PluginTrigger::OnClipAdd));
    m.add_plugin(plugin("b", true, PluginTrigger::OnClipAdd));
    m.add_plugin(plugin("a", false, PluginTrigger::OnClipPick));
    assert_eq!(names(&m), vec!["a", "b"]);
    let list = m.list_plugins();
    assert!(!list[0].enabled);
    assert_eq!(list[0].trigger, PluginTrigger::OnClipPick);
}

#[test]
fn an_event_sets_off_the_enabled_handlers_bound_to_it() {
    let mut m = loaded();
    m.add_plugin(plugin("picker", true, PluginTrigger::OnClipPick));
    m.add_plugin(plugin("off", false, PluginTrigger::OnClipAdd));
    m.add_plugin(plugin("late", true, PluginTrigger::OnClipAdd));
    let jobs = m.trigger_plugins(&PluginTrigger::OnClipAdd, &clip("see https://a.b"));
    assert_eq!(job_names(&jobs), vec!["url_extractor", "code_formatter", "late"]);
    assert!(jobs.iter().all(|j| j.input == "see https://a.b"));
    assert_eq!(jobs[2].command, "cat");
    assert_eq!(jobs[2].args, vec!["-n"]);
    let picks = m.trigger_plugins(&PluginTrigger::OnClipPick, &clip("x"));
    assert_eq!(job_names(&picks), vec!["picker"]);
    assert!(m.trigger_plugins(&PluginTrigger::OnDaemonStart, &clip("x")).is_empty());
    assert!(m.trigger_plugins(&PluginTrigger::OnDaemonStop, &clip("x")).is_empty());
    assert!(m.trigger_plugins(&PluginTrigger::OnClipSearch, &clip("x")).is_empty());
}

#[test]
fn no_event_sets_off_a_manual_handler() {
    let m = loaded();
    assert!(m.trigger_plugins(&PluginTrigger::Manual, &clip("x")).is_empty());
}

#[test]
fn switching_an_unknown_plugin_is_not_found() {
    let mut m = loaded();
    assert!(matches!(m.enable_plugin("nope"), Err(PluginError::NotFound(_))));
    match m.disable_plugin("nope") {
        Err(e) => assert_eq!(e.message(), "Plugin not found: nope"),
        Ok(()) => panic!("no such plugin is registered"),
    }
    assert_eq!(names(&m).len(), 3);
}

#[test]
fn errors_read_as_one_line() {
    assert_eq!(PluginError::NotFound("a".to_string()).message(), "Plugin not found: a");
    assert_eq!(PluginError::Disabled("b".to_string()).message(), "Plugin is disabled: b");
    assert_eq!(
        PluginError::ExecutionFailed("boom".to_string()).message(),
        "Plugin execution failed: boom"
    );
}

#[test]
fn a_finished_job_gives_its_output_or_its_complaint() {
    assert_eq!(finish_plugin(true, "out".to_string(), "err".to_string()).unwrap(), "out");
    match finish_plugin(false, "out".to_string(), "err".to_string()) {
        Err(PluginError::ExecutionFailed(why)) => assert_eq!(why, "err"),
        _ => panic!("the job failed"),
    }
}

#[test]
fn clone_of_a_plugin_keeps_every_field() {
    let p = plugin("a", true, PluginTrigger::OnDaemonStop);
    let q = p.clone();
    assert_eq!(q.name, "a");
    assert_eq!(q.command, "cat");
    assert_eq!(q.args, vec!["-n"]);
    assert!(q.enabled);
    assert_eq!(q.trigger, PluginTrigger::OnDaemonStop);
}

#[test]
fn urls_are_pulled_out_in_order() {
    assert_eq!(
        extract_urls("see https://example.com/a?b=1 and http://x.org, then ftp://no"),
        vec!["https://example.com/a?b=1", "http://x.org,"]
    );
    assert!(extract_urls("nothing here").is_empty());
    assert!(extract_urls("").is_empty());
}

#[test]
fn mail_addresses_are_pulled_out() {
    assert_eq!(
        extract_emails("write to bob@example.com or ann.lee@mail.example.org."),
        vec!["bob@example.com", "ann.lee@mail.example.org"]
    );
    assert!(extract_emails("bob@localhost").is_empty());
}

#[test]
fn phone_numbers_are_pulled_out() {
    assert_eq!(
        extract_phone_numbers("call 555-123-4567 or 555.987.6543 or 5551112222, not 12345"),
        vec!["555-123-4567", "555.987.6543", "5551112222"]
    );
}

#[test]
fn a_rejected_pattern_finds_nothing() {
    assert!(extract("(", "((((").is_empty());
    assert_eq!(extract("a+", "caaandaa"), vec!["aaa", "aa"]);
}

#[test]
fn json_is_laid_out_with_two_spaces() {
    assert_eq!(
        format_json("{\"a\":1,\"b\":[true,null]}").unwrap(),
        "{\n  \"a\": 1,\n  \"b\": [\n    true,\n    null\n  ]\n}"
    );
    assert_eq!(format_json(" 42 ").unwrap(), "42");
}

#[test]
fn what_is_no_json_is_refused() {
    let e = format_json("{\"a\":").unwrap_err();
    assert!(e.message.contains("line 1"));
    assert!(format_json("").is_err());
    assert!(format_json("{} {}").is_err());
}

#[test]
fn a_password_has_the_length_asked_for() {
    let symbols = "ABCDEFGHIJKLMNOPQRSTUVWXYZabcdefghijklmnopqrstuvwxyz0123456789!@#$%^&*";
    for length in [0usize, 1, 16, 200] {
        let p = generate_password(length);
        assert_eq!(p.chars().count(), length);
        assert!(p.chars().all(|c| symbols.contains(c)));
    }
    assert_ne!(generate_password(32), generate_password(32));
}

#[test]
fn sha256_is_the_standard_digest() {
    assert_eq!(
        calculate_hash("abc", "sha256"),
        "ba7816bf8f01cfea414140de5dae2223b00361a396177a9cb410ff61f20015ad"
    );
    assert_eq!(
        calculate_hash("", "sha256"),
        "e3b0c44298fc1c149afbf4c8996fb92427ae41e4649b934ca495991b7852b855"
    );
}

#[test]
fn any_other_algorithm_is_the_table_hash() {
    let mut hasher = std::collections::hash_map::DefaultHasher::new();
    "abc".hash(&mut hasher);
    let expected = format!("{:x}", hasher.finish());
    assert_eq!(calculate_hash("abc", "default"), expected);
    assert_eq!(calculate_hash("abc", "md5"), expected);
    assert_eq!(calculate_hash("abc", "SHA256"), expected);
    assert_ne!(calculate_hash("abc", "default"), "abc");
}

#[test]
fn bytes_are_written_as_two_digits_each() {
    assert_eq!(to_hex(&vec![]), "");
    assert_eq!(to_hex(&vec![0x00, 0x0f, 0xa0, 0xff, 0x7b]), "000fa0ff7b");
}

#[test]
fn numbers_are_written_without_leading_zeros() {
    assert_eq!(number_to_hex(0), "0");
    assert_eq!(number_to_hex(9), "9");
    assert_eq!(number_to_hex(10), "a");
    assert_eq!(number_to_hex(255), "ff");
    assert_eq!(number_to_hex(4096), "1000");
    assert_eq!(number_to_hex(u64::MAX), "ffffffffffffffff");
    assert_eq!(number_to_hex(0xdead_beef), "deadbeef");
}

#[test]
fn json_that_is_laid_out_already_stays_as_it_is() {
    let laid_out = "{\n  \"a\": [\n    1,\n    \"two\"\n  ],\n  \"b\": {}\n}";
    assert_eq!(format_json(laid_out).unwrap(), laid_out);
    assert_eq!(format_json("[]").unwrap(), "[]");
    assert_eq!(format_json("\"text\"").unwrap(), "\"text\"");
    assert_eq!(format_json("{\"b\":1,\"a\":2}").unwrap(), "{\n  \"a\": 2,\n  \"b\": 1\n}");
}

#[test]
fn the_answer_of_the_writer_is_handed_on() {
    assert_eq!(json_outcome(Ok("{}".to_string())).unwrap(), "{}");
    assert_eq!(json_outcome(Err("no".to_string())).unwrap_err().message, "no");
}

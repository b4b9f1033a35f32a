use maplewood::components::ScriptSource;
use maplewood::script::{
    extract_metadata, filter_scripts_by_trigger_and_condition, script_cut_check, get_sub_script, next_wait_condition,
    script_from_file_contents, script_step, start_allowed, ScriptClass, ScriptCondition, ScriptError,
    ScriptManager, ScriptStep, ScriptTrigger, WaitCondition,
};
use maplewood::story::StoryVars;

fn vars(entries: &[(&str, i32)]) -> StoryVars {
    let mut v = StoryVars::new();
    for (k, x) in entries {
        v.insert(k.to_string(), *x);
    }
    v
}

#[test]
fn metadata_from_leading_annotations() {
    let src = "---@script bakery_girl::panic\n---@exclusive\n---@start_condition {panic} == 1\nmessage(\"hi\")\n---@script late\n";
    let m = extract_metadata(src);
    assert_eq!(m.name.as_deref(), Some("bakery_girl::panic"));
    assert!(m.exclusive);
    assert_eq!(m.start_condition.as_deref(), Some("{panic} == 1"));
}

#[test]
fn metadata_handles_crlf_and_overrides() {
    let src = "---@script first\r\n---@script second\r\n---some comment\r\nbody";
    let m = extract_metadata(src);
    assert_eq!(m.name.as_deref(), Some("second"));
    assert!(!m.exclusive);
    assert_eq!(m.start_condition, None);
}

#[test]
fn metadata_ignores_annotations_after_code() {
    let m = extract_metadata("print(1)\n---@exclusive\n");
    assert_eq!(m.name, None);
    assert!(!m.exclusive);
    let empty = extract_metadata("");
    assert_eq!(empty.name, None);
    // An annotation with no argument names nothing.
    let bare = extract_metadata("---@script\n---@exclusive extra words");
    assert_eq!(bare.name, None);
    assert!(bare.exclusive);
}

#[test]
fn sub_script_between_markers() {
    let full = "--# intro\nmessage(\"a\")\n--# outro\nmessage(\"b\")\n--#";
    assert_eq!(get_sub_script(full, "intro"), "\nmessage(\"a\")\n");
    assert_eq!(get_sub_script(full, "outro"), "\nmessage(\"b\")\n");
}

#[test]
fn script_found_in_file_contents() {
    let file = "---@script start\nmessage(\"hello\")\n\n---@script bakery_girl::panic\r\nwait(1)  \r\n";
    assert_eq!(script_from_file_contents(file, "start").as_deref(), Some("---@script start\nmessage(\"hello\")"));
    assert_eq!(script_from_file_contents(file, "bakery_girl::panic").as_deref(), Some("---@script bakery_girl::panic\r\nwait(1)"));
    assert_eq!(script_from_file_contents(file, "missing"), None);
}

#[test]
fn script_source_variants() {
    let file = "---@script a\nx()\n---@script b\ny()\n";
    let named = ScriptSource::File { filepath: "data/s.lua".to_string(), name_in_file: Some("b".to_string()) };
    assert_eq!(named.get_source(file).as_deref(), Some("---@script b\ny()"));
    let whole = ScriptSource::File { filepath: "data/s.lua".to_string(), name_in_file: None };
    assert_eq!(whole.get_source(file).as_deref(), Some(file));
    let text = ScriptSource::String("z()".to_string());
    assert_eq!(text.get_source("ignored").as_deref(), Some("z()"));
    let absent = ScriptSource::File { filepath: "data/s.lua".to_string(), name_in_file: Some("c".to_string()) };
    assert_eq!(absent.get_source(file), None);
}

fn class(source: &str, trigger: ScriptTrigger, start: Option<(&str, i32)>) -> ScriptClass {
    ScriptClass {
        source: source.to_string(),
        trigger,
        start_condition: start.map(|(k, v)| ScriptCondition { story_var: k.to_string(), value: v }),
        abort_condition: None,
        name: None,
    }
}

#[test]
fn scripts_filtered_by_trigger_and_condition() {
    let scripts = vec![
        class("a", ScriptTrigger::Interaction, None),
        class("b", ScriptTrigger::Interaction, Some(("met", 1))),
        class("c", ScriptTrigger::Interaction, Some(("met", 0))),
        class("d", ScriptTrigger::Auto, None),
    ];
    let v = vars(&[("met", 1)]);
    let picked = filter_scripts_by_trigger_and_condition(&scripts, ScriptTrigger::Interaction, &v);
    let sources: Vec<&str> = picked.iter().map(|s| s.source.as_str()).collect();
    assert_eq!(sources, vec!["a", "b"]);
    let none = filter_scripts_by_trigger_and_condition(&scripts, ScriptTrigger::HardCollision, &v);
    assert!(none.is_empty());
}

#[test]
fn script_steps_abort_wait_run() {
    let v = vars(&[("done", 1), ("door", 0)]);
    let abort = Some(ScriptCondition { story_var: "done".to_string(), value: 1 });
    let no_abort = Some(ScriptCondition { story_var: "done".to_string(), value: 2 });
    let waiting = Some(WaitCondition::Time(100));
    assert_eq!(script_step(&abort, &waiting, &v, 50, false), ScriptStep::Abort);
    assert_eq!(script_step(&no_abort, &waiting, &v, 50, false), ScriptStep::Wait);
    assert_eq!(script_step(&no_abort, &waiting, &v, 100, false), ScriptStep::Run);
    assert_eq!(script_step(&None, &Some(WaitCondition::Message), &v, 0, true), ScriptStep::Wait);
    assert_eq!(script_step(&None, &Some(WaitCondition::Message), &v, 0, false), ScriptStep::Run);
    let door = Some(WaitCondition::StoryVar("door".to_string(), 1));
    assert_eq!(script_step(&None, &door, &v, 0, false), ScriptStep::Wait);
    assert_eq!(script_step(&None, &None, &v, 0, false), ScriptStep::Run);
    // An aborting script does not read its wait variable, even an unknown one.
    let unknown = Some(WaitCondition::StoryVar("nowhere".to_string(), 1));
    assert_eq!(script_step(&abort, &unknown, &v, 0, false), ScriptStep::Abort);
}

#[test]
fn wait_conditions_end_when_met() {
    let v = vars(&[("door", 0)]);
    assert!(next_wait_condition(&Some(WaitCondition::Time(10)), 11, false, &v).is_none());
    assert!(matches!(next_wait_condition(&Some(WaitCondition::Time(10)), 9, false, &v), Some(WaitCondition::Time(10))));
    assert!(next_wait_condition(&Some(WaitCondition::Time(10)), 10, false, &v).is_none());
    assert!(next_wait_condition(&Some(WaitCondition::Message), 0, false, &v).is_none());
    assert!(matches!(next_wait_condition(&Some(WaitCondition::Message), 0, true, &v), Some(WaitCondition::Message)));
    assert!(next_wait_condition(&None, 0, true, &v).is_none());
    let door = Some(WaitCondition::StoryVar("door".to_string(), 1));
    assert!(matches!(next_wait_condition(&door, 0, false, &v), Some(WaitCondition::StoryVar(ref k, 1)) if k == "door"));
    let open = vars(&[("door", 1)]);
    assert!(next_wait_condition(&door, 0, false, &open).is_none());
}

#[test]
fn exclusive_scripts_do_not_start_twice() {
    let v = vars(&[("panic", 1)]);
    let meta = extract_metadata("---@script girl\n---@exclusive\n---@start_condition {panic} == 1\n");
    assert!(start_allowed(&meta, &v, &vec![None, Some("other".to_string())]));
    assert!(!start_allowed(&meta, &v, &vec![Some("girl".to_string())]));
    let closed = vars(&[("panic", 0)]);
    assert!(!start_allowed(&meta, &closed, &vec![]));
    let broken = extract_metadata("---@start_condition {nope} == 1\n");
    assert!(!start_allowed(&broken, &v, &vec![]));
    let plain = extract_metadata("body()");
    assert!(start_allowed(&plain, &v, &vec![Some("girl".to_string())]));
}

#[test]
fn script_manager_queues_in_order() {
    let mut m = ScriptManager::new();
    m.queue_script("a()");
    m.queue_script("b()");
    let q = m.take_queue();
    assert_eq!(q, vec!["a()".to_string(), "b()".to_string()]);
    assert!(m.take_queue().is_empty());
    let autos = vec![
        "---@start_condition {x} == 1\nauto()".to_string(),
        "---@script no_condition\nnever()".to_string(),
    ];
    m.queue_auto_scripts(&autos);
    assert_eq!(m.take_queue(), vec![autos[0].clone()]);
}

#[test]
fn script_error_messages() {
    assert_eq!(ScriptError::InvalidStoryVar("x".to_string()).message(), "no story var x");
    assert_eq!(ScriptError::InvalidEntity("bob".to_string()).message(), "no entity bob with necessary components");
    assert_eq!(ScriptError::InvalidMap("town".to_string()).message(), "no map town");
}

#[test]
fn script_cut_needs_a_one_byte_char_before_the_next_marker() {
    assert!(script_cut_check("---@script a\nx\n---@script b\n", "a"));
    assert!(!script_cut_check("---@script a\nxé---@script b\n", "a"));
    assert!(script_cut_check("---@script a\nxé", "a"));
    assert!(script_cut_check("nothing here", "a"));
}

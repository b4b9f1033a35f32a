use maplewood::components::{
    character_playback, dual_state_switch, next_dual_state, parse_direction, DualStateAnimationState, Direction,
    PlaybackAction, PlaybackState, Singing,
};
use maplewood::dev_ui::{split_at_line, ConsoleKey, ConsoleWindow, EntitiesListWindow, InputPanel, StoryVarsWindow};
use maplewood::input::{interaction_offset, movement_direction, respond_to_event, InputEvent};
use maplewood::loader::{character_sprites, entity_placement, external_script_source, ldtk_entity_kind, strip_sprites, LdtkEntityKind};
use maplewood::logger::{from_own_module, LogBook};
use maplewood::math::{PixelUnits, Rect};
use maplewood::nine_slice::nine_slice_rects;
use maplewood::components::ScriptSource;
use maplewood::story::StoryVars;
use maplewood::components::AnimationComp;
use maplewood::text::parse_i32;
use maplewood::ui::{MessageAdvanceCondition, UiData};
use maplewood::script::WaitCondition;

#[test]
fn scrollback_lines_are_joined() {
    let mut s = String::new();
    ConsoleWindow::push_to_scrollback(&mut s, "first");
    assert_eq!(s, "first");
    ConsoleWindow::push_to_scrollback(&mut s, "second");
    assert_eq!(s, "first\nsecond");
}

fn type_text(p: &mut InputPanel, text: &str) {
    p.input_text = text.to_string();
}

#[test]
fn console_history_moves_entered_command_first() {
    let mut w = ConsoleWindow::new();
    assert!(!w.open);
    let p = &mut w.input_panel;
    let mut scrollback = String::new();
    type_text(p, "a()");
    assert_eq!(p.on_key(ConsoleKey::Enter, &None, &mut scrollback), Some("a()".to_string()));
    type_text(p, "b()");
    p.on_key(ConsoleKey::Enter, &None, &mut scrollback);
    type_text(p, "a()");
    p.on_key(ConsoleKey::Enter, &None, &mut scrollback);
    assert_eq!(p.input_history, vec!["a()".to_string(), "b()".to_string()]);
    assert_eq!(p.input_text, "");
    assert_eq!(scrollback, "> a()\n> b()\n> a()");
}

#[test]
fn console_history_scrolling() {
    let mut p = InputPanel::new();
    let mut sb = String::new();
    // Scrolling an empty history does nothing.
    p.on_key(ConsoleKey::Up, &None, &mut sb);
    assert_eq!(p.history_cursor, None);
    p.input_history = vec!["newest".to_string(), "older".to_string()];
    p.on_key(ConsoleKey::Up, &None, &mut sb);
    assert_eq!(p.history_cursor, Some(0));
    p.on_key(ConsoleKey::Up, &None, &mut sb);
    assert_eq!(p.history_cursor, Some(1));
    p.on_key(ConsoleKey::Up, &None, &mut sb);
    assert_eq!(p.history_cursor, Some(1));
    assert_eq!(p.shown_history_text(), Some("older".to_string()));
    p.on_key(ConsoleKey::Down, &None, &mut sb);
    assert_eq!(p.history_cursor, Some(0));
    p.on_key(ConsoleKey::Down, &None, &mut sb);
    assert_eq!(p.history_cursor, None);
    p.on_key(ConsoleKey::Up, &None, &mut sb);
    let shown = p.shown_history_text();
    p.on_key(ConsoleKey::Other, &shown, &mut sb);
    assert_eq!(p.history_cursor, None);
    assert_eq!(p.input_text, "newest");
    assert_eq!(sb, "");
}

#[test]
fn story_vars_window_edits() {
    let mut vars = StoryVars::new();
    vars.insert("met_baker".to_string(), 0);
    let mut w = StoryVarsWindow::new();
    w.filter_string = "baker".to_string();
    assert!(w.shows("met_baker"));
    assert!(!w.shows("coins"));
    w.begin_edit(&"met_baker".to_string(), -3);
    assert_eq!(w.edit_text, "-3");
    w.edit_text = "12".to_string();
    w.save_edit(&mut vars);
    assert_eq!(vars.get("met_baker"), Some(12));
    assert_eq!(w.var_being_edited, None);
    w.begin_edit(&"met_baker".to_string(), 12);
    w.edit_text = "twelve".to_string();
    w.save_edit(&mut vars);
    assert_eq!(vars.get("met_baker"), Some(12));
    w.begin_edit(&"met_baker".to_string(), 12);
    w.cancel_edit();
    assert_eq!(w.edit_text, "");
}

#[test]
fn story_vars_window_lists_filtered_vars_by_name() {
    let mut vars = StoryVars::new();
    vars.insert("met_baker".to_string(), 1);
    vars.insert("coins".to_string(), 30);
    vars.insert("baker_quest".to_string(), 2);
    vars.insert("Zed_baker".to_string(), 5);
    let mut w = StoryVarsWindow::new();
    w.filter_string = "baker".to_string();
    let listed = w.visible_vars(&vars);
    assert_eq!(
        listed,
        vec![("Zed_baker".to_string(), 5), ("baker_quest".to_string(), 2), ("met_baker".to_string(), 1)]
    );
    w.filter_string = String::new();
    assert_eq!(w.visible_vars(&vars).len(), 4);
    assert_eq!(w.visible_vars(&vars)[1], ("baker_quest".to_string(), 2));
}

#[test]
fn entity_list_filter() {
    let mut w = EntitiesListWindow::new();
    w.filter_string = "girl".to_string();
    assert!(w.shows(&Some("bakery_girl".to_string()), "{\"idx\":1}"));
    assert!(!w.shows(&None, "{\"idx\":1}"));
    w.filter_string = "idx".to_string();
    assert!(w.shows(&None, "{\"idx\":1}"));
}

#[test]
fn script_view_splits_around_line() {
    let (before, line, after) = split_at_line("a\nb\nc", 2);
    assert_eq!((before.as_str(), line.as_str(), after.as_str()), ("a\n", "b\n", "c"));
    let (b1, l1, a1) = split_at_line("a\nb", 5);
    assert_eq!((b1.as_str(), l1.as_str(), a1.as_str()), ("a\nb", "", ""));
    let (b2, l2, a2) = split_at_line("x\n", 1);
    assert_eq!((b2.as_str(), l2.as_str(), a2.as_str()), ("", "x\n", ""));
}

#[test]
fn input_events() {
    let r = respond_to_event(InputEvent::Confirm, true, false);
    assert!(r.close_message && !r.interact);
    let r = respond_to_event(InputEvent::Confirm, false, false);
    assert!(!r.close_message && r.interact);
    let r = respond_to_event(InputEvent::Confirm, false, true);
    assert!(!r.close_message && !r.interact);
    assert!(respond_to_event(InputEvent::Quit, true, true).quit);
    assert!(respond_to_event(InputEvent::ToggleDevUi, false, false).toggle_dev_ui);
    assert_eq!(respond_to_event(InputEvent::Other, false, false).interact, false);
}

#[test]
fn movement_and_interaction_offsets() {
    assert_eq!(movement_direction(true, false, false, true, false, false), (1, -1));
    assert_eq!(movement_direction(true, true, true, true, false, false), (0, 0));
    assert_eq!(movement_direction(true, false, false, false, true, false), (0, 0));
    assert_eq!(movement_direction(false, true, false, false, false, true), (0, 0));
    assert_eq!(interaction_offset(Direction::Left), (-1, 0));
    assert_eq!(interaction_offset(Direction::Down), (0, 1));
}

#[test]
fn nine_slice_parts() {
    let tex: Rect<u32, PixelUnits> = Rect::new(10, 20, 12, 12);
    let screen: Rect<u32, PixelUnits> = Rect::new(100, 50, 60, 40);
    let parts = nine_slice_rects(tex, screen, 4, 2);
    assert_eq!(parts.len(), 9);
    let t: Vec<(u32, u32, u32, u32)> = parts.iter().map(|p| (p.0.x, p.0.y, p.0.width, p.0.height)).collect();
    let s: Vec<(u32, u32, u32, u32)> = parts.iter().map(|p| (p.1.x, p.1.y, p.1.width, p.1.height)).collect();
    assert_eq!(t[0], (10, 20, 4, 4));
    assert_eq!(t[1], (14, 20, 4, 4));
    assert_eq!(t[4], (14, 24, 4, 4));
    assert_eq!(t[8], (18, 28, 4, 4));
    assert_eq!(s[0], (100, 50, 8, 8));
    assert_eq!(s[1], (108, 50, 44, 8));
    assert_eq!(s[2], (152, 50, 8, 8));
    assert_eq!(s[4], (108, 58, 44, 24));
    assert_eq!(s[8], (152, 82, 8, 8));
    // The screen parts cover the screen rectangle row by row.
    for row in 0..3 {
        assert_eq!(s[row * 3].0, 100);
        assert_eq!(s[row * 3].0 + s[row * 3].2, s[row * 3 + 1].0);
        assert_eq!(s[row * 3 + 2].0 + s[row * 3 + 2].2, 160);
    }
}

#[test]
fn log_book_keeps_once_logs_once() {
    let mut b = LogBook::new();
    assert!(b.record("ERROR", "bad", true));
    assert!(!b.record("ERROR", "bad", true));
    assert!(b.record("ERROR", "bad", false));
    assert!(b.record("INFO", "ok", false));
    assert_eq!(b.history, vec!["[ERROR] bad".to_string(), "[ERROR] bad".to_string(), "[INFO] ok".to_string()]);
    assert!(from_own_module(Some("maplewood::script")));
    assert!(!from_own_module(Some("wgpu_core")));
    assert!(from_own_module(None));
}

#[test]
fn loader_decisions() {
    assert_eq!(ldtk_entity_kind("simple_script"), Some(LdtkEntityKind::SimpleScript));
    assert_eq!(ldtk_entity_kind("character"), Some(LdtkEntityKind::Character));
    assert_eq!(ldtk_entity_kind("tree"), None);
    match external_script_source("town::baker") {
        Some(ScriptSource::File { filepath, name_in_file }) => {
            assert_eq!(filepath, "data/town.lua");
            assert_eq!(name_in_file.as_deref(), Some("baker"));
        },
        _ => panic!("expected a file source"),
    }
    assert!(external_script_source("no_separator").is_none());
    let sheet = "girl.png".to_string();
    let frames = strip_sprites(&sheet, &vec![0, 2], 24, 30);
    assert_eq!((frames[1].rect.x, frames[1].rect.y, frames[1].rect.width, frames[1].rect.height), (48, 0, 24, 30));
    assert_eq!((frames[1].anchor.x, frames[1].anchor.y), (12, 15));
    let walk = character_sprites(&sheet, &vec![(6, 2), (1, 0)]);
    assert_eq!((walk[0].rect.x, walk[0].rect.y, walk[0].rect.width, walk[0].rect.height), (96, 64, 16, 32));
    assert_eq!((walk[1].anchor.x, walk[1].anchor.y), (8, 29));
    let world = "overworld".to_string();
    let level = "house".to_string();
    assert_eq!(entity_placement(true, &world, &level, 160, 32, &vec![8, 16]), ("overworld".to_string(), 168, 48));
    assert_eq!(entity_placement(false, &world, &level, 160, 32, &vec![8, 16]), ("house".to_string(), 8, 16));
}

#[test]
fn animation_state_machines() {
    assert_eq!(next_dual_state(DualStateAnimationState::FirstToSecond, PlaybackState::Stopped), (DualStateAnimationState::Second, true));
    assert_eq!(next_dual_state(DualStateAnimationState::FirstToSecond, PlaybackState::Playing), (DualStateAnimationState::FirstToSecond, false));
    assert_eq!(next_dual_state(DualStateAnimationState::Second, PlaybackState::Stopped), (DualStateAnimationState::Second, false));
    assert_eq!(dual_state_switch(1), Some(DualStateAnimationState::SecondToFirst));
    assert_eq!(dual_state_switch(2), Some(DualStateAnimationState::FirstToSecond));
    assert_eq!(dual_state_switch(3), None);
    assert_eq!(character_playback(true, PlaybackState::Stopped), PlaybackAction::StartLooping);
    assert_eq!(character_playback(false, PlaybackState::Playing), PlaybackAction::Stop);
    assert_eq!(parse_direction("left"), Some(Direction::Left));
    assert_eq!(parse_direction("north"), None);
    assert_eq!(Direction::default(), Direction::Down);
    let mut s = Singing { words: vec![] };
    s.sing_word("la".to_string(), 3);
    assert_eq!(s.words, vec![("la".to_string(), 3)]);
    s.clear();
    assert!(s.words.is_empty());
}

#[test]
fn message_windows() {
    let mut ui = UiData::new();
    let w = ui.show_message("hello".to_string(), MessageAdvanceCondition::Time(500));
    assert!(matches!(w, WaitCondition::Message));
    ui.advance_timed_message(400);
    assert!(ui.message_window.is_some());
    ui.advance_timed_message(501);
    assert!(ui.message_window.is_none());
    ui.show_message("press".to_string(), MessageAdvanceCondition::Input);
    ui.advance_timed_message(10_000);
    assert_eq!(ui.message_window.as_ref().map(|m| m.message.as_str()), Some("press"));
}

#[test]
fn parse_i32_reads_as_std_does() {
    assert_eq!(parse_i32("42"), Some(42));
    assert_eq!(parse_i32("-7"), Some(-7));
    assert_eq!(parse_i32("+5"), Some(5));
    assert_eq!(parse_i32("007"), Some(7));
    assert_eq!(parse_i32("2147483647"), Some(i32::MAX));
    assert_eq!(parse_i32("-2147483648"), Some(i32::MIN));
    assert_eq!(parse_i32("2147483648"), None);
    assert_eq!(parse_i32("-2147483649"), None);
    assert_eq!(parse_i32("99999999999999999999"), None);
    for text in ["", "-", "+", " 1", "1 ", "1_0", "12a", "--1", "+-1", "٣", "-0", "0"] {
        assert_eq!(parse_i32(text), text.parse::<i32>().ok(), "{text:?}");
    }
}

#[test]
fn unchanged_edit_keeps_value() {
    for value in [0, 7, -3, 100, i32::MAX, i32::MIN] {
        let mut vars = StoryVars::new();
        vars.insert("coins".to_string(), value);
        let mut w = StoryVarsWindow::new();
        w.begin_edit(&"coins".to_string(), value);
        w.save_edit(&mut vars);
        assert_eq!(vars.get("coins"), Some(value));
    }
}

#[test]
fn windows_opened_for_new_entities_only() {
    use_entities_without_window();
}

fn use_entities_without_window() {
    let mut ecs = maplewood::ecs::Ecs::new();
    let a = ecs.add_entity();
    let b = ecs.add_entity();
    let c = ecs.add_entity();
    ecs.remove_entity(c);
    let fresh = maplewood::dev_ui::entities_without_window(&ecs, &vec![a]);
    assert_eq!(fresh.len(), 1);
    assert!(fresh[0].same(b));
    assert!(maplewood::dev_ui::entities_without_window(&ecs, &vec![a, b]).is_empty());
    assert_eq!(maplewood::dev_ui::entities_without_window(&ecs, &vec![]).len(), 2);
}

#[test]
fn animation_playback_controls() {
    use_animation_playback();
}

fn use_animation_playback() {
    let mut a = AnimationComp::new();
    assert_eq!(a.state, PlaybackState::Stopped);
    a.forced = true;
    a.start(true);
    assert_eq!((a.state, a.repeat, a.forced), (PlaybackState::Playing, true, true));
    a.pause();
    assert_eq!((a.state, a.repeat), (PlaybackState::Paused, true));
    a.resume();
    assert_eq!(a.state, PlaybackState::Playing);
    a.stop();
    assert_eq!((a.state, a.forced), (PlaybackState::Stopped, false));
}

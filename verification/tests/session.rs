use gal_runtime::bindings::{Action, ActionLine, FrontendType, Level, Record, Switch};
use gal_runtime::integer::Integer;
use gal_runtime::native::{open_game_status, OpenGameStatus};
use gal_runtime::registry::LoadStatus;
use gal_runtime::settings::{is_record_file, record_file_name, RawContext, Settings};
use gal_runtime::value::RawValue;

#[test]
fn a_piece_of_a_line_gives_its_characters() {
    let chars = ActionLine::Chars("abc".to_string());
    let block = ActionLine::Block("def".to_string());
    assert_eq!(chars.as_str(), "abc");
    assert_eq!(block.as_str(), "def");
    assert_eq!(chars.into_string(), "abc");
    assert_eq!(block.into_string(), "def");
}

#[test]
fn defaults_are_empty() {
    let action = Action::default();
    assert!(action.line.is_empty());
    assert!(action.character.is_none());
    assert!(action.para_title.is_none());
    assert!(action.switches.is_empty());
    assert!(action.bg.is_none());
    assert!(action.bgm.is_none());
    assert!(action.video.is_none());
    assert!(action.switch_actions.is_empty());
    let switch = Switch::default();
    assert_eq!(switch.text, "");
    assert!(!switch.enabled);
    assert_eq!(Settings::default().lang, "");
}

#[test]
fn a_record_of_the_log_holds_its_fields() {
    let record = Record {
        level: Level::Warn,
        target: "plugin".to_string(),
        msg: "careful".to_string(),
        module: None,
        file: Some("lib.rs".to_string()),
        line: Some(7),
    };
    assert_eq!(record.level, Level::Warn);
    assert_ne!(record.level, Level::Error);
    assert_eq!(record.line, Some(7));
    assert_ne!(FrontendType::Text, FrontendType::Html);
}

#[test]
fn the_history_keeps_a_snapshot() {
    let mut context = RawContext::default();
    context.cur_para = "intro".to_string();
    context.cur_act = 3;
    context.locals.insert("n".to_string(), RawValue::Num(Integer::from_i64(1)));
    let mut action = Action::default();
    action.character = Some("Alice".to_string());
    context.push_history(action);
    context.cur_act = 4;
    context.locals.insert("n".to_string(), RawValue::Num(Integer::from_i64(2)));
    context.push_history(Action::default());
    assert_eq!(context.history.len(), 2);
    assert_eq!(context.history[0].cur_para, "intro");
    assert_eq!(context.history[0].cur_act, 3);
    assert_eq!(
        context.history[0].locals.get("n"),
        Some(&RawValue::Num(Integer::from_i64(1)))
    );
    assert_eq!(context.history[0].action.character, Some("Alice".to_string()));
    assert_eq!(context.history[1].cur_act, 4);
    assert_eq!(
        context.history[1].locals.get("n"),
        Some(&RawValue::Num(Integer::from_i64(2)))
    );
    assert_eq!(context.history[1].action.character, None);
    assert_eq!(context.cur_para, "intro");
    assert_eq!(context.cur_act, 4);
}

#[test]
fn records_are_numbered_files() {
    assert_eq!(record_file_name(0), "0.json");
    assert_eq!(record_file_name(12), "12.json");
    assert_eq!(record_file_name(1234567), "1234567.json");
    assert!(is_record_file("0.json"));
    assert!(is_record_file("save.json"));
    assert!(!is_record_file(".json"));
    assert!(!is_record_file("0.json.bak"));
    assert!(!is_record_file("json"));
    assert!(!is_record_file(""));
}

#[test]
fn the_front_end_is_told_each_step_of_the_load() {
    let (status, plugin) = open_game_status(&LoadStatus::CreateEngine);
    assert_eq!(status, OpenGameStatus::CreateRuntime);
    assert!(plugin.is_none());
    let (status, plugin) = open_game_status(&LoadStatus::LoadPlugin("format".to_string(), 2, 5));
    assert_eq!(status, OpenGameStatus::LoadPlugin);
    let plugin = plugin.unwrap();
    assert_eq!(plugin.name, "format");
    assert_eq!(plugin.index, 2);
    assert_eq!(plugin.len, 5);
}

use maars::config::{Database, Resource};
use maars::text::{bytes_equal, contains_nul, str_equal};
use maars::types::task::{
    default_true, max_amount, ClientType, Direction, ExitMode, Facility, IntegratedStrategiesTheme,
    ItemId, ReclamationAlgorithmMode, ReclamationAlgorithmTheme, ShiftMode, StatsServer, StepType,
    Subtask, TagsMode, TaskId,
};
use maars::types::{InstanceOption, StaticOption, TouchMode};

#[test]
fn touch_modes_have_their_names() {
    assert_eq!(TouchMode::ADB.name(), "adb");
    assert_eq!(TouchMode::Minitouch.name(), "minitouch");
    assert_eq!(TouchMode::MaaTouch.name(), "MAATouch");
    assert_eq!(TouchMode::MacPlayTools.name(), "MacPlayTools");
}

#[test]
fn touch_modes_are_found_by_name() {
    assert_eq!(TouchMode::from_name("adb"), Some(TouchMode::ADB));
    assert_eq!(TouchMode::from_name("minitouch"), Some(TouchMode::Minitouch));
    assert_eq!(TouchMode::from_name("maatouch"), Some(TouchMode::MaaTouch));
    assert_eq!(TouchMode::from_name("MAATouch"), Some(TouchMode::MaaTouch));
    assert_eq!(TouchMode::from_name("MacPlayTools"), Some(TouchMode::MacPlayTools));
    assert_eq!(TouchMode::from_name("ADB"), None);
    assert_eq!(TouchMode::from_name(""), None);
    assert_eq!(TouchMode::from_name("adb "), None);
    for mode in [TouchMode::ADB, TouchMode::Minitouch, TouchMode::MaaTouch, TouchMode::MacPlayTools] {
        assert_eq!(TouchMode::from_name(mode.name()), Some(mode));
    }
}

#[test]
fn defaults_are_the_first_choices() {
    assert_eq!(TouchMode::default(), TouchMode::ADB);
    assert_eq!(StatsServer::default(), StatsServer::CN);
    assert_eq!(TagsMode::default(), TagsMode::Default);
    assert_eq!(ShiftMode::default(), ShiftMode::Default);
    assert_eq!(IntegratedStrategiesTheme::default(), IntegratedStrategiesTheme::Phantom);
    assert_eq!(ExitMode::default(), ExitMode::Candle);
    assert_eq!(ReclamationAlgorithmTheme::default(), ReclamationAlgorithmTheme::FireWithinSand);
    assert_eq!(ReclamationAlgorithmMode::default(), ReclamationAlgorithmMode::FarmBadges);
    assert!(default_true());
    assert_eq!(max_amount(), i32::MAX);
}

#[test]
fn clients_and_facilities_have_their_names() {
    assert_eq!(ClientType::Official.name(), "Official");
    assert_eq!(ClientType::Bilibili.name(), "Bilibili");
    assert_eq!(ClientType::Txwy.name(), "txwy");
    assert_eq!(ClientType::EN.name(), "YostarEN");
    assert_eq!(ClientType::JP.name(), "YostarJP");
    assert_eq!(ClientType::KR.name(), "YostarKR");
    assert_eq!(Facility::Factory.name(), "Mfg");
    assert_eq!(Facility::TradingPost.name(), "Trade");
    assert_eq!(Facility::PowerPlant.name(), "Power");
    assert_eq!(Facility::ControlCenter.name(), "Control");
    assert_eq!(Facility::Reception.name(), "Reception");
    assert_eq!(Facility::Office.name(), "Office");
    assert_eq!(Facility::Dorm.name(), "Dorm");
    assert_eq!(ReclamationAlgorithmTheme::FireWithinSand.name(), "Fire Within the Sand");
    assert_eq!(ReclamationAlgorithmTheme::TalesWithinSand.name(), "Tales Within the Sand");
}

#[test]
fn identifiers_wrap_their_numbers() {
    assert_eq!(TaskId::new(-4).0, -4);
    assert_eq!(TaskId::new(4), TaskId(4));
    assert_eq!(ItemId::new(30012).0, 30012);
    assert_ne!(ItemId::new(1), ItemId::new(2));
}

#[test]
fn options_and_choices_compare_by_value() {
    assert_eq!(StaticOption::GpuOCR { gpu_id: 1 }, StaticOption::GpuOCR { gpu_id: 1 });
    assert_ne!(StaticOption::GpuOCR { gpu_id: 1 }, StaticOption::CpuOCR);
    assert_eq!(InstanceOption::TouchMode(TouchMode::MaaTouch), InstanceOption::TouchMode(TouchMode::MaaTouch));
    assert_ne!(InstanceOption::AdbLiteEnabled(true), InstanceOption::KillAdbOnExit(true));
    assert_ne!(InstanceOption::MinitouchEnabled(true), InstanceOption::DeploymentWithPause(true));
    let custom = ShiftMode::Custom { filename: "plan.json".to_string(), index: 2 };
    assert_eq!(custom.clone(), custom);
    assert_eq!(StepType::Copilot, StepType::Copilot);
}

#[test]
fn subtask_clones_are_equal() {
    let action = Subtask::Action { name: "Deploy".to_string(), location: (3, -4), direction: Direction::Left };
    assert_eq!(action.clone(), action);
    let stage = Subtask::Stage { stage: "1-7".to_string() };
    assert_eq!(stage.clone(), stage);
    assert_eq!(Subtask::Start.clone(), Subtask::Start);
    assert_ne!(action, stage);
}

#[test]
fn settings_are_plain_values() {
    let database = Database { path: "./db.sqlite".to_string(), drop_on_start_up: true };
    assert_eq!(database.path, "./db.sqlite");
    assert!(database.drop_on_start_up);
    let resource = Resource { path: "./".to_string() };
    assert_eq!(resource.path, "./");
}

#[test]
fn texts_and_bytes_compare() {
    assert!(str_equal("abc", "abc"));
    assert!(!str_equal("abc", "abd"));
    assert!(!str_equal("abc", "ab"));
    assert!(str_equal("", ""));
    assert!(bytes_equal(&[1, 2], &[1, 2]));
    assert!(!bytes_equal(&[1, 2], &[2, 1]));
    assert!(!bytes_equal(&[], &[0]));
    assert!(contains_nul("a\0"));
    assert!(!contains_nul("a0"));
}

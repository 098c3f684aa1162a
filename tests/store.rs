use omnibot::dice::{is_rollable, roll, RollError};
use omnibot::store::{
    latest_pin, plan_bootstrap, plan_pointer_advance, read_plan, BootstrapPlan, CategoryStep, ChannelInfo, PinAction,
    ReadPlan,
};

fn channel(id: u64, name: &str) -> ChannelInfo {
    ChannelInfo { id, name: String::from(name) }
}

#[test]
fn no_pins_read_fresh() {
    assert_eq!(read_plan(&vec![]), ReadPlan::Fresh);
    assert_eq!(latest_pin(&vec![]), None);
}

#[test]
fn one_pin_is_fetched() {
    assert_eq!(read_plan(&vec![11]), ReadPlan::Fetch(11));
}

#[test]
fn many_pins_take_the_latest() {
    assert_eq!(read_plan(&vec![5, 9, 7]), ReadPlan::Fetch(9));
    assert_eq!(latest_pin(&vec![5, 9, 7, 9]), Some(1));
}

#[test]
fn pointer_advance_pins_first() {
    assert_eq!(
        plan_pointer_advance(&vec![3, 4], 10),
        vec![PinAction::Pin(10), PinAction::Unpin(3), PinAction::Unpin(4)]
    );
    assert_eq!(plan_pointer_advance(&vec![], 10), vec![PinAction::Pin(10)]);
}

#[test]
fn bootstrap_plans() {
    assert_eq!(plan_bootstrap(&vec![]), BootstrapPlan::Create(CategoryStep::Create));
    let chs = vec![channel(1, "general"), channel(2, "rust-monster-bot-data")];
    assert_eq!(plan_bootstrap(&chs), BootstrapPlan::Create(CategoryStep::Existing(2)));
    let chs = vec![channel(2, "rust-monster-bot-data"), channel(3, "omni-bot-data"), channel(4, "omni-bot-data")];
    assert_eq!(plan_bootstrap(&chs), BootstrapPlan::Existing(3));
}

#[test]
fn dice_string() {
    let roll = roll("1d4").ok().unwrap();
    assert!(roll.text.contains("="));
}

#[test]
fn modifiers_and_percent_roll() {
    let r = roll("4d6kh3").ok().unwrap();
    let n: i64 = r.total.parse().unwrap();
    assert!(n >= 3 && n <= 18);
    let r = roll("1d%").ok().unwrap();
    let n: i64 = r.total.parse().unwrap();
    assert!(n >= 1 && n <= 100);
}

#[test]
fn plain_notation() {
    assert!(is_rollable("3d6+5"));
    assert!(is_rollable("1d20 + 16 - 2"));
    assert!(is_rollable("2d6*2/3"));
    assert!(!is_rollable("1d0"));
    assert!(!is_rollable("1000d6"));
    assert!(!is_rollable("2**3"));
    assert!(!is_rollable("1//0+1"));
    assert!(!is_rollable("1*2*3*4"));
    assert!(is_rollable("d"));
    assert!(is_rollable("1d%"));
    assert!(is_rollable("4d6kh3 + 2d20dl1"));
    assert!(!is_rollable("1d 0"));
    assert!(!is_rollable("1d6 mod 2"));
    assert!(matches!(roll("1d0"), Err(RollError::Unsupported)));
    assert!(matches!(roll("1d6+"), Err(RollError::Evaluator(_))));
}

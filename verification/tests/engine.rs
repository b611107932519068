use dcron::engine::{InvalidSchedule, TriggerEngine, FIRE_BATCH_LIMIT};
use std::time::{Duration, Instant};

fn engine_wait(millis: u64) {
    let start = Instant::now();
    while start.elapsed() < Duration::from_millis(millis) {
        std::hint::spin_loop();
    }
}

#[test]
fn add_accepts_six_fields() {
    let mut engine = TriggerEngine::new();
    assert!(engine.add("0 0 0 * * *", "midnight").is_ok());
    assert!(engine.add("0 15 6,8,10 * Mar,Jun Fri", "complex").is_ok());
    assert!(engine.add("1/10 * * * * *", "periodic").is_ok());
    assert!(engine.add("0 0 0 1-5 Jan-Mar Mon-Fri", "ranges").is_ok());
}

#[test]
fn add_refuses_a_field_for_years() {
    let mut engine = TriggerEngine::new();
    assert_eq!(
        engine.add("0 15 6,8,10 * Mar,Jun Fri 2017", "dated"),
        Err(InvalidSchedule { expression: "0 15 6,8,10 * Mar,Jun Fri 2017".to_string() })
    );
    assert!(engine.add("0 0 0 * * * 2029", "leapless").is_err());
    assert!(engine.add("0 0 0 * * *2029", "glued year").is_err());
    assert!(engine.add("0 0 * * * 2029", "year as weekday").is_err());
    assert_eq!(engine.tick(), Vec::<String>::new());
}

#[test]
fn add_refuses_a_step_of_zero() {
    let mut engine = TriggerEngine::new();
    assert_eq!(
        engine.add("0/0 * * * * *", "stuck"),
        Err(InvalidSchedule { expression: "0/0 * * * * *".to_string() })
    );
    assert!(engine.add("0/0 * * * *", "stuck too").is_err());
    assert!(engine.add("0 0/00 * * * *", "double zero").is_err());
    assert!(engine.add("0 0/ 0 * * * *", "spaced zero").is_err());
    assert!(engine.add("0 0/10 * * * *", "tenth").is_ok());
    assert!(engine.add("0 0/05 * * * *", "leading zero").is_ok());
}

#[test]
fn add_refuses_glued_fields() {
    let mut engine = TriggerEngine::new();
    assert!(engine.add("0 0 0 * * **", "stars").is_err());
    assert!(engine.add("0 0 0 * *Mon *", "star name").is_err());
    assert!(engine.add("0 0 0 1Jan * *", "number name").is_err());
}

#[test]
fn add_accepts_five_fields() {
    let mut engine = TriggerEngine::new();
    assert!(engine.add("0 0 * * *", "daily").is_ok());
    assert!(engine.add("*/5 * * * *", "often").is_err());
    assert!(engine.add("0/5 * * * *", "often").is_ok());
}

#[test]
fn add_accepts_shorthands() {
    let mut engine = TriggerEngine::new();
    assert!(engine.add("@daily", "daily").is_ok());
    assert!(engine.add("@hourly", "hourly").is_ok());
}

#[test]
fn add_refuses_what_is_no_cron_expression() {
    let mut engine = TriggerEngine::new();
    assert_eq!(
        engine.add("every day", "bad"),
        Err(InvalidSchedule { expression: "every day".to_string() })
    );
    assert_eq!(engine.add("", "empty"), Err(InvalidSchedule { expression: "".to_string() }));
    assert!(engine.add("0 0 0 * *  * * *", "eight").is_err());
    assert!(engine.add("61 * * * * *", "range").is_err());
    assert!(engine.add("1 2 3 4", "four").is_err());
}

#[test]
fn a_refused_expression_is_reported_as_given() {
    let mut engine = TriggerEngine::new();
    let refused = engine.add("a b c d e", "five words");
    assert_eq!(refused, Err(InvalidSchedule { expression: "a b c d e".to_string() }));
}

#[test]
fn remove_finds_a_handle_once() {
    let mut engine = TriggerEngine::new();
    let handle = engine.add("0 0 0 * * *", "midnight").unwrap();
    assert!(engine.remove(handle));
    assert!(!engine.remove(handle));
}

#[test]
fn remove_of_an_unknown_handle_changes_nothing() {
    let mut engine = TriggerEngine::new();
    assert!(!engine.remove(42));
    let first = engine.add("0 0 0 * * *", "one").unwrap();
    let second = engine.add("0 0 0 * * *", "two").unwrap();
    assert_ne!(first, second);
    assert!(!engine.remove(first ^ second ^ 1 | 1 << 127 ^ first));
    assert!(engine.remove(second));
    assert!(engine.remove(first));
}

#[test]
fn tick_keeps_the_triggers() {
    let mut engine = TriggerEngine::new();
    let handle = engine.add("0 0 0 * * *", "midnight").unwrap();
    let fired = engine.tick();
    assert!(fired.len() <= FIRE_BATCH_LIMIT);
    assert!(engine.remove(handle));
}

#[test]
fn tick_of_an_empty_engine_reports_nothing() {
    let mut engine = TriggerEngine::new();
    assert_eq!(engine.tick(), Vec::<String>::new());
}

#[test]
fn tick_reports_the_name_of_a_due_trigger() {
    let mut engine = TriggerEngine::new();
    engine.add("* * * * * *", "every second").unwrap();
    engine.add("0 0 0 29 2 *", "far away").unwrap();
    assert_eq!(engine.tick(), Vec::<String>::new());
    engine_wait(1200);
    assert_eq!(engine.tick(), vec!["every second".to_string()]);
}

#[test]
fn a_removed_trigger_no_longer_fires() {
    let mut engine = TriggerEngine::new();
    let gone = engine.add("* * * * * *", "gone").unwrap();
    engine.add("* * * * * *", "kept").unwrap();
    assert_eq!(engine.tick(), Vec::<String>::new());
    assert!(engine.remove(gone));
    engine_wait(1200);
    assert_eq!(engine.tick(), vec!["kept".to_string()]);
}

use pintui::icons::{
    ADD, ARROW, CHANGE, DIAMOND_EMPTY, DIAMOND_FILLED, FAIL, INFO, OK, PENDING, PLAY, REFRESH,
    REMOVE, SKIP, STAR, WARN,
};
use pintui::progress::StageProgress;
use pintui::term::{DEFAULT_HEIGHT, DEFAULT_WIDTH};

#[test]
fn test_constants_are_non_empty() {
    let constants: &[&str] = &[
        OK, FAIL, WARN, INFO, ARROW, SKIP, PENDING, STAR, DIAMOND_FILLED, DIAMOND_EMPTY, PLAY,
        REFRESH, ADD, REMOVE, CHANGE,
    ];
    for c in constants {
        assert!(!c.is_empty(), "icon constant must not be empty");
    }
}

#[test]
fn test_stage_progress() {
    let mut stages = StageProgress::new(3);

    assert_eq!(stages.current(), 0);
    assert_eq!(stages.total(), 3);
    assert!(!stages.is_complete());

    stages.advance();
    assert_eq!(stages.current(), 1);
    assert_eq!(stages.counter(), "[1/3]");

    stages.advance();
    assert_eq!(stages.current(), 2);

    stages.advance();
    assert_eq!(stages.current(), 3);
    assert!(stages.is_complete());
}

#[test]
fn test_empty_stage_progress() {
    let stages = StageProgress::new(0);
    assert!(stages.is_complete());
}

#[test]
fn default_width_is_80() {
    assert_eq!(DEFAULT_WIDTH, 80);
}

#[test]
fn default_height_is_24() {
    assert_eq!(DEFAULT_HEIGHT, 24);
}

use testcard::patterns::{GradMode, PatternKind};
use testcard::sequencer::AppState;

#[test]
fn script_has_the_fixed_order() {
    let script = AppState::create_script();
    assert_eq!(script.len(), 20);
    for i in 0..6 {
        assert_eq!(script[i].pat, PatternKind::Solid);
        assert_eq!(script[i].solid_idx, i);
    }
    assert_eq!(script[6].pat, PatternKind::Gradient);
    assert!(!script[6].grad_vertical);
    assert_eq!(script[7].pat, PatternKind::Gradient);
    assert!(script[7].grad_vertical);
    assert_eq!(script[8].grad_mode, GradMode::Red);
    assert_eq!(script[9].grad_mode, GradMode::Green);
    assert_eq!(script[10].grad_mode, GradMode::Blue);
    let cells: Vec<usize> = (11..15).map(|i| script[i].checker_cell).collect();
    assert_eq!(cells, vec![16, 8, 4, 2]);
    for i in 11..15 {
        assert_eq!(script[i].pat, PatternKind::Checker);
    }
    let speeds: Vec<usize> = (15..18).map(|i| script[i].motion_speed).collect();
    assert_eq!(speeds, vec![4, 8, 16]);
    for i in 15..18 {
        assert_eq!(script[i].pat, PatternKind::Motion);
    }
    assert_eq!(script[18].pat, PatternKind::Patches);
    assert_eq!(script[19].pat, PatternKind::Viewing);
}

#[test]
fn new_starts_on_the_first_solid() {
    let s = AppState::new();
    assert_eq!(s.script_idx, 0);
    assert_eq!(s.pattern, PatternKind::Solid);
    assert_eq!(s.solid_idx, 0);
    assert_eq!(s.motion_x, 0);
    assert_eq!(s.motion_dir, 1);
    assert_eq!(s.motion_speed, 0);
}

#[test]
fn three_advances_and_a_retreat_equal_two_advances() {
    let mut a = AppState::new();
    assert!(!a.next_step());
    assert!(!a.next_step());
    assert!(!a.next_step());
    a.previous_step();

    let mut b = AppState::new();
    assert!(!b.next_step());
    assert!(!b.next_step());

    assert_eq!(a.script_idx, b.script_idx);
    assert_eq!(a.pattern, b.pattern);
    assert_eq!(a.solid_idx, b.solid_idx);
    assert_eq!(a.grad_mode, b.grad_mode);
    assert_eq!(a.grad_vertical, b.grad_vertical);
    assert_eq!(a.checker_cell, b.checker_cell);
    assert_eq!(a.motion_x, b.motion_x);
    assert_eq!(a.motion_speed, b.motion_speed);
    assert_eq!(a.motion_dir, b.motion_dir);
}

#[test]
fn retreat_from_first_step_wraps_to_last() {
    let mut s = AppState::new();
    s.previous_step();
    assert_eq!(s.script_idx, 19);
    assert_eq!(s.pattern, PatternKind::Viewing);
}

#[test]
fn advance_past_last_step_signals_end() {
    let mut s = AppState::new();
    for _ in 0..19 {
        assert!(!s.next_step());
    }
    assert_eq!(s.script_idx, 19);
    assert!(s.next_step());
    // the failed advance leaves the cursor where it was
    assert_eq!(s.script_idx, 19);
    assert_eq!(s.pattern, PatternKind::Viewing);
}

#[test]
fn cursor_moves_rederive_parameters() {
    let mut s = AppState::new();
    // walk to the first checker step and toggle its parameters
    for _ in 0..11 {
        s.next_step();
    }
    assert_eq!(s.pattern, PatternKind::Checker);
    assert_eq!(s.checker_cell, 16);
    s.cycle_cell();
    assert_eq!(s.checker_cell, 8);
    // the next advance derives the scripted value again
    s.next_step();
    assert_eq!(s.checker_cell, 8);
    s.previous_step();
    assert_eq!(s.checker_cell, 16);
}

#[test]
fn toggles_only_touch_their_parameter() {
    let mut s = AppState::new();
    s.toggle_axis();
    assert!(s.grad_vertical);
    s.toggle_axis();
    assert!(!s.grad_vertical);

    assert_eq!(s.grad_mode, GradMode::Luma);
    s.cycle_channel();
    assert_eq!(s.grad_mode, GradMode::Red);
    s.cycle_channel();
    s.cycle_channel();
    s.cycle_channel();
    assert_eq!(s.grad_mode, GradMode::Luma);

    s.motion_speed = 8;
    s.cycle_speed();
    assert_eq!(s.motion_speed, 16);
    s.cycle_speed();
    assert_eq!(s.motion_speed, 32);
    s.cycle_speed();
    assert_eq!(s.motion_speed, 1);

    assert_eq!(s.script_idx, 0);
    assert_eq!(s.pattern, PatternKind::Solid);
}

#[test]
fn motion_position_wraps_to_zero_after_forty_ticks() {
    let mut s = AppState::new();
    // walk to the motion step with speed 8
    for _ in 0..16 {
        s.next_step();
    }
    assert_eq!(s.pattern, PatternKind::Motion);
    assert_eq!(s.motion_speed, 8);
    assert_eq!(s.motion_x, 0);
    assert_eq!(s.motion_dir, 1);
    for _ in 0..40 {
        s.tick_motion(320);
    }
    assert_eq!(s.motion_x, 0);
}

#[test]
fn motion_position_wraps_to_far_edge_going_left() {
    let mut s = AppState::new();
    for _ in 0..16 {
        s.next_step();
    }
    s.motion_dir = -1;
    assert_eq!(s.motion_x, 0);
    s.tick_motion(320);
    assert_eq!(s.motion_x, 319);
}

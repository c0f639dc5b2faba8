use testcard::controller::{render, run_iteration, Command, Controller};
use testcard::patterns::PatternKind;
use testcard::surface::{DisplayEvent, Surface};

const W: usize = 200;
const H: usize = 200;
const STRIDE: usize = 4 * W;

fn setup() -> (Controller, Surface, Vec<u8>) {
    let ctrl = Controller::new();
    let surface = Surface::new(W, H, STRIDE);
    let staging = vec![0u8; STRIDE * H];
    (ctrl, surface, staging)
}

fn px(buf: &[u8], x: usize, y: usize) -> (u8, u8, u8, u8) {
    let o = y * STRIDE + 4 * x;
    (buf[o + 2], buf[o + 1], buf[o], buf[o + 3])
}

#[test]
fn first_iteration_renders_and_flips_red() {
    let (mut ctrl, mut surface, mut staging) = setup();
    let out = run_iteration(&mut ctrl, &mut surface, &mut staging, &vec![], &vec![]);
    assert!(!out.quit);
    assert!(out.drew);
    assert!(out.flipped);
    assert!(surface.pending);
    assert!(!ctrl.need_redraw);
    // the first script step is solid red; the back frame holds it
    assert_eq!(px(&staging, 10, 10), (255, 0, 0, 0xff));
    assert_eq!(px(&surface.frame1.pixels, 10, 10), (255, 0, 0, 0xff));
    // the front frame is untouched
    assert_eq!(surface.front, 0);
    assert_eq!(px(&surface.frame0.pixels, 10, 10), (0, 0, 0, 0));
}

#[test]
fn no_redraw_while_idle_and_static() {
    let (mut ctrl, mut surface, mut staging) = setup();
    run_iteration(&mut ctrl, &mut surface, &mut staging, &vec![], &vec![]);
    // nothing due: no key, flip still pending, pattern static
    let out = run_iteration(&mut ctrl, &mut surface, &mut staging, &vec![], &vec![]);
    assert!(!out.quit);
    assert!(!out.drew);
    assert!(!out.flipped);
    assert!(surface.pending);
}

#[test]
fn key_during_pending_flip_defers_the_frame() {
    let (mut ctrl, mut surface, mut staging) = setup();
    run_iteration(&mut ctrl, &mut surface, &mut staging, &vec![], &vec![]);
    // an advance arrives while the flip is outstanding: the frame is
    // rendered but not submitted, and stays marked as needed
    let out = run_iteration(
        &mut ctrl,
        &mut surface,
        &mut staging,
        &vec![],
        &vec![Command::Advance],
    );
    assert!(out.drew);
    assert!(!out.flipped);
    assert!(ctrl.need_redraw);
    assert_eq!(ctrl.state.solid_idx, 1);
    assert_eq!(px(&staging, 10, 10), (0, 255, 0, 0xff));
    // the completion arrives: the next iteration submits the green frame
    // into the new back frame (frame 0)
    let out = run_iteration(
        &mut ctrl,
        &mut surface,
        &mut staging,
        &vec![DisplayEvent::FlipCompleted],
        &vec![],
    );
    assert!(out.drew);
    assert!(out.flipped);
    assert!(!ctrl.need_redraw);
    assert_eq!(surface.front, 1);
    assert_eq!(px(&surface.frame0.pixels, 10, 10), (0, 255, 0, 0xff));
}

#[test]
fn quit_command_ends_the_iteration_at_once() {
    let (mut ctrl, mut surface, mut staging) = setup();
    let out = run_iteration(
        &mut ctrl,
        &mut surface,
        &mut staging,
        &vec![],
        &vec![Command::Quit, Command::Advance],
    );
    assert!(out.quit);
    assert!(!out.drew);
    assert!(!out.flipped);
    // the command after the quit was never applied
    assert_eq!(ctrl.state.script_idx, 0);
}

#[test]
fn advance_past_the_end_quits() {
    let (mut ctrl, mut surface, mut staging) = setup();
    let cmds = vec![Command::Advance; 19];
    let out = run_iteration(&mut ctrl, &mut surface, &mut staging, &vec![], &cmds);
    assert!(!out.quit);
    assert_eq!(ctrl.state.script_idx, 19);
    let out = run_iteration(
        &mut ctrl,
        &mut surface,
        &mut staging,
        &vec![],
        &vec![Command::Advance],
    );
    assert!(out.quit);
}

#[test]
fn pause_suppresses_drawing() {
    let (mut ctrl, mut surface, mut staging) = setup();
    let out = run_iteration(
        &mut ctrl,
        &mut surface,
        &mut staging,
        &vec![],
        &vec![Command::TogglePause],
    );
    assert!(ctrl.paused);
    assert!(!out.drew);
    assert!(!out.flipped);
    // resuming draws the frame that stayed marked as needed
    let out = run_iteration(
        &mut ctrl,
        &mut surface,
        &mut staging,
        &vec![],
        &vec![Command::TogglePause],
    );
    assert!(!ctrl.paused);
    assert!(out.drew);
    assert!(out.flipped);
}

#[test]
fn motion_pattern_redraws_without_keys_and_moves_the_bar() {
    let (mut ctrl, mut surface, mut staging) = setup();
    // walk to the first motion step (speed 4)
    let cmds = vec![Command::Advance; 15];
    run_iteration(&mut ctrl, &mut surface, &mut staging, &vec![], &cmds);
    assert_eq!(ctrl.state.pattern, PatternKind::Motion);
    assert_eq!(ctrl.state.motion_x, 4);
    // with no keys at all the bar keeps moving whenever the flip slot is
    // free
    let out = run_iteration(
        &mut ctrl,
        &mut surface,
        &mut staging,
        &vec![DisplayEvent::FlipCompleted],
        &vec![],
    );
    assert!(out.drew);
    assert!(out.flipped);
    assert_eq!(ctrl.state.motion_x, 8);
    let bright = (230, 230, 230, 0xff);
    let gray = (128, 128, 128, 0xff);
    assert_eq!(px(&staging, 8, 50), bright);
    assert_eq!(px(&staging, 30, 50), gray);
}

#[test]
fn every_key_press_marks_a_redraw() {
    let (mut ctrl, mut surface, mut staging) = setup();
    run_iteration(&mut ctrl, &mut surface, &mut staging, &vec![], &vec![]);
    assert!(!ctrl.need_redraw);
    // an unmapped key still marks a redraw
    let out = run_iteration(
        &mut ctrl,
        &mut surface,
        &mut staging,
        &vec![DisplayEvent::FlipCompleted],
        &vec![Command::Other],
    );
    assert!(out.drew);
    assert!(out.flipped);
}

#[test]
fn toggles_change_the_working_parameters_in_order() {
    let (mut ctrl, mut surface, mut staging) = setup();
    let out = run_iteration(
        &mut ctrl,
        &mut surface,
        &mut staging,
        &vec![],
        &vec![Command::ToggleAxis, Command::CycleChannel, Command::CycleCell],
    );
    assert!(!out.quit);
    assert!(ctrl.state.grad_vertical);
    assert_eq!(ctrl.state.checker_cell, 16);
    assert!(ctrl.need_redraw || out.flipped);
}

#[test]
fn render_paints_the_active_pattern() {
    let ctrl = Controller::new();
    let mut staging = vec![0xAAu8; STRIDE * H];
    render(&ctrl.state, &mut staging, STRIDE, W, H);
    for y in 0..H {
        for x in 0..W {
            assert_eq!(px(&staging, x, y), (255, 0, 0, 0xff));
        }
    }
}

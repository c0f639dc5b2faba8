//! The per-iteration decisions of the main loop.
//!
//! Each iteration the binary waits on the display and keyboard devices,
//! drains what is queued into plain values, and hands them here. This
//! module absorbs completion events, applies the key commands in order,
//! decides whether a redraw is due, renders the active pattern into the
//! staging buffer, and submits a new frame only when no flip is pending —
//! backpressure by rejection, never by queueing.

use vstd::prelude::*;

verus! {

use crate::card::{card_box_h, card_box_w, card_rgb, card_t, draw_viewing_card};
use crate::patterns::{
    checker_rgb,
    draw_checkerboard,
    draw_gradient,
    draw_motion_bar,
    draw_patches,
    grad_axis_len,
    grad_axis_t,
    grad_rgb,
    motion_rgb,
    patch_cell,
    patches_rgb,
    solid_color,
    solid_rgb,
    PatternKind,
};
use crate::raster::{fill_rgb, in_rect_bytes, rgb3_at};
use crate::sequencer::{motion_next, next_cell, next_mode, next_speed, AppState};
use crate::surface::{copied_back, has_completion, swapped, DisplayEvent, Surface};

/// One decoded key press.
#[derive(Clone, Copy, Debug, PartialEq, Eq, Structural)]
pub enum Command {
    /// Leave the main loop.
    Quit,
    /// Advance the sequencer one step.
    Advance,
    /// Retreat the sequencer one step.
    Retreat,
    /// Flip the gradient axis.
    ToggleAxis,
    /// Cycle the motion speed.
    CycleSpeed,
    /// Cycle the gradient channel.
    CycleChannel,
    /// Cycle the checker cell size.
    CycleCell,
    /// Pause or resume drawing.
    TogglePause,
    /// Any other key press: it only marks a redraw.
    Other,
}

/// The main loop's own state: the sequencer plus the redraw and pause
/// flags.
#[derive(Debug)]
pub struct Controller {
    pub state: AppState,
    pub need_redraw: bool,
    pub paused: bool,
}

/// What one iteration did.
#[derive(Clone, Copy, Debug, PartialEq, Eq, Structural)]
pub struct IterationOutcome {
    /// The loop should exit: a quit command, or an advance past the end.
    pub quit: bool,
    /// The staging buffer was re-rendered.
    pub drew: bool,
    /// The staging buffer was copied to the back frame and a flip
    /// submitted.
    pub flipped: bool,
}

impl Controller {
    /// The controller is well formed: its sequencer is, and the working
    /// motion speed stays within the fixed cycle.
    pub open spec fn wf(self) -> bool {
        &&& self.state.wf()
        &&& self.state.motion_speed <= 32
    }
}

/// A command ends the loop: an explicit quit, or an advance while the
/// cursor stands on the last step.
pub open spec fn command_quits(c: Controller, cmd: Command) -> bool {
    ||| cmd is Quit
    ||| (cmd is Advance && c.state.advance_ends())
}

/// The controller after one command that does not end the loop. Every key
/// press marks a redraw.
pub open spec fn command_step(c: Controller, cmd: Command) -> Controller {
    let s = c.state;
    let c2 = match cmd {
        Command::Advance => Controller { state: s.after_advance(), ..c },
        Command::Retreat => Controller { state: s.after_retreat(), ..c },
        Command::ToggleAxis => Controller {
            state: AppState { grad_vertical: !s.grad_vertical, ..s },
            ..c
        },
        Command::CycleSpeed => Controller {
            state: AppState { motion_speed: next_speed(s.motion_speed as int) as usize, ..s },
            ..c
        },
        Command::CycleChannel => Controller {
            state: AppState { grad_mode: next_mode(s.grad_mode), ..s },
            ..c
        },
        Command::CycleCell => Controller {
            state: AppState { checker_cell: next_cell(s.checker_cell as int) as usize, ..s },
            ..c
        },
        Command::TogglePause => Controller { paused: !c.paused, ..c },
        _ => c,
    };
    Controller { need_redraw: true, ..c2 }
}

/// The controller and quit flag after a batch of commands, applied in
/// order; a quitting command stops the batch at once, as the loop exits.
pub open spec fn run_commands(c: Controller, cmds: Seq<Command>) -> (Controller, bool)
    decreases cmds.len(),
{
    if cmds.len() == 0 {
        (c, false)
    } else if command_quits(c, cmds[0]) {
        (c, true)
    } else {
        run_commands(command_step(c, cmds[0]), cmds.subrange(1, cmds.len() as int))
    }
}

/// A redraw is due: not paused, and either marked or showing the
/// time-varying motion pattern.
pub open spec fn should_draw(c: Controller) -> bool {
    !c.paused && (c.need_redraw || c.state.pattern is Motion)
}

/// The controller after the motion tick that precedes a redraw: only the
/// bar position moves, and only for the motion pattern.
pub open spec fn ticked(c: Controller, w: int) -> Controller {
    if c.state.pattern is Motion {
        Controller {
            state: AppState {
                motion_x: motion_next(
                    c.state.motion_x as int,
                    c.state.motion_dir as int,
                    c.state.motion_speed as int,
                    w,
                ) as isize,
                ..c.state
            },
            ..c
        }
    } else {
        c
    }
}

/// Width of the motion bar for a display of width w.
pub open spec fn bar_width(w: int) -> int {
    if w / 40 >= 8 {
        w / 40
    } else {
        8
    }
}

/// The display is large enough for every pattern of the script: the
/// clipping patches and the viewing card need room for their fixed-floor
/// corner boxes.
pub open spec fn display_ok(w: int, h: int) -> bool {
    &&& 5 * patch_cell(w, h) <= h
    &&& w >= card_box_w(w) + 2 * card_t(w, h)
    &&& h >= card_box_h(h) + 2 * card_t(w, h)
}

/// Pixel color of the active pattern at (x, y): the render rule of each
/// pattern family under the working parameters.
pub open spec fn pattern_rgb(s: AppState, w: int, h: int, x: int, y: int) -> (u8, u8, u8) {
    match s.pattern {
        PatternKind::Solid => solid_rgb(s.solid_idx as int),
        PatternKind::Gradient => grad_rgb(
            s.grad_mode,
            grad_axis_t(s.grad_vertical, x, y),
            grad_axis_len(s.grad_vertical, w, h),
        ),
        PatternKind::Checker => checker_rgb(s.checker_cell as int, x, y),
        PatternKind::Motion => motion_rgb(s.motion_x as int, bar_width(w), w, x),
        PatternKind::Patches => patches_rgb(w, h, x, y),
        PatternKind::Viewing => card_rgb(w, h, x, y),
    }
}

impl Controller {
    /// Builds the controller over a fresh sequencer, with a first redraw
    /// marked and drawing running.
    pub fn new() -> (r: Controller)
        ensures
            r.wf(),
            r.state == r.state.applied(0),
            r.state.script_idx == 0,
            r.need_redraw,
            !r.paused,
    {
        Controller { state: AppState::new(), need_redraw: true, paused: false }
    }

    /// Applies one decoded key press. Returns true when the loop must
    /// exit; the state is then left as it stands.
    pub fn handle_command(&mut self, cmd: Command) -> (quit: bool)
        requires
            old(self).wf(),
        ensures
            final(self).wf(),
            quit == command_quits(*old(self), cmd),
            quit ==> *final(self) == *old(self),
            !quit ==> *final(self) == command_step(*old(self), cmd),
            final(self).state.motion_x == old(self).state.motion_x
                || final(self).state.motion_x == 0,
    {
        match cmd {
            Command::Quit => {
                return true;
            },
            Command::Advance => {
                if self.state.next_step() {
                    return true;
                }
            },
            Command::Retreat => {
                self.state.previous_step();
            },
            Command::ToggleAxis => {
                self.state.toggle_axis();
            },
            Command::CycleSpeed => {
                self.state.cycle_speed();
            },
            Command::CycleChannel => {
                self.state.cycle_channel();
            },
            Command::CycleCell => {
                self.state.cycle_cell();
            },
            Command::TogglePause => {
                self.paused = !self.paused;
            },
            Command::Other => {},
        }
        self.need_redraw = true;
        false
    }

    /// Applies a batch of decoded key presses in order, stopping at the
    /// first that ends the loop.
    pub fn process_commands(&mut self, cmds: &Vec<Command>) -> (quit: bool)
        requires
            old(self).wf(),
        ensures
            final(self).wf(),
            *final(self) == run_commands(*old(self), cmds@).0,
            quit == run_commands(*old(self), cmds@).1,
            final(self).state.motion_x == old(self).state.motion_x
                || final(self).state.motion_x == 0,
    {
        let n = cmds.len();
        proof {
            assert(cmds@.subrange(0, n as int) =~= cmds@);
        }
        let mut i: usize = 0;
        while i < n
            invariant
                i <= n,
                n == cmds@.len(),
                self.wf(),
                run_commands(*old(self), cmds@) == run_commands(
                    *self,
                    cmds@.subrange(i as int, n as int),
                ),
                self.state.motion_x == old(self).state.motion_x || self.state.motion_x == 0,
            decreases n - i,
        {
            let ghost pre = *self;
            let ghost rest = cmds@.subrange(i as int, n as int);
            proof {
                assert(rest[0] == cmds@[i as int]);
                assert(rest.subrange(1, rest.len() as int) =~= cmds@.subrange(
                    i as int + 1,
                    n as int,
                ));
            }
            let cmd = cmds[i];
            if self.handle_command(cmd) {
                proof {
                    assert(run_commands(pre, rest) == (pre, true));
                }
                return true;
            }
            i += 1;
        }
        proof {
            assert(cmds@.subrange(n as int, n as int) =~= Seq::<Command>::empty());
        }
        false
    }
}

/// Renders the active pattern into the staging buffer, fully overwriting
/// the w x h raster and leaving every byte outside the raster band
/// unchanged.
pub fn render(state: &AppState, buf: &mut Vec<u8>, stride: usize, w: usize, h: usize)
    requires
        state.wf(),
        stride >= 1,
        4 * (w as int) <= stride as int,
        (h as int) * (stride as int) <= old(buf)@.len(),
        display_ok(w as int, h as int),
        state.pattern is Motion ==> 0 <= state.motion_x < w,
    ensures
        final(buf)@.len() == old(buf)@.len(),
        forall|x: int, y: int|
            0 <= x < w && 0 <= y < h
                ==> rgb3_at(
                    final(buf)@,
                    stride as int,
                    x,
                    y,
                    pattern_rgb(*state, w as int, h as int, x, y),
                ),
        forall|i: int|
            0 <= i < old(buf)@.len()
                && !in_rect_bytes(stride as int, 0, 0, w as int, h as int, i)
                ==> final(buf)@[i] == old(buf)@[i],
{
    match state.pattern {
        PatternKind::Solid => {
            let (r, g, b) = solid_color(state.solid_idx);
            fill_rgb(buf, stride, w, h, r, g, b);
        },
        PatternKind::Gradient => {
            draw_gradient(buf, stride, w, h, state.grad_mode, state.grad_vertical);
        },
        PatternKind::Checker => {
            draw_checkerboard(buf, stride, w, h, state.checker_cell);
        },
        PatternKind::Motion => {
            let bw0: usize = w / 40;
            let bw: usize = if bw0 >= 8 {
                bw0
            } else {
                8
            };
            draw_motion_bar(buf, stride, w, h, state.motion_x as usize, bw);
        },
        PatternKind::Patches => {
            draw_patches(buf, stride, w, h);
        },
        PatternKind::Viewing => {
            draw_viewing_card(buf, stride, w, h);
        },
    }
}

/// One iteration of the main loop over plain values: absorb the drained
/// display notifications, apply the drained key presses, and — unless the
/// loop ends or drawing is paused — render when a redraw is due and
/// submit the frame when no flip is outstanding. A frame that cannot be
/// submitted stays marked as needed and is neither queued nor dropped.
#[verifier::rlimit(50)]
pub fn run_iteration(
    ctrl: &mut Controller,
    surface: &mut Surface,
    staging: &mut Vec<u8>,
    display_events: &Vec<DisplayEvent>,
    commands: &Vec<Command>,
) -> (out: IterationOutcome)
    requires
        old(ctrl).wf(),
        old(surface).wf(),
        old(staging)@.len() == (old(surface).disp_h as int) * (old(surface).stride as int),
        display_ok(old(surface).disp_w as int, old(surface).disp_h as int),
        0 <= old(ctrl).state.motion_x < old(surface).disp_w,
    ensures
        final(ctrl).wf(),
        final(surface).wf(),
        final(surface).disp_w == old(surface).disp_w,
        final(surface).disp_h == old(surface).disp_h,
        final(surface).stride == old(surface).stride,
        final(staging)@.len() == old(staging)@.len(),
        0 <= final(ctrl).state.motion_x < old(surface).disp_w,
        out.quit == run_commands(*old(ctrl), commands@).1,
        ({
            let s1 = if old(surface).pending && has_completion(display_events@) {
                swapped(*old(surface))
            } else {
                *old(surface)
            };
            let c1 = run_commands(*old(ctrl), commands@).0;
            let w = old(surface).disp_w as int;
            let h = old(surface).disp_h as int;
            let st = old(surface).stride as int;
            let c2 = ticked(c1, w);
            &&& (out.drew == (!out.quit && should_draw(c1)))
            &&& (out.quit || !should_draw(c1) ==> *final(surface) == s1 && *final(staging)
                == *old(staging) && out.flipped == false)
            &&& (out.quit ==> *final(ctrl) == c1)
            &&& (!out.quit && !should_draw(c1) ==> *final(ctrl) == c1)
            &&& (out.drew ==> (forall|x: int, y: int|
                0 <= x < w && 0 <= y < h ==> rgb3_at(
                    final(staging)@,
                    st,
                    x,
                    y,
                    pattern_rgb(c2.state, w, h, x, y),
                )))
            &&& (out.drew && s1.pending ==> *final(surface) == s1 && *final(ctrl) == c2
                && out.flipped == false)
            &&& (out.drew && !s1.pending ==> out.flipped == true && *final(ctrl) == (Controller {
                need_redraw: false,
                ..c2
            }) && final(surface).pending && final(surface).front == s1.front
                && final(surface).back_pixels() == copied_back(
                s1.back_pixels(),
                final(staging)@,
                st,
                st,
                h,
            ) && final(surface).front_pixels() == s1.front_pixels())
        }),
{
    let ghost w = old(surface).disp_w as int;
    surface.absorb_completion_events(display_events);
    let quit = ctrl.process_commands(commands);
    if quit {
        return IterationOutcome { quit: true, drew: false, flipped: false };
    }
    let draw_due = !ctrl.paused && (ctrl.need_redraw || matches!(
        ctrl.state.pattern,
        PatternKind::Motion,
    ));
    if !draw_due {
        return IterationOutcome { quit: false, drew: false, flipped: false };
    }
    if matches!(ctrl.state.pattern, PatternKind::Motion) {
        ctrl.state.tick_motion(surface.disp_w);
    }
    let stride = surface.row_stride();
    render(&ctrl.state, staging, stride, surface.disp_w, surface.disp_h);
    if surface.pending {
        return IterationOutcome { quit: false, drew: true, flipped: false };
    }
    proof {
        let sti = surface.stride as int;
        let dhi = surface.disp_h as int;
        assert(sti * dhi == dhi * sti) by (nonlinear_arith);
    }
    let wr = surface.write_to_back(staging, stride);
    proof {
        assert(wr is Ok);
    }
    let fr = surface.flip();
    proof {
        assert(fr is Ok);
    }
    ctrl.need_redraw = false;
    IterationOutcome { quit: false, drew: true, flipped: true }
}

} // verus!

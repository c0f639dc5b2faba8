//! The input-driven sequencer: a fixed script of pattern steps, a cursor,
//! and the working parameters of the active step.
//!
//! Moving the cursor re-derives the working parameters from the script, so
//! manual parameter toggles last only until the next advance or retreat.

use vstd::prelude::*;

verus! {

use crate::patterns::{GradMode, PatternKind};

/// One scripted entry: a pattern kind with its parameters.
#[derive(Clone, Copy, Debug, PartialEq, Eq, Structural)]
pub struct Step {
    pub pat: PatternKind,
    pub solid_idx: usize,
    pub grad_mode: GradMode,
    pub grad_vertical: bool,
    pub checker_cell: usize,
    pub motion_speed: usize,
}

/// A step with every parameter at its resting value.
pub open spec fn base_step() -> Step {
    Step {
        pat: PatternKind::Solid,
        solid_idx: 0,
        grad_mode: GradMode::Luma,
        grad_vertical: false,
        checker_cell: 0,
        motion_speed: 0,
    }
}

/// The fixed script: the six palette solids, the two luminance gradient
/// axes, the three isolated-channel gradients, four checker cell sizes,
/// three motion speeds, then the patches and the viewing card.
pub open spec fn spec_script() -> Seq<Step> {
    seq![
        Step { solid_idx: 0, ..base_step() },
        Step { solid_idx: 1, ..base_step() },
        Step { solid_idx: 2, ..base_step() },
        Step { solid_idx: 3, ..base_step() },
        Step { solid_idx: 4, ..base_step() },
        Step { solid_idx: 5, ..base_step() },
        Step { pat: PatternKind::Gradient, grad_mode: GradMode::Luma, ..base_step() },
        Step {
            pat: PatternKind::Gradient,
            grad_mode: GradMode::Luma,
            grad_vertical: true,
            ..base_step()
        },
        Step { pat: PatternKind::Gradient, grad_mode: GradMode::Red, ..base_step() },
        Step { pat: PatternKind::Gradient, grad_mode: GradMode::Green, ..base_step() },
        Step { pat: PatternKind::Gradient, grad_mode: GradMode::Blue, ..base_step() },
        Step { pat: PatternKind::Checker, checker_cell: 16, ..base_step() },
        Step { pat: PatternKind::Checker, checker_cell: 8, ..base_step() },
        Step { pat: PatternKind::Checker, checker_cell: 4, ..base_step() },
        Step { pat: PatternKind::Checker, checker_cell: 2, ..base_step() },
        Step { pat: PatternKind::Motion, motion_speed: 4, ..base_step() },
        Step { pat: PatternKind::Motion, motion_speed: 8, ..base_step() },
        Step { pat: PatternKind::Motion, motion_speed: 16, ..base_step() },
        Step { pat: PatternKind::Patches, ..base_step() },
        Step { pat: PatternKind::Viewing, ..base_step() },
    ]
}

/// The sequencer: the script, the cursor, and the working parameters of
/// the active step.
#[derive(Debug)]
pub struct AppState {
    pub pattern: PatternKind,
    pub solid_idx: usize,
    pub grad_mode: GradMode,
    pub grad_vertical: bool,
    pub checker_cell: usize,
    pub motion_x: isize,
    pub motion_speed: usize,
    pub motion_dir: i32,
    pub script: Vec<Step>,
    pub script_idx: usize,
}

/// Bar position after one motion tick: the position moves by the signed
/// speed, wrapping to the far edge when it leaves on the left and to zero
/// when it leaves on the right.
pub open spec fn motion_next(pos: int, dir: int, speed: int, w: int) -> int {
    let p = pos + dir * speed;
    if p < 0 {
        w - 1
    } else if p >= w {
        0
    } else {
        p
    }
}

/// The motion speed cycle: doubling from 1 to 32, then back to 1.
pub open spec fn next_speed(s: int) -> int {
    if s == 1 {
        2
    } else if s == 2 {
        4
    } else if s == 4 {
        8
    } else if s == 8 {
        16
    } else if s == 16 {
        32
    } else {
        1
    }
}

/// The gradient channel cycle: luminance, red, green, blue, and around.
pub open spec fn next_mode(m: GradMode) -> GradMode {
    match m {
        GradMode::Luma => GradMode::Red,
        GradMode::Red => GradMode::Green,
        GradMode::Green => GradMode::Blue,
        GradMode::Blue => GradMode::Luma,
    }
}

/// The checker cell-size cycle: halving from 16 to 2, then back to 16.
pub open spec fn next_cell(c: int) -> int {
    if c == 16 {
        8
    } else if c == 8 {
        4
    } else if c == 4 {
        2
    } else {
        16
    }
}

impl AppState {
    /// The sequencer is well formed: it carries the fixed script, its
    /// cursor is on a step, its palette index names a palette entry, and
    /// the motion direction is a sign.
    pub open spec fn wf(self) -> bool {
        &&& self.script@ == spec_script()
        &&& (self.script_idx as int) < spec_script().len()
        &&& (self.solid_idx as int) < crate::patterns::solid_count()
        &&& (self.motion_dir == 1 || self.motion_dir == -1)
    }

    /// This state with the cursor on `idx` and the working parameters
    /// re-derived from that step: motion restarts at the left edge,
    /// running forward.
    pub open spec fn applied(self, idx: int) -> AppState {
        let s = self.script@[idx];
        AppState {
            pattern: s.pat,
            solid_idx: s.solid_idx,
            grad_mode: s.grad_mode,
            grad_vertical: s.grad_vertical,
            checker_cell: s.checker_cell,
            motion_x: 0,
            motion_speed: s.motion_speed,
            motion_dir: 1,
            script_idx: idx as usize,
            ..self
        }
    }

    /// The cursor cannot advance further: it stands on the last step.
    pub open spec fn advance_ends(self) -> bool {
        self.script_idx as int + 1 >= spec_script().len()
    }

    /// The state after a successful advance.
    pub open spec fn after_advance(self) -> AppState {
        self.applied(self.script_idx as int + 1)
    }

    /// The state after a retreat, wrapping from the first step to the last.
    pub open spec fn after_retreat(self) -> AppState {
        let l = spec_script().len() as int;
        self.applied((self.script_idx as int + l - 1) % l)
    }

    /// Builds the fixed script as a vector.
    pub fn create_script() -> (r: Vec<Step>)
        ensures
            r@ == spec_script(),
    {
        let d = Step {
            pat: PatternKind::Solid,
            solid_idx: 0,
            grad_mode: GradMode::Luma,
            grad_vertical: false,
            checker_cell: 0,
            motion_speed: 0,
        };
        let mut script: Vec<Step> = Vec::new();
        script.push(Step { solid_idx: 0, ..d });
        script.push(Step { solid_idx: 1, ..d });
        script.push(Step { solid_idx: 2, ..d });
        script.push(Step { solid_idx: 3, ..d });
        script.push(Step { solid_idx: 4, ..d });
        script.push(Step { solid_idx: 5, ..d });
        script.push(Step { pat: PatternKind::Gradient, grad_mode: GradMode::Luma, ..d });
        script.push(
            Step {
                pat: PatternKind::Gradient,
                grad_mode: GradMode::Luma,
                grad_vertical: true,
                ..d
            },
        );
        script.push(Step { pat: PatternKind::Gradient, grad_mode: GradMode::Red, ..d });
        script.push(Step { pat: PatternKind::Gradient, grad_mode: GradMode::Green, ..d });
        script.push(Step { pat: PatternKind::Gradient, grad_mode: GradMode::Blue, ..d });
        script.push(Step { pat: PatternKind::Checker, checker_cell: 16, ..d });
        script.push(Step { pat: PatternKind::Checker, checker_cell: 8, ..d });
        script.push(Step { pat: PatternKind::Checker, checker_cell: 4, ..d });
        script.push(Step { pat: PatternKind::Checker, checker_cell: 2, ..d });
        script.push(Step { pat: PatternKind::Motion, motion_speed: 4, ..d });
        script.push(Step { pat: PatternKind::Motion, motion_speed: 8, ..d });
        script.push(Step { pat: PatternKind::Motion, motion_speed: 16, ..d });
        script.push(Step { pat: PatternKind::Patches, ..d });
        script.push(Step { pat: PatternKind::Viewing, ..d });
        proof {
            assert(script@ =~= spec_script());
        }
        script
    }

    /// Builds the sequencer at the first step with its parameters derived.
    pub fn new() -> (r: AppState)
        ensures
            r.wf(),
            r.script_idx == 0,
            r == r.applied(0),
    {
        let script = AppState::create_script();
        let mut s = AppState {
            pattern: PatternKind::Solid,
            solid_idx: 0,
            grad_mode: GradMode::Luma,
            grad_vertical: false,
            checker_cell: 8,
            motion_x: 0,
            motion_speed: 8,
            motion_dir: 1,
            script,
            script_idx: 0,
        };
        s.apply_current_step();
        s
    }

    /// The step under the cursor.
    pub fn current_step(&self) -> (s: Step)
        requires
            (self.script_idx as int) < self.script@.len(),
        ensures
            s == self.script@[self.script_idx as int],
    {
        self.script[self.script_idx]
    }

    /// Copies the active step's parameters into the working fields and
    /// restarts the motion position and direction.
    pub fn apply_current_step(&mut self)
        requires
            (old(self).script_idx as int) < old(self).script@.len(),
        ensures
            *final(self) == old(self).applied(old(self).script_idx as int),
    {
        let step = self.current_step();
        self.pattern = step.pat;
        self.solid_idx = step.solid_idx;
        self.grad_mode = step.grad_mode;
        self.grad_vertical = step.grad_vertical;
        self.checker_cell = step.checker_cell;
        self.motion_speed = step.motion_speed;
        self.motion_x = 0;
        self.motion_dir = 1;
    }

    /// Moves the cursor forward one step and re-derives the parameters.
    /// Returns true (end) when the cursor stands on the last step; the
    /// state is then left unchanged and the caller should terminate.
    pub fn next_step(&mut self) -> (end: bool)
        requires
            old(self).wf(),
        ensures
            final(self).wf(),
            end == old(self).advance_ends(),
            end ==> *final(self) == *old(self),
            !end ==> *final(self) == old(self).after_advance(),
    {
        let len = self.script.len();
        if self.script_idx + 1 >= len {
            return true;
        }
        self.script_idx = self.script_idx + 1;
        self.apply_current_step();
        false
    }

    /// Moves the cursor backward one step, wrapping from the first step to
    /// the last, and re-derives the parameters.
    pub fn previous_step(&mut self)
        requires
            old(self).wf(),
        ensures
            final(self).wf(),
            *final(self) == old(self).after_retreat(),
    {
        let len = self.script.len();
        self.script_idx = (self.script_idx + len - 1) % len;
        self.apply_current_step();
    }

    /// Flips the gradient axis of the working parameters.
    pub fn toggle_axis(&mut self)
        ensures
            *final(self) == (AppState { grad_vertical: !old(self).grad_vertical, ..*old(self) }),
    {
        self.grad_vertical = !self.grad_vertical;
    }

    /// Cycles the working motion speed through the fixed doubling set.
    pub fn cycle_speed(&mut self)
        ensures
            *final(self) == (AppState {
                motion_speed: next_speed(old(self).motion_speed as int) as usize,
                ..*old(self)
            }),
    {
        self.motion_speed = if self.motion_speed == 1 {
            2
        } else if self.motion_speed == 2 {
            4
        } else if self.motion_speed == 4 {
            8
        } else if self.motion_speed == 8 {
            16
        } else if self.motion_speed == 16 {
            32
        } else {
            1
        };
    }

    /// Cycles the working gradient channel.
    pub fn cycle_channel(&mut self)
        ensures
            *final(self) == (AppState { grad_mode: next_mode(old(self).grad_mode), ..*old(self) }),
    {
        self.grad_mode = match self.grad_mode {
            GradMode::Luma => GradMode::Red,
            GradMode::Red => GradMode::Green,
            GradMode::Green => GradMode::Blue,
            GradMode::Blue => GradMode::Luma,
        };
    }

    /// Cycles the working checker cell size through the fixed halving set.
    pub fn cycle_cell(&mut self)
        ensures
            *final(self) == (AppState {
                checker_cell: next_cell(old(self).checker_cell as int) as usize,
                ..*old(self)
            }),
    {
        self.checker_cell = if self.checker_cell == 16 {
            8
        } else if self.checker_cell == 8 {
            4
        } else if self.checker_cell == 4 {
            2
        } else {
            16
        };
    }

    /// Advances the motion bar position by the signed speed and wraps it
    /// at the display edges.
    pub fn tick_motion(&mut self, w: usize)
        requires
            w >= 1,
            0 <= old(self).motion_x < w,
            old(self).motion_dir == 1 || old(self).motion_dir == -1,
            (w as int) + (old(self).motion_speed as int) <= isize::MAX as int,
    ensures
            *final(self) == (AppState {
                motion_x: motion_next(
                    old(self).motion_x as int,
                    old(self).motion_dir as int,
                    old(self).motion_speed as int,
                    w as int,
                ) as isize,
                ..*old(self)
            }),
            0 <= final(self).motion_x < w,
    {
        let step: isize = if self.motion_dir == 1 {
            self.motion_speed as isize
        } else {
            -(self.motion_speed as isize)
        };
        let p: isize = self.motion_x + step;
        self.motion_x = if p < 0 {
            (w as isize) - 1
        } else if p >= (w as isize) {
            0
        } else {
            p
        };
    }
}

/// Advancing one step and then retreating lands the cursor back on the
/// same step, with that step's parameters freshly derived: for a state
/// whose working parameters are already derived this is the identity.
pub proof fn lemma_advance_then_retreat(s: AppState)
    requires
        s.wf(),
        !s.advance_ends(),
    ensures
        s.after_advance().after_retreat() == s.applied(s.script_idx as int),
{
    let l = spec_script().len() as int;
    assert(l == 20);
    let i = s.script_idx as int;
    let a = s.after_advance();
    assert(a.script_idx as int == i + 1);
    assert((i + 1 + l - 1) % l == i);
    assert(a.after_retreat() == a.applied(i));
    assert(a.applied(i) == s.applied(i));
}

/// Retreating from the first step wraps the cursor to the last step.
pub proof fn lemma_retreat_wraps(s: AppState)
    requires
        s.wf(),
        s.script_idx == 0,
    ensures
        s.after_retreat().script_idx as int == spec_script().len() - 1,
{
    let l = spec_script().len() as int;
    assert(l == 20);
    assert((0 + l - 1) % l == l - 1);
}

} // verus!

//! The first-run tutorial: a fixed sequence of steps, each completed by
//! something the player does.
use vstd::prelude::*;

verus! {

/// One step: the prompt shown and a short hint.
#[derive(Clone, Copy, Debug)]
pub struct TutorialStep {
    pub message: &'static str,
    pub hint: &'static str,
}

/// Number of tutorial steps.
pub const TUTORIAL_STEP_COUNT: u32 = 6;

/// The prompt and hint of each step.
pub open spec fn step_text(i: int) -> (Seq<char>, Seq<char>) {
    if i == 0 {
        ("Welcome to Infinite Flux! Use WASD to pan the camera."@, "Pan with WASD"@)
    } else if i == 1 {
        ("Press [5] to select a Generator. Click an empty tile to place it."@, "Place a Generator"@)
    } else if i == 2 {
        ("Press [1] to select a Mining Drill. Click on a colored resource deposit."@, "Place a Mining Drill"@)
    } else if i == 3 {
        ("Press [2] to select a Transport Line. Click the drill, then a destination."@, "Build a Transport Line"@)
    } else if i == 4 {
        ("Press [3] for a Smelter. Place it and link the drill to it with transport."@, "Place a Smelter"@)
    } else {
        ("Press [Tab] to see statistics. Great work!"@, "Open the stats dashboard"@)
    }
}

/// All tutorial steps, in order.
pub fn tutorial_steps() -> (v: Vec<TutorialStep>)
    ensures
        v@.len() == TUTORIAL_STEP_COUNT,
        forall|i: int| 0 <= i < v@.len() ==> (#[trigger] v@[i].message@, v@[i].hint@) == step_text(i),
{
    let mut v = Vec::new();
    v.push(TutorialStep { message: "Welcome to Infinite Flux! Use WASD to pan the camera.", hint: "Pan with WASD" });
    v.push(TutorialStep {
        message: "Press [5] to select a Generator. Click an empty tile to place it.",
        hint: "Place a Generator",
    });
    v.push(TutorialStep {
        message: "Press [1] to select a Mining Drill. Click on a colored resource deposit.",
        hint: "Place a Mining Drill",
    });
    v.push(TutorialStep {
        message: "Press [2] to select a Transport Line. Click the drill, then a destination.",
        hint: "Build a Transport Line",
    });
    v.push(TutorialStep {
        message: "Press [3] for a Smelter. Place it and link the drill to it with transport.",
        hint: "Place a Smelter",
    });
    v.push(TutorialStep { message: "Press [Tab] to see statistics. Great work!", hint: "Open the stats dashboard" });
    v
}

/// What the player has done, as seen this frame.
#[derive(Clone, Copy, Debug, PartialEq, Eq, Structural)]
pub struct TutorialObservations {
    /// A pan key was pressed this frame.
    pub panned: bool,
    pub generator_placed: bool,
    pub drill_placed: bool,
    pub transport_exists: bool,
    pub smelter_placed: bool,
    pub stats_open: bool,
}

/// Whether the step is completed, given what was observed (and whether the
/// player has panned at some point).
pub open spec fn step_done(step: u32, has_panned: bool, obs: TutorialObservations) -> bool {
    if step == 0 {
        has_panned
    } else if step == 1 {
        obs.generator_placed
    } else if step == 2 {
        obs.drill_placed
    } else if step == 3 {
        obs.transport_exists
    } else if step == 4 {
        obs.smelter_placed
    } else if step == 5 {
        obs.stats_open
    } else {
        false
    }
}

/// Where the player is in the tutorial.
#[derive(Clone, Copy, Debug, PartialEq, Eq, Structural)]
pub struct TutorialState {
    pub current_step: u32,
    pub active: bool,
    pub total_steps: u32,
    /// Set once a pan key has been pressed.
    pub has_panned: bool,
}

impl TutorialState {
    /// The starting state: active unless the tutorial was completed in an
    /// earlier run (its flag is present).
    pub fn new_for_first_run(flag_present: bool) -> (s: TutorialState)
        ensures
            s.current_step == 0,
            s.active == !flag_present,
            s.total_steps == TUTORIAL_STEP_COUNT,
            !s.has_panned,
    {
        TutorialState { current_step: 0, active: !flag_present, total_steps: TUTORIAL_STEP_COUNT, has_panned: false }
    }

    /// Ends the tutorial: inactive, positioned past the last step. The
    /// caller records the completion so that it is not shown again.
    pub fn complete(&mut self)
        ensures
            !final(self).active,
            final(self).current_step == old(self).total_steps,
            final(self).total_steps == old(self).total_steps,
            final(self).has_panned == old(self).has_panned,
    {
        self.active = false;
        self.current_step = self.total_steps;
    }

    /// Moves to the next step, completing the tutorial after the last one;
    /// does nothing when inactive. Returns whether the tutorial completed.
    pub fn advance(&mut self) -> (completed: bool)
        requires
            old(self).active ==> old(self).current_step < u32::MAX,
        ensures
            completed == (old(self).active && old(self).current_step + 1 >= old(self).total_steps),
            !old(self).active ==> *final(self) == *old(self),
            old(self).active && !completed ==> *final(self) == (TutorialState {
                current_step: (old(self).current_step + 1) as u32,
                ..*old(self)
            }),
            completed ==> *final(self) == (TutorialState {
                active: false,
                current_step: old(self).total_steps,
                ..*old(self)
            }),
    {
        if !self.active {
            return false;
        }
        self.current_step = self.current_step + 1;
        if self.current_step >= self.total_steps {
            self.complete();
            true
        } else {
            false
        }
    }

    /// One frame of the tutorial: remembers panning, and advances when the
    /// current step's action has been done. Returns whether the tutorial
    /// completed.
    pub fn update(&mut self, obs: TutorialObservations) -> (completed: bool)
        requires
            old(self).active ==> old(self).current_step < u32::MAX,
        ensures
            !old(self).active ==> *final(self) == *old(self) && !completed,
            old(self).active ==> {
                let panned = old(self).has_panned || obs.panned;
                let done = step_done(old(self).current_step, panned, obs);
                &&& final(self).has_panned == panned
                &&& final(self).total_steps == old(self).total_steps
                &&& completed == (done && old(self).current_step + 1 >= old(self).total_steps)
                &&& !done ==> final(self).current_step == old(self).current_step && final(self).active
                &&& done && !completed ==> final(self).current_step == old(self).current_step + 1
                    && final(self).active
                &&& completed ==> final(self).current_step == old(self).total_steps && !final(self).active
            },
    {
        if !self.active {
            return false;
        }
        if obs.panned {
            self.has_panned = true;
        }
        let step = self.current_step;
        let done = if step == 0 {
            self.has_panned
        } else if step == 1 {
            obs.generator_placed
        } else if step == 2 {
            obs.drill_placed
        } else if step == 3 {
            obs.transport_exists
        } else if step == 4 {
            obs.smelter_placed
        } else if step == 5 {
            obs.stats_open
        } else {
            false
        };
        if done {
            self.advance()
        } else {
            false
        }
    }
}

/// The tutorial only moves forward: advancing never lowers the step, and
/// once finished it stays finished.
pub proof fn lemma_advance_monotone(before: TutorialState, after: TutorialState, completed: bool)
    requires
        before.active ==> before.current_step < u32::MAX,
        before.current_step <= before.total_steps,
        completed == (before.active && before.current_step + 1 >= before.total_steps),
        !before.active ==> after == before,
        before.active && !completed ==> after == (TutorialState { current_step: (before.current_step + 1) as u32, ..before }),
        completed ==> after == (TutorialState { active: false, current_step: before.total_steps, ..before }),
    ensures
        after.current_step >= before.current_step,
        !before.active ==> !after.active,
        after.current_step <= after.total_steps,
{
}

} // verus!

//! The decisions of an interactive viewer: which screen it shows, how fast
//! it runs, and how many generations each frame advances. Drawing, input
//! and timing stay with the caller, which hands in the key pressed.

use crate::pattern::{trim_line, trimmed};
use crate::rule::{compile_spec, LifeLike, RuleError};
use vstd::prelude::*;

verus! {

/// A key the viewer reacts to.
#[derive(Debug, Clone, Copy, PartialEq, Eq, Structural)]
pub enum Key {
    Escape,
    Space,
    Right,
    N,
    Other,
}

/// The screen the viewer shows.
#[derive(Debug, Clone, Copy, PartialEq, Eq, PartialOrd, Ord, Structural)]
pub enum State {
    /// The simulation runs.
    Normal,
    /// The simulation stands still; a step key advances it by one.
    Paused,
    /// The settings window is open.
    Settings,
}

/// The screen after a key press: Escape opens or closes the settings, Space
/// pauses or resumes; other keys change nothing.
pub open spec fn next_state(s: State, input: Key) -> State {
    match (s, input) {
        (State::Normal, Key::Escape) | (State::Paused, Key::Escape) => State::Settings,
        (State::Normal, Key::Space) => State::Paused,
        (State::Settings, Key::Escape) => State::Normal,
        (State::Paused, Key::Space) => State::Normal,
        _ => s,
    }
}

impl State {
    /// The screen after `input` is pressed.
    pub fn next(&self, input: Key) -> (r: State)
        ensures
            r == next_state(*self, input),
    {
        match (self, input) {
            (State::Normal, Key::Escape) | (State::Paused, Key::Escape) => State::Settings,
            (State::Normal, Key::Space) => State::Paused,
            (State::Settings, Key::Escape) => State::Normal,
            (State::Paused, Key::Space) => State::Normal,
            _ => *self,
        }
    }
}

/// How fast the simulation runs.
#[derive(Debug, Clone, Copy, PartialEq, Eq, PartialOrd, Ord, Structural)]
pub enum Speed {
    /// One generation per frame.
    Normal,
    /// The given number of generations per frame.
    Overclocked(usize),
    /// One generation every given number of frames.
    Underclocked(usize),
}

/// A factor of 0 or 1 means normal speed.
pub open spec fn speed_with(factor: usize, over: bool) -> Speed {
    if factor <= 1 {
        Speed::Normal
    } else if over {
        Speed::Overclocked(factor)
    } else {
        Speed::Underclocked(factor)
    }
}

impl Speed {
    /// Normal speed.
    pub fn new() -> (r: Speed)
        ensures
            r == Speed::Normal,
    {
        Speed::Normal
    }

    /// `speed` generations per frame.
    pub fn new_overclocked(speed: usize) -> (r: Speed)
        ensures
            r == speed_with(speed, true),
    {
        if speed == 0 || speed == 1 {
            Speed::Normal
        } else {
            Speed::Overclocked(speed)
        }
    }

    /// One generation every `speed` frames.
    pub fn new_underclocked(speed: usize) -> (r: Speed)
        ensures
            r == speed_with(speed, false),
    {
        if speed == 0 || speed == 1 {
            Speed::Normal
        } else {
            Speed::Underclocked(speed)
        }
    }
}

/// An underclocked speed counts frames modulo a positive number.
pub open spec fn speed_ok(s: Speed) -> bool {
    match s {
        Speed::Underclocked(n) => n >= 1,
        _ => true,
    }
}

/// The number of generations a frame advances.
pub open spec fn frame_steps(state: State, speed: Speed, counter: usize, step_pressed: bool) -> int {
    match state {
        State::Normal => match speed {
            Speed::Normal => 1,
            Speed::Overclocked(n) => n as int,
            Speed::Underclocked(_) => if counter == 0 {
                1
            } else {
                0
            },
        },
        State::Paused => if step_pressed {
            1
        } else {
            0
        },
        State::Settings => 0,
    }
}

/// The frame counter after a frame: it advances, modulo the factor, only
/// while an underclocked simulation runs.
pub open spec fn next_counter(state: State, speed: Speed, counter: usize) -> usize {
    match (state, speed) {
        (State::Normal, Speed::Underclocked(n)) => ((counter + 1) % (n as int)) as usize,
        _ => counter,
    }
}

/// The viewer's state: its screen, its rule, its speed and its frame
/// counter.
pub struct World {
    pub state: State,
    pub machine: LifeLike,
    pub speed: Speed,
    pub counter: usize,
}

impl World {
    /// A running world at normal speed with the rule `initial_rule`.
    pub fn new(initial_rule: &str) -> (r: Result<World, RuleError>)
        ensures
            match compile_spec(initial_rule@) {
                Ok(table) => r matches Ok(w) && w.machine@ == table && w.state == State::Normal
                    && w.speed == Speed::Normal && w.counter == 0,
                Err(e) => r == Err::<World, RuleError>(e),
            },
    {
        let machine = LifeLike::new(initial_rule)?;
        Ok(World { state: State::Normal, machine, speed: Speed::new(), counter: 0 })
    }

    /// Replaces the rule by `new`, read with surrounding whitespace removed;
    /// on an error the world is left as it is.
    pub fn new_rule(&mut self, new: &str) -> (r: Result<(), RuleError>)
        ensures
            match compile_spec(trimmed(new@)) {
                Ok(table) => r is Ok && final(self).machine@ == table && final(self).state
                    == old(self).state && final(self).speed == old(self).speed
                    && final(self).counter == old(self).counter,
                Err(e) => r == Err::<(), RuleError>(e) && *final(self) == *old(self),
            },
    {
        match LifeLike::new(trim_line(new)) {
            Ok(machine) => {
                self.machine = machine;
                Ok(())
            },
            Err(e) => Err(e),
        }
    }

    /// Decides how many generations this frame advances, and moves the
    /// frame counter on; `step_pressed` tells whether the single-step key
    /// was pressed.
    pub fn frame(&mut self, step_pressed: bool) -> (r: usize)
        requires
            speed_ok(old(self).speed),
        ensures
            r as int == frame_steps(old(self).state, old(self).speed, old(self).counter, step_pressed),
            final(self).counter == next_counter(old(self).state, old(self).speed, old(self).counter),
            final(self).state == old(self).state,
            final(self).speed == old(self).speed,
            final(self).machine == old(self).machine,
    {
        match self.state {
            State::Normal => match self.speed {
                Speed::Normal => 1,
                Speed::Overclocked(n) => n,
                Speed::Underclocked(n) => {
                    let steps: usize = if self.counter == 0 {
                        1
                    } else {
                        0
                    };
                    let c = self.counter;
                    proof {
                        vstd::arithmetic::div_mod::lemma_add_mod_noop(c as int, 1, n as int);
                        if n > 1 {
                            vstd::arithmetic::div_mod::lemma_small_mod(1, n as nat);
                        }
                        vstd::arithmetic::div_mod::lemma_mod_bound(c as int, n as int);
                    }
                    if n == 1 {
                        self.counter = 0;
                    } else {
                        self.counter = (c % n + 1) % n;
                    }
                    steps
                },
            },
            State::Paused => if step_pressed {
                1
            } else {
                0
            },
            State::Settings => 0,
        }
    }
}

} // verus!

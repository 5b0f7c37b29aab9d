use vstd::prelude::*;

verus! {

/// The stages of the application's life.
#[derive(Debug, PartialEq, Eq, Clone, Copy, Structural)]
pub enum State {
    Initialising,
    Calibrating { second_stage: bool },
    Running,
    Exiting,
}

/// What moves the application from one stage to another.
#[derive(Debug, PartialEq, Eq, Clone, Copy, Structural)]
pub enum Event {
    Initialised,
    Calibrated,
    Exited,
}

/// The stage that `event` leads to from `state`, if it leads anywhere:
/// leaving is always possible, initialisation leads to the first stage of
/// calibration, and a finished calibration leads to running.
pub open spec fn next_state(state: State, event: Event) -> Option<State> {
    match (state, event) {
        (_, Event::Exited) => Some(State::Exiting),
        (State::Initialising, Event::Initialised) => Some(State::Calibrating { second_stage: false }),
        (State::Calibrating { second_stage: true }, Event::Calibrated) => Some(State::Running),
        _ => None,
    }
}

impl State {
    /// Returns the stage to move to on `event`, if one exists.
    pub fn next(&self, event: Event) -> (r: Option<State>)
        ensures
            r == next_state(*self, event),
    {
        match (*self, event) {
            (_, Event::Exited) => Some(State::Exiting),
            (State::Initialising, Event::Initialised) => Some(
                State::Calibrating { second_stage: false },
            ),
            (State::Calibrating { second_stage: true }, Event::Calibrated) => Some(State::Running),
            _ => None,
        }
    }

    /// Moves to the stage that `event` leads to; returns whether it moved.
    pub fn transit(&mut self, event: Event) -> (moved: bool)
        ensures
            moved == next_state(*old(self), event) is Some,
            moved ==> Some(*final(self)) == next_state(*old(self), event),
            !moved ==> *final(self) == *old(self),
    {
        match self.next(event) {
            Some(state) => {
                *self = state;
                true
            },
            None => false,
        }
    }

    /// Whether the application is still running its loop.
    pub fn is_running(&self) -> (r: bool)
        ensures
            r == (*self != State::Exiting),
    {
        !matches!(self, State::Exiting)
    }
}

/// An application driven frame by frame: set up, then each frame cleared,
/// fed input, updated and rendered, until it stops running.
pub trait Application<'a>: Sized {
    type Error;

    /// Returns a new application, ready to be initialised.
    fn fresh(title: &'a str) -> Self;

    /// Prepares the application for rendering.
    fn initialise(&mut self) -> Result<(), Self::Error>;

    /// Clears the canvas and resets the cursor.
    fn clear(&mut self) -> Result<(), Self::Error>;

    /// Called at the start of a frame, after `clear`.
    fn begin_frame(&mut self) -> Result<(), Self::Error>;

    /// Handles input, before `update`.
    fn input(&mut self) -> Result<(), Self::Error>;

    /// Advances the application, before `render`.
    fn update(&mut self) -> Result<(), Self::Error>;

    /// Shows the frame.
    fn render(&mut self) -> Result<(), Self::Error>;

    /// Called at the end of a frame, after `render`.
    fn end_frame(&mut self) -> Result<(), Self::Error>;

    /// Runs once the frame loop has stopped.
    fn end(&mut self) -> Result<(), Self::Error>;

    /// Whether the frame loop goes on.
    fn is_running(&self) -> bool;
}

} // verus!

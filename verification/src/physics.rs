//! Whether the physics simulation runs.

use vstd::prelude::*;

verus! {

#[derive(Clone, Copy, Debug, PartialEq, Eq, Structural)]
pub enum AvoxelPhysicsStates {
    Active,
    Paused,
}

/// The switch that pauses and resumes the simulation of boxes.
pub struct AvoxelPhysicsState {
    state: AvoxelPhysicsStates,
}

impl View for AvoxelPhysicsState {
    type V = AvoxelPhysicsStates;

    closed spec fn view(&self) -> AvoxelPhysicsStates {
        self.state
    }
}

impl Default for AvoxelPhysicsState {
    /// The simulation starts active.
    fn default() -> (s: Self)
        ensures
            s@ == AvoxelPhysicsStates::Active,
    {
        Self { state: AvoxelPhysicsStates::Active }
    }
}

impl AvoxelPhysicsState {
    pub fn new(state: AvoxelPhysicsStates) -> (s: Self)
        ensures
            s@ == state,
    {
        Self { state }
    }

    pub fn pause(&mut self)
        ensures
            final(self)@ == AvoxelPhysicsStates::Paused,
    {
        self.state = AvoxelPhysicsStates::Paused;
    }

    pub fn resume(&mut self)
        ensures
            final(self)@ == AvoxelPhysicsStates::Active,
    {
        self.state = AvoxelPhysicsStates::Active;
    }

    pub fn paused(&self) -> (b: bool)
        ensures
            b == (self@ == AvoxelPhysicsStates::Paused),
    {
        self.state == AvoxelPhysicsStates::Paused
    }

    pub fn active(&self) -> (b: bool)
        ensures
            b == (self@ == AvoxelPhysicsStates::Active),
    {
        self.state == AvoxelPhysicsStates::Active
    }
}

} // verus!

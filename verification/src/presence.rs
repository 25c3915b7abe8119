//! Mount/open/close presence phases used by animated containers.
//!
//! The palette (and other transient surfaces) pass through four phases while
//! appearing and disappearing; the two predicates here tell a renderer
//! whether a transition is running and whether the element still needs to be
//! drawn at all.

use vstd::prelude::*;

verus! {

/// Spring stiffness presets for transform-only motion.
#[derive(Clone, Copy, Debug, PartialEq, Eq, Structural)]
pub enum SpringPreset {
    Mild,
    Medium,
}

/// Where an element stands in its enter/exit lifecycle.
#[derive(Clone, Copy, Debug, PartialEq, Eq, Structural)]
pub enum PresencePhase {
    Entering,
    Entered,
    Exiting,
    Exited,
}

/// The presence state handed to a renderer each frame.
#[derive(Clone, Copy, Debug)]
pub struct PresenceTransition {
    pub phase: PresencePhase,
}

impl PresenceTransition {
    /// A transition animation is running exactly while entering or exiting.
    pub fn transition_active(self) -> (r: bool)
        ensures
            r == (self.phase == PresencePhase::Entering || self.phase == PresencePhase::Exiting),
    {
        match self.phase {
            PresencePhase::Entering | PresencePhase::Exiting => true,
            _ => false,
        }
    }

    /// The element must be drawn in every phase but `Exited`.
    pub fn should_render(self) -> (r: bool)
        ensures
            r == (self.phase != PresencePhase::Exited),
    {
        match self.phase {
            PresencePhase::Exited => false,
            _ => true,
        }
    }
}

/// Options controlling how presence starts when an element first mounts.
#[derive(Clone, Copy, Debug)]
pub struct PresenceOptions {
    pub animate_on_mount: bool,
}

impl Default for PresenceOptions {
    fn default() -> (r: Self)
        ensures
            !r.animate_on_mount,
    {
        PresenceOptions { animate_on_mount: false }
    }
}

} // verus!

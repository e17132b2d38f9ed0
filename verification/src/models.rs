//! Animation catalogue for the presentation layer: which clips the actor
//! and bomb models expose, and the graph node each clip occupies. The
//! driving layer turns these indices into its asset handles.

use vstd::prelude::*;

verus! {

/// The clips an actor model plays.
#[derive(Clone, Copy, PartialEq, Eq, Structural, Debug)]
pub enum AnimalAnimation {
    Run,
    Walk,
    Idle,
    Jump,
}

impl AnimalAnimation {
    /// Index of this clip's animation inside the actor model's asset.
    pub fn to_gltf_animation_index(self) -> (r: usize)
        ensures
            r == match self {
                AnimalAnimation::Run => 13int,
                AnimalAnimation::Walk => 16int,
                AnimalAnimation::Idle => 8int,
                AnimalAnimation::Jump => 11int,
            },
    {
        match self {
            AnimalAnimation::Run => 13,
            AnimalAnimation::Walk => 16,
            AnimalAnimation::Idle => 8,
            AnimalAnimation::Jump => 11,
        }
    }

    /// Node of this clip in the animation graph built from the clip list in
    /// declaration order (node 0 is the graph root).
    pub fn to_node_index(self) -> (r: usize)
        ensures
            r == match self {
                AnimalAnimation::Run => 1int,
                AnimalAnimation::Walk => 2int,
                AnimalAnimation::Idle => 3int,
                AnimalAnimation::Jump => 4int,
            },
    {
        match self {
            AnimalAnimation::Run => 1,
            AnimalAnimation::Walk => 2,
            AnimalAnimation::Idle => 3,
            AnimalAnimation::Jump => 4,
        }
    }
}

/// The clips a bomb model plays.
#[derive(Clone, Copy, PartialEq, Eq, Structural, Debug)]
pub enum BombAnimation {
    Pulsate,
}

impl BombAnimation {
    /// Index of this clip's animation inside the bomb model's asset.
    pub fn to_gltf_animation_index(self) -> (r: usize)
        ensures
            r == 0,
    {
        match self {
            BombAnimation::Pulsate => 0,
        }
    }

    /// Node of this clip in the animation graph built from the clip list.
    pub fn to_node_index(self) -> (r: usize)
        ensures
            r == 1,
    {
        match self {
            BombAnimation::Pulsate => 1,
        }
    }
}

} // verus!

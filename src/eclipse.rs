//! The eclipse constraint: the observer must not stand in the Earth's shadow.
use vstd::prelude::*;

verus! {

/// Where the observer stands relative to the Earth's shadow cones.
#[derive(Clone, Copy, Debug, PartialEq, Eq, Structural)]
pub enum ShadowState {
    /// Inside the umbra: the Sun is fully hidden.
    Umbra,
    /// Inside the penumbra but not the umbra: the Sun is partly hidden.
    Penumbra,
    /// Outside both cones, or on the day side.
    Sunlit,
}

/// Configuration of the eclipse constraint.
#[derive(Clone, Copy, Debug, PartialEq, Eq, Structural)]
pub struct EclipseConfig {
    /// Only the umbra counts as a violation (true), or the penumbra too (false).
    pub umbra_only: bool,
}

/// Evaluator of the eclipse constraint.
#[derive(Clone, Copy, Debug, PartialEq, Eq, Structural)]
pub struct EclipseEvaluator {
    pub umbra_only: bool,
}

/// The name of an eclipse evaluator.
pub open spec fn eclipse_name(umbra_only: bool) -> Seq<char> {
    if umbra_only {
        "Eclipse(umbra)"@
    } else {
        "Eclipse(umbra+penumbra)"@
    }
}

impl EclipseConfig {
    /// The evaluator of this configuration.
    pub fn to_evaluator(&self) -> (r: EclipseEvaluator)
        ensures
            r.umbra_only == self.umbra_only,
    {
        EclipseEvaluator { umbra_only: self.umbra_only }
    }

    /// The name of the constraint.
    pub fn name(&self) -> (r: String)
        ensures
            r@ == eclipse_name(self.umbra_only),
    {
        self.to_evaluator().name()
    }
}

impl EclipseEvaluator {
    /// The name of the constraint: which cones count.
    pub fn name(&self) -> (r: String)
        ensures
            r@ == eclipse_name(self.umbra_only),
    {
        if self.umbra_only {
            String::from_str("Eclipse(umbra)")
        } else {
            String::from_str("Eclipse(umbra+penumbra)")
        }
    }

    /// The description of every violation window of this evaluator.
    pub fn violation_description(&self) -> (r: String)
        ensures
            r@ == (if self.umbra_only {
                "Observer in umbra"@
            } else {
                "Observer in shadow"@
            }),
    {
        if self.umbra_only {
            String::from_str("Observer in umbra")
        } else {
            String::from_str("Observer in shadow")
        }
    }

    /// Classifies the observer from its place relative to the cones: the umbra
    /// wins over the penumbra, and outside both it is sunlit.  On the day side
    /// neither cone holds the observer.
    pub fn shadow_state(&self, in_umbra_cone: bool, in_penumbra_cone: bool) -> (r: ShadowState)
        ensures
            r == (if in_umbra_cone {
                ShadowState::Umbra
            } else if in_penumbra_cone {
                ShadowState::Penumbra
            } else {
                ShadowState::Sunlit
            }),
    {
        if in_umbra_cone {
            ShadowState::Umbra
        } else if in_penumbra_cone {
            ShadowState::Penumbra
        } else {
            ShadowState::Sunlit
        }
    }

    /// Whether a sample in state `state` is violated: the umbra always, the
    /// penumbra only when it counts.
    pub fn is_violated(&self, state: ShadowState) -> (r: bool)
        ensures
            r == (state == ShadowState::Umbra || (state == ShadowState::Penumbra && !self.umbra_only)),
    {
        match state {
            ShadowState::Umbra => true,
            ShadowState::Penumbra => !self.umbra_only,
            ShadowState::Sunlit => false,
        }
    }
}

} // verus!

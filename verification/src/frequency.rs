//! The grid frequency shared by every microgrid of an enterprise.

use crate::scalar::Scalar;
use vstd::prelude::*;

verus! {

/// What drives the frequency: where it is pulled, how fast, and how much it
/// wanders.
#[derive(Clone, Copy, Debug, PartialEq, Eq, Structural)]
pub struct FrequencyModel {
    pub nominal_hz: Scalar,
    pub mean_rev_rate: Scalar,
    pub sigma: Scalar,
}

/// 50 Hz, pulled back at 0.05 per second, wandering by 0.015 Hz.
#[verifier::allow_in_spec]
pub fn default_model() -> FrequencyModel
    returns
        (FrequencyModel {
            nominal_hz: Scalar { bits: 0x4248_0000 },
            mean_rev_rate: Scalar { bits: 0x3d4c_cccd },
            sigma: Scalar { bits: 0x3c75_c28f },
        }),
{
    FrequencyModel {
        nominal_hz: Scalar { bits: 0x4248_0000 },
        mean_rev_rate: Scalar { bits: 0x3d4c_cccd },
        sigma: Scalar { bits: 0x3c75_c28f },
    }
}

#[derive(Clone, Copy, Debug, PartialEq)]
pub struct FrequencyState {
    pub base: FrequencyModel,
    /// Takes the base's place while a scenario sets it.
    pub override_model: Option<FrequencyModel>,
    pub current_hz: Scalar,
}

impl FrequencyState {
    pub fn new() -> (out: Self)
        ensures
            out == (FrequencyState {
                base: default_model(),
                override_model: None,
                current_hz: default_model().nominal_hz,
            }),
    {
        FrequencyState {
            base: default_model(),
            override_model: None,
            current_hz: default_model().nominal_hz,
        }
    }

    pub open spec fn spec_active(self) -> FrequencyModel {
        match self.override_model {
            Some(m) => m,
            None => self.base,
        }
    }

    /// The override where it is set, else the base.
    pub fn active_model(&self) -> (out: FrequencyModel)
        ensures
            out == self.spec_active(),
    {
        match self.override_model {
            Some(m) => m,
            None => self.base,
        }
    }

    /// Where a step starts: the current frequency, or the nominal one where
    /// the current is not finite.
    pub open spec fn spec_healed(self) -> Scalar {
        if self.current_hz.spec_is_finite() {
            self.current_hz
        } else {
            self.spec_active().nominal_hz
        }
    }

    /// One step of the active model, `evolve` giving the next frequency.
    pub fn step<E: Fn(Scalar, FrequencyModel) -> Scalar>(&mut self, evolve: &E)
        requires
            forall|hz: Scalar, m: FrequencyModel| call_requires(*evolve, (hz, m)),
        ensures
            *final(self) == (FrequencyState { current_hz: final(self).current_hz, ..*old(self) }),
            call_ensures(
                *evolve,
                (old(self).spec_healed(), old(self).spec_active()),
                final(self).current_hz,
            ),
    {
        let m = self.active_model();
        let start = if self.current_hz.is_finite() {
            self.current_hz
        } else {
            m.nominal_hz
        };
        self.current_hz = evolve(start, m);
    }

    pub fn read_hz(&self) -> (out: Scalar)
        ensures
            out == self.current_hz,
    {
        self.current_hz
    }
}

impl Default for FrequencyState {
    fn default() -> (out: Self)
        ensures
            out == (FrequencyState {
                base: default_model(),
                override_model: None,
                current_hz: default_model().nominal_hz,
            }),
    {
        FrequencyState::new()
    }
}

/// An override switches the dynamics, not the value, and clearing it hands
/// them back to the base.
pub proof fn override_switches_dynamics_only(state: FrequencyState, model: FrequencyModel)
    ensures
        (FrequencyState { override_model: Some(model), ..state }).spec_active() == model,
        (FrequencyState { override_model: None, ..state }).spec_active() == state.base,
        state.current_hz.spec_is_finite() ==> (FrequencyState {
            override_model: Some(model),
            ..state
        }).spec_healed() == state.spec_healed(),
{
}

/// A step starts at the current frequency; where that is not a number to go on
/// from, at the nominal frequency of the dynamics in force. So it starts at a
/// finite value wherever the nominal one is finite.
pub proof fn step_starts_from_a_finite_value(state: FrequencyState)
    ensures
        state.current_hz.spec_is_finite() ==> state.spec_healed() == state.current_hz,
        !state.current_hz.spec_is_finite() && state.override_model is None ==> state.spec_healed()
            == state.base.nominal_hz,
        !state.current_hz.spec_is_finite() ==> (state.override_model matches Some(m)
            ==> state.spec_healed() == m.nominal_hz),
        state.spec_active().nominal_hz.spec_is_finite() ==> state.spec_healed().spec_is_finite(),
{
}

} // verus!

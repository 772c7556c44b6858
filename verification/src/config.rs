//! User configuration: a partial probability mapping, per-session slot
//! counts, and the clipboard preference.
//!
//! Probabilities are integer weights in units of `1 / WEIGHT_SCALE`, indexed
//! in catalog order; an absent entry (`None`) is filled by sanitization.

use vstd::prelude::*;

verus! {

use crate::catalog::{all_options, WeatherOptions, NUM_OPTIONS};

/// A structural misconfiguration, rejected when a forecaster is built.
#[derive(Clone, Copy, Debug, PartialEq, Eq, Structural)]
pub enum ConfigError {
    /// Every condition was given an explicit weight and all of them are zero,
    /// so no draw could ever select anything.
    NoProbabilityMass,
    /// All probability weight sits on rain conditions, so a dry-only draw,
    /// which a rain-free Race forces on the other sessions, could never
    /// finish.
    AllWeightOnRain,
}

/// The forecaster's configuration.
pub struct Config {
    /// Weight per catalog condition, in catalog order; `None` means the
    /// condition was not configured and receives an equal share of the
    /// remaining probability mass.
    pub probabilities: Vec<Option<u64>>,
    /// Weather slots for Practice, clamped to 1..=4; `None` means default (4).
    pub practice_slots: Option<usize>,
    /// Weather slots for Qualifying, clamped to 1..=4; `None` means default (2).
    pub qualifying_slots: Option<usize>,
    /// Weather slots for Race, clamped to 1..=4; `None` means default (4).
    pub race_slots: Option<usize>,
    /// Whether the rendered forecast should be offered to the clipboard.
    pub set_clipboard: bool,
}

impl Config {
    /// One weight entry for every catalog condition.
    pub open spec fn wf(self) -> bool {
        self.probabilities@.len() == NUM_OPTIONS
    }
}

impl Default for Config {
    /// The default configuration: every condition at its catalog default
    /// weight, slot counts Practice 4, Qualifying 2, Race 4, no clipboard.
    fn default() -> (c: Config)
        ensures
            c.wf(),
            forall|j: int|
                0 <= j < NUM_OPTIONS ==> c.probabilities@[j] == Some(
                    all_options()[j].default_weight_spec(),
                ),
            c.practice_slots == Some(4usize),
            c.qualifying_slots == Some(2usize),
            c.race_slots == Some(4usize),
            c.set_clipboard == false,
    {
        let defaults = WeatherOptions::get_default_probablities();
        let mut probabilities: Vec<Option<u64>> = Vec::new();
        let mut i: usize = 0;
        while i < NUM_OPTIONS
            invariant
                defaults@.len() == NUM_OPTIONS,
                forall|j: int|
                    0 <= j < NUM_OPTIONS ==> defaults@[j] == all_options()[j].default_weight_spec(),
                i <= NUM_OPTIONS,
                probabilities@.len() == i,
                forall|j: int|
                    0 <= j < i ==> probabilities@[j] == Some(
                        all_options()[j].default_weight_spec(),
                    ),
            decreases NUM_OPTIONS - i,
        {
            probabilities.push(Some(defaults[i]));
            i = i + 1;
        }
        Config {
            probabilities,
            practice_slots: Some(4),
            qualifying_slots: Some(2),
            race_slots: Some(4),
            set_clipboard: false,
        }
    }
}

} // verus!

//! What the user has set for the finder.

use vstd::prelude::*;

verus! {

/// The settings of the finder.
#[derive(Debug, Clone, Copy, PartialEq, Eq)]
pub struct FuzzyConfig {
    /// Whether the finder offers to create the tab that the query names.
    pub create_tab: bool,
}

impl Default for FuzzyConfig {
    fn default() -> (r: Self)
        ensures
            r.create_tab,
    {
        FuzzyConfig { create_tab: true }
    }
}

/// The settings to use, given what came of reading the configuration: those that were read, or
/// the default ones where reading failed.
pub fn load_fuzzy_config<E>(loaded: Result<FuzzyConfig, E>) -> (r: FuzzyConfig)
    ensures
        loaded matches Ok(config) ==> r == config,
        loaded is Err ==> r == (FuzzyConfig { create_tab: true }),
{
    match loaded {
        Ok(config) => config,
        Err(_) => FuzzyConfig::default(),
    }
}

} // verus!

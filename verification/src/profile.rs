//! The distribution a spec file is checked for.
use vstd::prelude::*;

verus! {

#[derive(Clone, Copy, Debug, PartialEq, Eq, Structural)]
pub enum Family {
    Fedora,
    Rhel,
    Opensuse,
    Alt,
    Mageia,
    Generic,
}

/// What is known of the distribution.
#[derive(Debug)]
pub struct Profile {
    pub family: Option<Family>,
    /// The names of the macros it defines.
    pub macros: Vec<String>,
    /// The `rpmlib(...)` features its rpm advertises.
    pub rpmlib_features: Vec<String>,
    /// The architectures it builds for.
    pub arch_universe: Option<Vec<String>>,
}

impl Profile {
    /// A distribution of which nothing is known.
    pub fn new() -> (r: Profile)
        ensures
            r.family is None,
            r.macros@.len() == 0,
            r.rpmlib_features@.len() == 0,
            r.arch_universe is None,
    {
        Profile {
            family: None,
            macros: Vec::new(),
            rpmlib_features: Vec::new(),
            arch_universe: None,
        }
    }
}

impl Default for Profile {
    fn default() -> (r: Profile)
        ensures
            r.family is None,
            r.macros@.len() == 0,
            r.rpmlib_features@.len() == 0,
            r.arch_universe is None,
    {
        Profile::new()
    }
}

} // verus!

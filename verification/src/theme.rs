//! The light/dark appearance choice.
use vstd::prelude::*;

verus! {

/// The colour scheme of the workbench.
#[derive(Debug, Clone, Copy, PartialEq, Eq, Structural)]
pub enum ThemeMode {
    Light,
    Dark,
}

impl Default for ThemeMode {
    fn default() -> (r: Self)
        ensures
            r == ThemeMode::Light,
    {
        ThemeMode::Light
    }
}

impl ThemeMode {
    /// Whether this is the dark scheme.
    pub fn is_dark(&self) -> (r: bool)
        ensures
            r == (*self == ThemeMode::Dark),
    {
        matches!(self, ThemeMode::Dark)
    }

    /// Switches to the other scheme.
    pub fn toggle(&mut self)
        ensures
            *final(self) == (if *old(self) == ThemeMode::Light { ThemeMode::Dark } else { ThemeMode::Light }),
    {
        *self = match self {
            ThemeMode::Light => ThemeMode::Dark,
            ThemeMode::Dark => ThemeMode::Light,
        };
    }

    /// The scheme's name as shown in the menu.
    pub fn label(&self) -> (r: &'static str)
        ensures
            r@ == (if *self == ThemeMode::Light { "Light (Warm Paper)"@ } else { "Dark (Cyber Dark)"@ }),
    {
        match self {
            ThemeMode::Light => "Light (Warm Paper)",
            ThemeMode::Dark => "Dark (Cyber Dark)",
        }
    }
}

/// Toggling twice gives the scheme back.
pub proof fn lemma_toggle_twice(m: ThemeMode)
    ensures
        (if (if m == ThemeMode::Light { ThemeMode::Dark } else { ThemeMode::Light }) == ThemeMode::Light {
            ThemeMode::Dark
        } else {
            ThemeMode::Light
        }) == m,
{
}

} // verus!

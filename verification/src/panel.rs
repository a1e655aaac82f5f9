//! Which tab the workbench's left panel shows.
use vstd::prelude::*;

verus! {

/// The tabs of the left panel.
#[derive(Debug, Clone, Copy, PartialEq, Eq, Structural)]
pub enum LeftPanelTab {
    Components,
    Properties,
}

} // verus!

//! The HDL export window's state.
use vstd::prelude::*;
use crate::graph::Circuit;
use crate::hdl::{spec_verilog, spec_vhdl, HdlExporter};

verus! {

/// Which language the export window shows.
#[derive(Debug, PartialEq, Eq, Structural)]
pub enum HdlTab {
    Verilog,
    Vhdl,
}

/// The export window: its tab, the module name, and the generated texts.
pub struct HdlUiState {
    pub is_open: bool,
    pub active_tab: HdlTab,
    pub module_name: String,
    pub generated_verilog: String,
    pub generated_vhdl: String,
    pub feedback_msg: Option<String>,
}

impl Default for HdlUiState {
    fn default() -> (r: Self)
        ensures
            !r.is_open,
            r.active_tab == HdlTab::Verilog,
            r.module_name@ == "circuit_top"@,
            r.generated_verilog@ == Seq::<char>::empty(),
            r.generated_vhdl@ == Seq::<char>::empty(),
            r.feedback_msg is None,
    {
        HdlUiState {
            is_open: false,
            active_tab: HdlTab::Verilog,
            module_name: String::from_str("circuit_top"),
            generated_verilog: String::new(),
            generated_vhdl: String::new(),
            feedback_msg: None,
        }
    }
}

impl HdlUiState {
    /// Opens the window and generates both texts.
    pub fn open(&mut self, circuit: &Circuit)
        ensures
            final(self).is_open,
            final(self).feedback_msg is None,
            final(self).active_tab == old(self).active_tab,
            final(self).module_name == old(self).module_name,
            final(self).generated_verilog@ == spec_verilog(*circuit, old(self).module_name@),
            final(self).generated_vhdl@ == spec_vhdl(*circuit, old(self).module_name@),
    {
        self.is_open = true;
        self.feedback_msg = None;
        self.regenerate(circuit);
    }

    /// Regenerates the Verilog and VHDL texts for the module name.
    pub fn regenerate(&mut self, circuit: &Circuit)
        ensures
            final(self).is_open == old(self).is_open,
            final(self).feedback_msg == old(self).feedback_msg,
            final(self).active_tab == old(self).active_tab,
            final(self).module_name == old(self).module_name,
            final(self).generated_verilog@ == spec_verilog(*circuit, old(self).module_name@),
            final(self).generated_vhdl@ == spec_vhdl(*circuit, old(self).module_name@),
    {
        self.generated_verilog = HdlExporter::to_verilog(circuit, self.module_name.as_str());
        self.generated_vhdl = HdlExporter::to_vhdl(circuit, self.module_name.as_str());
    }
}

} // verus!

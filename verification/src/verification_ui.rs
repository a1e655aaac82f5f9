//! Truth-table verification sessions: generating a table for the circuit,
//! comparing it with a target gate, and the universal-gate challenges.
use vstd::prelude::*;
use crate::component::{spec_display_name, spec_short_code, GateKind};
use crate::graph::{Circuit, ComponentId, DEFAULT_CLOCK_HZ_BITS};
use crate::sim::{lib_ok_for, Simulator};
use crate::text::{append_decimal, append_str, spec_decimal};
use crate::verify::{
    filter_view, io_keys, io_names, spec_detect, spec_message, spec_mismatches, spec_reference, table_rows, CircuitIO,
    MismatchView, TruthTable, TruthTableDiff, TruthTableGenerator, mismatch_view,
};

verus! {

/// Build a gate from only NAND or only NOR gates.
#[derive(Debug, Clone, Copy, PartialEq, Eq, Structural)]
pub enum UniversalChallenge {
    NotFromNand,
    AndFromNand,
    OrFromNand,
    XorFromNand,
    NotFromNor,
    OrFromNor,
    AndFromNor,
    XorFromNor,
}

/// The kind a challenge asks for.
pub open spec fn spec_target_kind(c: UniversalChallenge) -> GateKind {
    match c {
        UniversalChallenge::NotFromNand | UniversalChallenge::NotFromNor => GateKind::Not,
        UniversalChallenge::AndFromNand | UniversalChallenge::AndFromNor => GateKind::And,
        UniversalChallenge::OrFromNand | UniversalChallenge::OrFromNor => GateKind::Or,
        UniversalChallenge::XorFromNand | UniversalChallenge::XorFromNor => GateKind::Xor,
    }
}

/// The only gate a challenge allows.
pub open spec fn spec_allowed_gate(c: UniversalChallenge) -> GateKind {
    match c {
        UniversalChallenge::NotFromNand | UniversalChallenge::AndFromNand | UniversalChallenge::OrFromNand
        | UniversalChallenge::XorFromNand => GateKind::Nand,
        _ => GateKind::Nor,
    }
}

impl UniversalChallenge {
    /// Every challenge, in menu order.
    pub const ALL: [UniversalChallenge; 8] = [
        UniversalChallenge::NotFromNand,
        UniversalChallenge::AndFromNand,
        UniversalChallenge::OrFromNand,
        UniversalChallenge::XorFromNand,
        UniversalChallenge::NotFromNor,
        UniversalChallenge::OrFromNor,
        UniversalChallenge::AndFromNor,
        UniversalChallenge::XorFromNor,
    ];

    /// The challenge's title.
    pub fn title(self) -> (r: &'static str)
        ensures
            r@ == match self {
                UniversalChallenge::NotFromNand => "NOT from NAND"@,
                UniversalChallenge::AndFromNand => "AND from NAND"@,
                UniversalChallenge::OrFromNand => "OR from NAND"@,
                UniversalChallenge::XorFromNand => "XOR from NAND"@,
                UniversalChallenge::NotFromNor => "NOT from NOR"@,
                UniversalChallenge::OrFromNor => "OR from NOR"@,
                UniversalChallenge::AndFromNor => "AND from NOR"@,
                UniversalChallenge::XorFromNor => "XOR from NOR"@,
            },
    {
        match self {
            UniversalChallenge::NotFromNand => "NOT from NAND",
            UniversalChallenge::AndFromNand => "AND from NAND",
            UniversalChallenge::OrFromNand => "OR from NAND",
            UniversalChallenge::XorFromNand => "XOR from NAND",
            UniversalChallenge::NotFromNor => "NOT from NOR",
            UniversalChallenge::OrFromNor => "OR from NOR",
            UniversalChallenge::AndFromNor => "AND from NOR",
            UniversalChallenge::XorFromNor => "XOR from NOR",
        }
    }

    /// The kind to build.
    pub fn target_kind(self) -> (r: GateKind)
        ensures
            r == spec_target_kind(self),
    {
        match self {
            UniversalChallenge::NotFromNand | UniversalChallenge::NotFromNor => GateKind::Not,
            UniversalChallenge::AndFromNand | UniversalChallenge::AndFromNor => GateKind::And,
            UniversalChallenge::OrFromNand | UniversalChallenge::OrFromNor => GateKind::Or,
            UniversalChallenge::XorFromNand | UniversalChallenge::XorFromNor => GateKind::Xor,
        }
    }

    /// The kind to build.it from.
    pub fn allowed_gate(self) -> (r: GateKind)
        ensures
            r == spec_allowed_gate(self),
    {
        match self {
            UniversalChallenge::NotFromNand
            | UniversalChallenge::AndFromNand
            | UniversalChallenge::OrFromNand
            | UniversalChallenge::XorFromNand => GateKind::Nand,
            UniversalChallenge::NotFromNor
            | UniversalChallenge::OrFromNor
            | UniversalChallenge::AndFromNor
            | UniversalChallenge::XorFromNor => GateKind::Nor,
        }
    }

    /// What the challenge asks for.
    pub fn description(self) -> (r: &'static str)
        ensures
            r@ == match self {
                UniversalChallenge::NotFromNand => "Construct a NOT inverter using only 1 NAND gate."@,
                UniversalChallenge::AndFromNand => "Construct an AND gate using 2 NAND gates."@,
                UniversalChallenge::OrFromNand => "Construct an OR gate using 3 NAND gates (De Morgan's law)."@,
                UniversalChallenge::XorFromNand => "Construct an XOR gate using 4 NAND gates."@,
                UniversalChallenge::NotFromNor => "Construct a NOT inverter using only 1 NOR gate."@,
                UniversalChallenge::OrFromNor => "Construct an OR gate using 2 NOR gates."@,
                UniversalChallenge::AndFromNor => "Construct an AND gate using 3 NOR gates (De Morgan's law)."@,
                UniversalChallenge::XorFromNor => "Construct an XOR gate using 4 or 5 NOR gates."@,
            },
    {
        match self {
            UniversalChallenge::NotFromNand => "Construct a NOT inverter using only 1 NAND gate.",
            UniversalChallenge::AndFromNand => "Construct an AND gate using 2 NAND gates.",
            UniversalChallenge::OrFromNand => "Construct an OR gate using 3 NAND gates (De Morgan's law).",
            UniversalChallenge::XorFromNand => "Construct an XOR gate using 4 NAND gates.",
            UniversalChallenge::NotFromNor => "Construct a NOT inverter using only 1 NOR gate.",
            UniversalChallenge::OrFromNor => "Construct an OR gate using 2 NOR gates.",
            UniversalChallenge::AndFromNor => "Construct an AND gate using 3 NOR gates (De Morgan's law).",
            UniversalChallenge::XorFromNor => "Construct an XOR gate using 4 or 5 NOR gates.",
        }
    }
}

/// A comparison result describes the mismatches of `actual` against
/// `expected` (see `TruthTable::diff`).
pub open spec fn diff_describes(d: TruthTableDiff, actual: Seq<(Seq<Signal>, Seq<Signal>)>, expected: Seq<(Seq<Signal>, Seq<Signal>)>) -> bool {
    &&& d.total_rows == actual.len()
    &&& Seq::new(d.mismatches@.len(), |i: int| mismatch_view(d.mismatches@[i])) == spec_mismatches(actual, expected, actual.len() as int)
    &&& d.is_match == (d.mismatches@.len() == 0)
}

/// The state of the truth-table window.
pub struct VerificationUiState {
    pub is_open: bool,
    pub current_table: Option<TruthTable>,
    pub current_io: Option<CircuitIO>,
    pub error_message: Option<String>,
    pub verification_mode: bool,
    pub expected_target: GateKind,
    pub diff_result: Option<TruthTableDiff>,
    pub active_challenge: Option<UniversalChallenge>,
    pub challenge_feedback: Option<(bool, String)>,
}

impl Default for VerificationUiState {
    fn default() -> (r: Self)
        ensures
            !r.is_open,
            r.current_table is None,
            r.current_io is None,
            r.error_message is None,
            !r.verification_mode,
            r.expected_target == GateKind::And,
            r.diff_result is None,
            r.active_challenge is None,
            r.challenge_feedback is None,
    {
        VerificationUiState {
            is_open: false,
            current_table: None,
            current_io: None,
            error_message: None,
            verification_mode: false,
            expected_target: GateKind::And,
            diff_result: None,
            active_challenge: None,
            challenge_feedback: None,
        }
    }
}

/// The table generated for a circuit has these names and rows.
pub open spec fn table_is(t: TruthTable, io: CircuitIO, v: (Seq<(u64, Seq<char>)>, Seq<(u64, Seq<char>)>, Seq<usize>), c: Circuit) -> bool {
    &&& io.inputs_view() == v.0
    &&& io.outputs_view() == v.1
    &&& io.input_ports@ == v.2
    &&& t.inputs_view() == io_names(v.0)
    &&& t.outputs_view() == io_names(v.1)
    &&& t.rows_view() == table_rows(c.comps(), c.net_seq(), c.subcircuits@, io_keys(v.0), v.2, io_keys(v.1))
}

/// The message for a passed challenge.
pub open spec fn pass_message(c: UniversalChallenge) -> Seq<char> {
    "CHALLENGE PASSED! Successfully constructed "@ + spec_display_name(spec_target_kind(c)) + " using "@ + spec_short_code(
        spec_allowed_gate(c),
    ) + " gates."@
}

/// The message for a failed challenge with `m` mismatches out of `total`
/// rows.
pub open spec fn fail_message(c: UniversalChallenge, m: nat, total: nat) -> Seq<char> {
    "Verification Failed: "@ + spec_decimal(m) + " / "@ + spec_decimal(total) + " output combinations mismatch target "@
        + spec_display_name(spec_target_kind(c)) + "."@
}

use crate::signal::Signal;

impl VerificationUiState {
    /// In verification mode, compares the current table (if any) with the
    /// reference table of the expected gate; otherwise clears the
    /// comparison.
    pub fn update_diff(&mut self)
        ensures
            final(self).is_open == old(self).is_open,
            final(self).current_table == old(self).current_table,
            final(self).current_io == old(self).current_io,
            final(self).error_message == old(self).error_message,
            final(self).verification_mode == old(self).verification_mode,
            final(self).expected_target == old(self).expected_target,
            final(self).active_challenge == old(self).active_challenge,
            final(self).challenge_feedback == old(self).challenge_feedback,
            !old(self).verification_mode ==> final(self).diff_result is None,
            old(self).verification_mode && old(self).current_table is None ==> final(self).diff_result == old(self).diff_result,
            old(self).verification_mode ==> (old(self).current_table matches Some(t) ==> (final(self).diff_result matches Some(d)
                && diff_describes(d, t.rows_view(), spec_reference(old(self).expected_target).2))),
    {
        if self.verification_mode {
            match &self.current_table {
                Some(table) => {
                    let ref_table = TruthTableGenerator::reference_table(self.expected_target.clone());
                    let d = table.diff(&ref_table);
                    self.diff_result = Some(d);
                },
                None => {},
            }
        } else {
            self.diff_result = None;
        }
    }

    /// Generates the truth table of the circuit (of the selected
    /// components, when any are selected) and refreshes the comparison; on
    /// failure records the error and clears the table.
    pub fn generate_from_circuit(&mut self, circuit: &Circuit, selected_components: &Vec<ComponentId>)
        requires
            spec_detect(
                circuit.comps(),
                circuit.net_seq(),
                filter_view(if selected_components@.len() == 0 { None } else { Some(selected_components) }),
            ) is Ok ==> lib_ok_for(circuit.comps(), circuit.subcircuits@),
        ensures
            ({
                let filter = if selected_components@.len() == 0 { None } else { Some(selected_components) };
                match spec_detect(circuit.comps(), circuit.net_seq(), filter_view(filter)) {
                    Ok(v) => {
                        &&& final(self).current_table matches Some(t)
                        &&& final(self).current_io matches Some(io)
                        &&& table_is(t, io, v, *circuit)
                        &&& final(self).error_message is None
                        &&& !final(self).verification_mode ==> final(self).diff_result is None
                        &&& final(self).verification_mode ==> (final(self).diff_result matches Some(d) && diff_describes(
                            d,
                            t.rows_view(),
                            spec_reference(final(self).expected_target).2,
                        ))
                    },
                    Err(e) => {
                        &&& final(self).error_message matches Some(m)
                        &&& m@ == spec_message(e)
                        &&& final(self).current_table is None
                        &&& final(self).current_io is None
                        &&& final(self).diff_result is None
                    },
                }
            }),
            final(self).verification_mode == old(self).verification_mode,
            final(self).expected_target == old(self).expected_target,
            final(self).is_open == old(self).is_open,
            final(self).active_challenge == old(self).active_challenge,
            final(self).challenge_feedback == old(self).challenge_feedback,
    {
        let filter = if selected_components.len() == 0 { None } else { Some(selected_components) };
        match TruthTableGenerator::generate(circuit, filter) {
            Ok((table, io)) => {
                self.current_table = Some(table);
                self.current_io = Some(io);
                self.error_message = None;
                self.update_diff();
            },
            Err(e) => {
                self.error_message = Some(e.message());
                self.current_table = None;
                self.current_io = None;
                self.diff_result = None;
            },
        }
    }

    /// Checks the circuit against the active challenge's target gate and
    /// records the verdict; without an active challenge nothing changes.
    pub fn verify_current_challenge(&mut self, circuit: &Circuit)
        requires
            old(self).active_challenge is Some && spec_detect(circuit.comps(), circuit.net_seq(), None) is Ok
                ==> lib_ok_for(circuit.comps(), circuit.subcircuits@),
        ensures
            old(self).active_challenge is None ==> *final(self) == *old(self),
            old(self).active_challenge matches Some(ch) ==> match spec_detect(circuit.comps(), circuit.net_seq(), None) {
                Ok(v) => {
                    &&& final(self).current_table matches Some(t)
                    &&& final(self).current_io matches Some(io)
                    &&& table_is(t, io, v, *circuit)
                    &&& final(self).diff_result matches Some(d)
                    &&& diff_describes(d, t.rows_view(), spec_reference(spec_target_kind(ch)).2)
                    &&& final(self).challenge_feedback matches Some(f)
                    &&& f.0 == d.is_match
                    &&& f.1@ == if d.is_match {
                        pass_message(ch)
                    } else {
                        fail_message(ch, d.mismatches@.len() as nat, d.total_rows as nat)
                    }
                    &&& final(self).is_open
                    &&& *final(self) == (VerificationUiState {
                        current_table: final(self).current_table,
                        current_io: final(self).current_io,
                        diff_result: final(self).diff_result,
                        challenge_feedback: final(self).challenge_feedback,
                        is_open: true,
                        ..*old(self)
                    })
                },
                Err(e) => {
                    &&& final(self).challenge_feedback matches Some(f)
                    &&& !f.0
                    &&& f.1@ == "Cannot verify: "@ + spec_message(e)
                    &&& *final(self) == (VerificationUiState { challenge_feedback: final(self).challenge_feedback, ..*old(self) })
                },
            },
    {
        let challenge = match self.active_challenge {
            Some(c) => c,
            None => return,
        };
        match TruthTableGenerator::generate(circuit, None) {
            Ok((table, io)) => {
                let ref_table = TruthTableGenerator::reference_table(challenge.target_kind());
                let diff = table.diff(&ref_table);
                if diff.is_match {
                    let mut msg = String::from_str("CHALLENGE PASSED! Successfully constructed ");
                    let name = challenge.target_kind().display_name();
                    append_str(&mut msg, name.as_str());
                    append_str(&mut msg, " using ");
                    let code = challenge.allowed_gate().short_code();
                    append_str(&mut msg, code.as_str());
                    append_str(&mut msg, " gates.");
                    self.challenge_feedback = Some((true, msg));
                } else {
                    let mut msg = String::from_str("Verification Failed: ");
                    append_decimal(&mut msg, diff.mismatches.len() as u64);
                    append_str(&mut msg, " / ");
                    append_decimal(&mut msg, diff.total_rows as u64);
                    append_str(&mut msg, " output combinations mismatch target ");
                    let name = challenge.target_kind().display_name();
                    append_str(&mut msg, name.as_str());
                    append_str(&mut msg, ".");
                    self.challenge_feedback = Some((false, msg));
                }
                self.current_table = Some(table);
                self.current_io = Some(io);
                self.diff_result = Some(diff);
                self.is_open = true;
            },
            Err(e) => {
                let mut msg = String::from_str("Cannot verify: ");
                let m = e.message();
                append_str(&mut msg, m.as_str());
                self.challenge_feedback = Some((false, msg));
            },
        }
    }
}

} // verus!

verus! {

/// The components a challenge starts with, with their positions (`f32`
/// bit patterns): input switch A, input switch B (except for NOT), the
/// output LED, then the gates to wire.
pub open spec fn scaffold(c: UniversalChallenge) -> Seq<(GateKind, (u32, u32))> {
    let g = spec_allowed_gate(c);
    let io = if spec_target_kind(c) == GateKind::Not {
        seq![(GateKind::ToggleSwitch, (0x42c8_0000u32, 0x4320_0000u32)), (GateKind::Led, (0x43e1_0000u32, 0x4348_0000u32))]
    } else {
        seq![
            (GateKind::ToggleSwitch, (0x42c8_0000u32, 0x4320_0000u32)),
            (GateKind::ToggleSwitch, (0x42c8_0000u32, 0x4382_0000u32)),
            (GateKind::Led, (0x43e1_0000u32, 0x4348_0000u32)),
        ]
    };
    io + match c {
        UniversalChallenge::NotFromNand | UniversalChallenge::NotFromNor => seq![(g, (0x4382_0000u32, 0x4320_0000u32))],
        UniversalChallenge::AndFromNand | UniversalChallenge::OrFromNor => seq![
            (g, (0x4370_0000u32, 0x4348_0000u32)),
            (g, (0x43aa_0000u32, 0x4348_0000u32)),
        ],
        UniversalChallenge::OrFromNand | UniversalChallenge::AndFromNor => seq![
            (g, (0x435c_0000u32, 0x4316_0000u32)),
            (g, (0x435c_0000u32, 0x437a_0000u32)),
            (g, (0x43a5_0000u32, 0x4348_0000u32)),
        ],
        _ => seq![
            (g, (0x4348_0000u32, 0x4348_0000u32)),
            (g, (0x4391_0000u32, 0x430c_0000u32)),
            (g, (0x4391_0000u32, 0x4382_0000u32)),
            (g, (0x43be_0000u32, 0x4348_0000u32)),
        ],
    }
}

/// The nodes of a component list, in order.
pub open spec fn node_list(comps: Seq<(u64, crate::graph::NodeView)>) -> Seq<crate::graph::NodeView> {
    comps.map_values(|e: (u64, crate::graph::NodeView)| e.1)
}

/// The fresh nodes a challenge starts with.
pub open spec fn scaffold_nodes(c: UniversalChallenge) -> Seq<crate::graph::NodeView> {
    scaffold(c).map_values(|s: (GateKind, (u32, u32))| crate::graph::spec_new_node(s.0, s.1))
}

/// Places one fresh component.
fn place(circuit: &mut Circuit, kind: GateKind, pos: (u32, u32))
    requires
        old(circuit).comps().len() < 16,
    ensures
        node_list(final(circuit).comps()).to_multiset() == node_list(old(circuit).comps()).to_multiset().insert(
            crate::graph::spec_new_node(kind, pos),
        ),
        final(circuit).comps().len() == old(circuit).comps().len() + 1,
        final(circuit).net_seq() == old(circuit).net_seq(),
        final(circuit).subcircuits == old(circuit).subcircuits,
{
    let ghost c0 = circuit.comps();
    let id = circuit.add_component(kind, pos);
    proof {
        let node = crate::graph::spec_new_node(kind, pos);
        let i = choose|i: int| 0 <= i <= c0.len() && circuit.comps() == c0.insert(i, (id@, node));
        assert(node_list(circuit.comps()) =~= node_list(c0).insert(i, node));
        vstd::seq_lib::to_multiset_insert(node_list(c0), i, node);
    }
}

/// The placed nodes with one more fresh node; their multiset grows by it.
proof fn add_placed(placed: Seq<crate::graph::NodeView>, kind: GateKind, pos: (u32, u32)) -> (r: Seq<crate::graph::NodeView>)
    ensures
        r == placed.push(crate::graph::spec_new_node(kind, pos)),
        r.to_multiset() == placed.to_multiset().insert(crate::graph::spec_new_node(kind, pos)),
{
    vstd::seq_lib::to_multiset_build(placed, crate::graph::spec_new_node(kind, pos));
    placed.push(crate::graph::spec_new_node(kind, pos))
}

/// `100.0` etc. as `f32` bit patterns.
const X100: u32 = 0x42c8_0000u32;

impl VerificationUiState {
    /// Starts a challenge: the circuit is emptied and gets the challenge's
    /// switches, LED and gates (see `scaffold`), then settles; the target
    /// gate becomes the expected one and verification mode is on.
    pub fn load_challenge(&mut self, challenge: UniversalChallenge, circuit: &mut Circuit)
        ensures
            final(self).active_challenge == Some(challenge),
            final(self).challenge_feedback is None,
            final(self).verification_mode,
            final(self).expected_target == spec_target_kind(challenge),
            final(self).is_open == old(self).is_open,
            final(self).current_table == old(self).current_table,
            final(self).current_io == old(self).current_io,
            final(self).diff_result == old(self).diff_result,
            final(self).error_message == old(self).error_message,
            final(circuit).subcircuits == old(circuit).subcircuits,
            exists|c: Seq<(u64, crate::graph::NodeView)>| {
                &&& c.len() == scaffold(challenge).len()
                &&& node_list(c).to_multiset() == scaffold_nodes(challenge).to_multiset()
                &&& (final(circuit).comps(), final(circuit).net_seq()) == crate::sim::spec_settle(
                    c,
                    Seq::empty(),
                    old(circuit).subcircuits@,
                )
            },
    {
        crate::slots::component_slots_clear(&mut circuit.components);
        crate::slots::net_slots_clear(&mut circuit.nets);
        self.active_challenge = Some(challenge);
        self.challenge_feedback = None;
        self.verification_mode = true;
        self.expected_target = challenge.target_kind();
        let ghost sc = scaffold(challenge);
        let ghost mut placed: Seq<crate::graph::NodeView> = Seq::empty();
        proof {
            assert(node_list(circuit.comps()) =~= Seq::<crate::graph::NodeView>::empty());
            assert(node_list(circuit.comps()).to_multiset() =~= placed.to_multiset());
        }
        let is_single_input = matches!(challenge.target_kind(), GateKind::Not);
        let g = challenge.allowed_gate();
        place(circuit, GateKind::ToggleSwitch, (X100, 0x4320_0000u32));
        proof { placed = add_placed(placed, GateKind::ToggleSwitch, (X100, 0x4320_0000u32)); }
        if !is_single_input {
            place(circuit, GateKind::ToggleSwitch, (X100, 0x4382_0000u32));
            proof { placed = add_placed(placed, GateKind::ToggleSwitch, (X100, 0x4382_0000u32)); }
        }
        place(circuit, GateKind::Led, (0x43e1_0000u32, 0x4348_0000u32));
        proof { placed = add_placed(placed, GateKind::Led, (0x43e1_0000u32, 0x4348_0000u32)); }
        match challenge {
            UniversalChallenge::NotFromNand | UniversalChallenge::NotFromNor => {
                place(circuit, g.clone(), (0x4382_0000u32, 0x4320_0000u32));
                proof { placed = add_placed(placed, g, (0x4382_0000u32, 0x4320_0000u32)); }
            },
            UniversalChallenge::AndFromNand | UniversalChallenge::OrFromNor => {
                place(circuit, g.clone(), (0x4370_0000u32, 0x4348_0000u32));
                proof { placed = add_placed(placed, g, (0x4370_0000u32, 0x4348_0000u32)); }
                place(circuit, g.clone(), (0x43aa_0000u32, 0x4348_0000u32));
                proof { placed = add_placed(placed, g, (0x43aa_0000u32, 0x4348_0000u32)); }
            },
            UniversalChallenge::OrFromNand | UniversalChallenge::AndFromNor => {
                place(circuit, g.clone(), (0x435c_0000u32, 0x4316_0000u32));
                proof { placed = add_placed(placed, g, (0x435c_0000u32, 0x4316_0000u32)); }
                place(circuit, g.clone(), (0x435c_0000u32, 0x437a_0000u32));
                proof { placed = add_placed(placed, g, (0x435c_0000u32, 0x437a_0000u32)); }
                place(circuit, g.clone(), (0x43a5_0000u32, 0x4348_0000u32));
                proof { placed = add_placed(placed, g, (0x43a5_0000u32, 0x4348_0000u32)); }
            },
            UniversalChallenge::XorFromNand | UniversalChallenge::XorFromNor => {
                place(circuit, g.clone(), (0x4348_0000u32, 0x4348_0000u32));
                proof { placed = add_placed(placed, g, (0x4348_0000u32, 0x4348_0000u32)); }
                place(circuit, g.clone(), (0x4391_0000u32, 0x430c_0000u32));
                proof { placed = add_placed(placed, g, (0x4391_0000u32, 0x430c_0000u32)); }
                place(circuit, g.clone(), (0x4391_0000u32, 0x4382_0000u32));
                proof { placed = add_placed(placed, g, (0x4391_0000u32, 0x4382_0000u32)); }
                place(circuit, g.clone(), (0x43be_0000u32, 0x4348_0000u32));
                proof { placed = add_placed(placed, g, (0x43be_0000u32, 0x4348_0000u32)); }
            },
        }
        let ghost c = circuit.comps();
        proof {
            assert(placed =~= scaffold_nodes(challenge));
            assert forall|i: int| 0 <= i < c.len() implies !((#[trigger] c[i].1).kind is SubcircuitInstance) by {
                assert(node_list(c)[i] == c[i].1);
                vstd::seq_lib::to_multiset_contains(node_list(c), c[i].1);
                vstd::seq_lib::to_multiset_contains(placed, c[i].1);
                let j = choose|j: int| 0 <= j < placed.len() && placed[j] == c[i].1;
                assert(placed[j] == crate::graph::spec_new_node(sc[j].0, sc[j].1));
                assert(!(sc[j].0 is SubcircuitInstance));
            }
            assert(!crate::sim::has_instance(c));
            vstd::seq_lib::to_multiset_len(node_list(c));
            vstd::seq_lib::to_multiset_len(placed);
        }
        Simulator::settle(circuit);
    }
}

} // verus!

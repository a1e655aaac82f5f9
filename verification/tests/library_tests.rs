use logic_core::graph::Rotation;
use logic_core::hdl_ui::{HdlTab, HdlUiState};
use logic_core::theme::ThemeMode;
use logic_core::tools::SelectionState;
use logic_core::verification_ui::{UniversalChallenge, VerificationUiState};
use logic_core::waveform::{SignalHistory, WaveformState};
use logic_core::{
    id_suffix, sanitize_identifier, Circuit, CircuitIO, ClockEdge, ComponentNode, GateKind, HdlExporter,
    PortEndpoint, Signal, Simulator, TruthTable, TruthTableGenerator, TruthTableRow, VerifyError,
};
use std::collections::VecDeque;

fn p(x: f32, y: f32) -> (u32, u32) {
    (x.to_bits(), y.to_bits())
}

fn out(id: logic_core::ComponentId, port: usize) -> PortEndpoint {
    PortEndpoint { component_id: id, is_output: true, port_index: port }
}

fn inp(id: logic_core::ComponentId, port: usize) -> PortEndpoint {
    PortEndpoint { component_id: id, is_output: false, port_index: port }
}

fn bits(v: u32, n: usize) -> Vec<Signal> {
    (0..n).map(|i| if (v >> i) & 1 == 1 { Signal::One } else { Signal::Zero }).collect()
}

fn value(s: &[Signal]) -> u32 {
    s.iter().enumerate().map(|(i, b)| if *b == Signal::One { 1 << i } else { 0 }).sum()
}

#[test]
fn ripple_adder_adds_every_pair() {
    for a in 0..16u32 {
        for b in 0..16u32 {
            for c in 0..2u32 {
                let mut ins = bits(a, 4);
                ins.extend(bits(b, 4));
                ins.extend(bits(c, 1));
                let r = GateKind::RippleCarryAdder4.eval(&ins, false);
                assert_eq!(value(&r), a + b + c);
                let l = GateKind::CarryLookaheadAdder4.eval(&ins, false);
                assert_eq!(l, r);
            }
        }
    }
}

#[test]
fn half_and_full_adders_add() {
    for a in 0..2u32 {
        for b in 0..2u32 {
            let h = GateKind::HalfAdder.eval(&[bits(a, 1)[0], bits(b, 1)[0]], false);
            assert_eq!(value(&h), a + b);
            for c in 0..2u32 {
                let f = GateKind::FullAdder.eval(&[bits(a, 1)[0], bits(b, 1)[0], bits(c, 1)[0]], false);
                assert_eq!(value(&f), a + b + c);
            }
        }
    }
}

#[test]
fn subtractors_subtract() {
    let d = GateKind::HalfSubtractor.eval(&[Signal::Zero, Signal::One], false);
    assert_eq!(d, vec![Signal::One, Signal::One]);
    let d = GateKind::FullSubtractor.eval(&[Signal::One, Signal::One, Signal::One], false);
    assert_eq!(d, vec![Signal::One, Signal::One]);
}

#[test]
fn unknown_inputs_give_unknown_xor_but_zero_dominates_and() {
    assert_eq!(GateKind::And.eval(&[Signal::X, Signal::Zero], false), vec![Signal::Zero]);
    assert_eq!(GateKind::And.eval(&[Signal::X, Signal::One], false), vec![Signal::X]);
    assert_eq!(GateKind::Or.eval(&[Signal::Z, Signal::One], false), vec![Signal::One]);
    assert_eq!(GateKind::Not.eval(&[Signal::Z], false), vec![Signal::X]);
    assert_eq!(GateKind::Not.eval(&[], false), vec![Signal::One]);
}

#[test]
fn alu_operations() {
    let mk = |a: u32, b: u32, op: u32| {
        let mut v = bits(a, 4);
        v.extend(bits(b, 4));
        v.extend(bits(op, 3));
        GateKind::Alu4.eval(&v, false)
    };
    // 3 - 5 wraps to 14 with a borrow
    assert_eq!(mk(3, 5, 1), vec![Signal::Zero, Signal::One, Signal::One, Signal::One, Signal::Zero, Signal::One]);
    // NOT 0 = 15
    assert_eq!(mk(0, 0, 5), vec![Signal::One, Signal::One, Signal::One, Signal::One, Signal::Zero, Signal::Zero]);
    // 9 << 1 = 2 with carry
    assert_eq!(mk(9, 0, 6), vec![Signal::Zero, Signal::One, Signal::Zero, Signal::Zero, Signal::Zero, Signal::One]);
    // 1 >> 1 = 0, zero flag and carry
    assert_eq!(mk(1, 0, 7), vec![Signal::Zero, Signal::Zero, Signal::Zero, Signal::Zero, Signal::One, Signal::One]);
}

#[test]
fn counter_counts_rising_edges_and_resets() {
    let mut n = ComponentNode::new(GateKind::Counter4, p(0.0, 0.0));
    for _ in 0..3 {
        n.input_signals = vec![Signal::One, Signal::Zero];
        Simulator::eval_node(&mut n);
        n.input_signals = vec![Signal::Zero, Signal::Zero];
        Simulator::eval_node(&mut n);
    }
    assert_eq!(n.memory[0], 3);
    n.input_signals = vec![Signal::Zero, Signal::One];
    let o = Simulator::eval_node(&mut n);
    assert_eq!(o, vec![Signal::Zero; 4]);
}

#[test]
fn clock_divider_halves() {
    let mut n = ComponentNode::new(GateKind::ClockDivider, p(0.0, 0.0));
    let mut seen = Vec::new();
    for _ in 0..4 {
        n.input_signals = vec![Signal::One, Signal::Zero];
        seen.push(Simulator::eval_node(&mut n));
        n.input_signals = vec![Signal::Zero, Signal::Zero];
        Simulator::eval_node(&mut n);
    }
    assert_eq!(seen[0], vec![Signal::One, Signal::Zero]);
    assert_eq!(seen[1], vec![Signal::Zero, Signal::One]);
    assert_eq!(seen[2], vec![Signal::One, Signal::One]);
    assert_eq!(seen[3], vec![Signal::Zero, Signal::Zero]);
}

#[test]
fn rom_reads_its_table() {
    let mut n = ComponentNode::new(GateKind::Rom16x4, p(0.0, 0.0));
    n.input_signals = bits(6, 4);
    assert_eq!(Simulator::eval_node(&mut n), bits(8, 4));
}

#[test]
fn oscillator_exhausts_budget_and_goes_unknown() {
    let mut c = Circuit::new();
    let g1 = c.add_component(GateKind::Not, p(0.0, 0.0));
    let g2 = c.add_component(GateKind::Not, p(10.0, 0.0));
    let g3 = c.add_component(GateKind::Not, p(20.0, 0.0));
    assert!(c.connect_ports(out(g1, 0), inp(g1, 0)).is_none());
    c.connect_ports(out(g1, 0), inp(g2, 0));
    c.connect_ports(out(g2, 0), inp(g3, 0));
    c.connect_ports(out(g3, 0), inp(g1, 0));
    Simulator::settle(&mut c);
    assert_eq!(c.component(g1).unwrap().output_signals[0], Signal::X);
    assert_eq!(c.component(g3).unwrap().output_signals[0], Signal::X);
}

#[test]
fn falling_edge_tick_leaves_clocks() {
    let mut c = Circuit::new();
    let clk = c.add_component(GateKind::Clock, p(0.0, 0.0));
    Simulator::tick(&mut c, ClockEdge::Falling);
    assert!(!c.component(clk).unwrap().state_flag);
    Simulator::tick(&mut c, ClockEdge::Rising);
    assert!(c.component(clk).unwrap().state_flag);
}

#[test]
fn diff_of_table_with_itself_matches() {
    let t = TruthTableGenerator::reference_table(GateKind::Xor);
    let d = t.diff(&t);
    assert!(d.is_match);
    assert_eq!(d.total_rows, 4);
}

#[test]
fn diff_against_shorter_table_reports_unknowns() {
    let t = TruthTableGenerator::reference_table(GateKind::And);
    let n = TruthTableGenerator::reference_table(GateKind::Not);
    let d = t.diff(&n);
    assert_eq!(d.mismatches.len(), 3);
    assert_eq!(d.mismatches[2].row_index, 3);
    assert_eq!(d.mismatches[2].expected, vec![Signal::X]);
}

#[test]
fn reference_tables_agree_with_gate_evaluation() {
    for k in [GateKind::Not, GateKind::And, GateKind::Or, GateKind::Xor, GateKind::Nand, GateKind::Nor, GateKind::Xnor] {
        let t = TruthTableGenerator::reference_table(k.clone());
        for r in &t.rows {
            assert_eq!(k.eval(&r.inputs, false), r.outputs);
        }
    }
    assert!(TruthTableGenerator::reference_table(GateKind::Mux2).rows.is_empty());
}

#[test]
fn csv_and_text_renderings() {
    let t = TruthTableGenerator::reference_table(GateKind::Nand);
    assert_eq!(t.to_csv(), "A,B,Q\n0,0,1\n0,1,1\n1,0,1\n1,1,0\n");
    let x = TruthTable {
        input_names: vec!["AB".to_string()],
        output_names: vec!["QQQ".to_string()],
        rows: vec![TruthTableRow { inputs: vec![Signal::One], outputs: vec![Signal::Zero] }],
    };
    assert_eq!(x.to_plain_text(), "-----------\n AB || QQQ \n-----------\n 1  ||  0  \n-----------\n");
}

#[test]
fn detect_errors() {
    let empty = Circuit::new();
    assert!(matches!(TruthTableGenerator::generate(&empty, None), Err(VerifyError::NoInputs)));

    let mut only_led = Circuit::new();
    only_led.add_component(GateKind::Led, p(0.0, 0.0));
    let r = CircuitIO::detect(&only_led, None);
    assert!(matches!(r, Ok(_)));

    let mut many = Circuit::new();
    for i in 0..11 {
        many.add_component(GateKind::ToggleSwitch, p(0.0, i as f32));
    }
    many.add_component(GateKind::Led, p(0.0, 0.0));
    match CircuitIO::detect(&many, None) {
        Err(e) => {
            assert_eq!(e, VerifyError::TooManyInputs(11));
            assert_eq!(e.message(), "Too many inputs (11); maximum supported is 10");
        },
        Ok(_) => panic!("expected an error"),
    }
    assert_eq!(VerifyError::NoOutputs.message(), "No outputs found in the circuit to evaluate");
    assert_eq!(VerifyError::NoInputs.message(), "No inputs found in the circuit to generate truth table");
}

#[test]
fn detect_falls_back_to_free_ports_and_outputs() {
    let mut c = Circuit::new();
    let g = c.add_component(GateKind::Xor, p(0.0, 0.0));
    let io = CircuitIO::detect(&c, None).unwrap();
    assert_eq!(io.input_switches.len(), 2);
    assert_eq!(io.input_switches[0].1, "A");
    assert_eq!(io.input_switches[1].1, "B");
    assert_eq!(io.output_leds.len(), 1);
    assert_eq!(io.output_leds[0].1, "Q");
    assert_eq!(io.output_leds[0].0, g);
    let (t, _) = TruthTableGenerator::generate(&c, None).unwrap();
    assert!(t.diff(&TruthTableGenerator::reference_table(GateKind::Xor)).is_match);

    let mut c2 = Circuit::new();
    let h = c2.add_component(GateKind::HalfAdder, p(0.0, 0.0));
    let io2 = CircuitIO::detect(&c2, None).unwrap();
    assert_eq!(io2.output_leds.len(), 2);
    assert_eq!(io2.output_leds[0].1, "HA_Q0");
    assert_eq!(io2.output_leds[1].1, "HA_Q1");
    let filter = vec![h];
    assert!(CircuitIO::detect(&c2, Some(&filter)).is_ok());
}

#[test]
fn identifiers_are_sanitized() {
    assert_eq!(sanitize_identifier("my and-gate"), "my_and_gate");
    assert_eq!(sanitize_identifier("9lives"), "net_9lives");
    assert_eq!(sanitize_identifier(""), "net_");
    let mut c = Circuit::new();
    let id = c.add_component(GateKind::And, p(0.0, 0.0));
    let s = id_suffix(id);
    assert!(s.starts_with("ComponentId"));
    assert!(s.chars().all(|ch| ch.is_ascii_alphanumeric()));
}

#[test]
fn verilog_lists_ports_wires_and_gates() {
    let mut c = Circuit::new();
    let a = c.add_component(GateKind::ToggleSwitch, p(0.0, 0.0));
    let g = c.add_component(GateKind::Not, p(10.0, 0.0));
    let l = c.add_component(GateKind::Led, p(20.0, 0.0));
    c.connect_ports(out(a, 0), inp(g, 0));
    c.connect_ports(out(g, 0), inp(l, 0));
    let v = HdlExporter::to_verilog(&c, "top");
    let sa = id_suffix(a);
    let sl = id_suffix(l);
    let sg = id_suffix(g);
    assert!(v.contains(&format!("    input  wire sw_{}", sa)));
    assert!(v.contains(&format!("    output wire led_{}", sl)));
    assert!(v.contains(&format!("    assign led_{} = wire_NetId(", sl)));
    assert!(v.contains(&format!("    not  gate_not_{} (", sg)));
    assert!(v.contains("    // Internal signals\n    wire wire_NetId("));
    let h = HdlExporter::to_vhdl(&c, "top");
    assert!(h.contains(&format!(" <= not sw_{};", sa)));
    assert!(h.contains("    signal sig_NetId("));
}

#[test]
fn theme_toggles_back() {
    let mut m = ThemeMode::default();
    assert!(!m.is_dark());
    assert_eq!(m.label(), "Light (Warm Paper)");
    m.toggle();
    assert!(m.is_dark());
    assert_eq!(m.label(), "Dark (Cyber Dark)");
    m.toggle();
    assert_eq!(m, ThemeMode::Light);
}

#[test]
fn selection_toggles() {
    let mut c = Circuit::new();
    let a = c.add_component(GateKind::And, p(0.0, 0.0));
    let b = c.add_component(GateKind::Or, p(0.0, 0.0));
    let mut s = SelectionState::default();
    assert!(s.is_empty());
    s.select_single(a);
    s.toggle_component(b);
    assert_eq!(s.selected_components.len(), 2);
    s.toggle_component(a);
    assert_eq!(s.selected_components, vec![b]);
    s.clear();
    assert!(s.is_empty());
}

#[test]
fn challenge_scaffold_and_verdicts() {
    let mut c = Circuit::new();
    let mut v = VerificationUiState::default();
    v.load_challenge(UniversalChallenge::NotFromNand, &mut c);
    assert_eq!(c.component_count(), 3);
    assert!(v.verification_mode);
    assert_eq!(v.expected_target, GateKind::Not);
    v.verify_current_challenge(&c);
    let (ok, msg) = v.challenge_feedback.clone().unwrap();
    assert!(!ok);
    assert!(msg.starts_with("Verification Failed: "));
    assert_eq!(UniversalChallenge::ALL.len(), 8);
    assert_eq!(UniversalChallenge::XorFromNor.title(), "XOR from NOR");
    assert_eq!(UniversalChallenge::OrFromNand.allowed_gate(), GateKind::Nand);
    assert!(UniversalChallenge::AndFromNor.description().contains("3 NOR"));
}

#[test]
fn challenge_passes_when_built() {
    let mut c = Circuit::new();
    let a = c.add_component(GateKind::ToggleSwitch, p(0.0, 0.0));
    let g = c.add_component(GateKind::Nand, p(10.0, 0.0));
    let l = c.add_component(GateKind::Led, p(20.0, 0.0));
    c.connect_ports(out(a, 0), inp(g, 0));
    c.connect_ports(out(a, 0), inp(g, 1));
    c.connect_ports(out(g, 0), inp(l, 0));
    let mut v = VerificationUiState::default();
    v.active_challenge = Some(UniversalChallenge::NotFromNand);
    v.verify_current_challenge(&c);
    let (ok, msg) = v.challenge_feedback.clone().unwrap();
    assert!(ok);
    assert_eq!(msg, format!("CHALLENGE PASSED! Successfully constructed {} using {} gates.", GateKind::Not.display_name(), GateKind::Nand.short_code()));
    v.verification_mode = true;
    v.expected_target = GateKind::Not;
    v.generate_from_circuit(&c, &Vec::new());
    assert!(v.diff_result.as_ref().unwrap().is_match);
}

#[test]
fn hdl_window_regenerates() {
    let c = Circuit::new();
    let mut h = HdlUiState::default();
    assert_eq!(h.active_tab, HdlTab::Verilog);
    h.open(&c);
    assert!(h.is_open);
    assert!(h.generated_verilog.contains("module circuit_top ("));
    assert!(h.generated_vhdl.contains("dummy_port : in STD_LOGIC"));
}

#[test]
fn signal_history_keeps_last_samples() {
    let mut s = SignalHistory { label: "t".to_string(), samples: VecDeque::new() };
    for i in 0..5 {
        s.push_sample(if i % 2 == 0 { Signal::One } else { Signal::Zero }, 3);
    }
    assert_eq!(s.samples.len(), 3);
    assert_eq!(s.samples[0], Signal::One);
}

#[test]
fn rotation_cycles() {
    let r = Rotation::R0.next().next().next().next();
    assert_eq!(r, Rotation::R0);
}

#[test]
fn can_simulate_flags_stuck_counter() {
    let mut c = Circuit::new();
    let k = c.add_component(GateKind::Counter4, p(0.0, 0.0));
    assert!(c.can_simulate());
    let _ = k;
}

#[test]
fn waveform_samples_traced_components() {
    let mut c = Circuit::new();
    let sw = c.add_component(GateKind::ToggleSwitch, p(0.0, 0.0));
    let gate = c.add_component(GateKind::Not, p(50.0, 0.0));
    let led = c.add_component(GateKind::Led, p(100.0, 0.0));
    c.connect_ports(out(sw, 0), inp(gate, 0));
    c.connect_ports(out(gate, 0), inp(led, 0));
    Simulator::settle(&mut c);

    let mut w = WaveformState::default();
    assert_eq!(f32::from_bits(w.zoom_x), 20.0);
    assert_eq!(w.max_samples, 80);
    w.sample_circuit(&c);
    assert_eq!(w.step_counter, 1);
    // The inverter is not traced; the switch and the LED are, in circuit order.
    assert_eq!(w.track_data.len(), 2);
    assert_eq!(w.track_data[0].0, sw);
    assert_eq!(w.track_data[1].0, led);
    assert!(w.track_data[0].1.label.starts_with("Toggle Switch_ComponentId("));
    assert!(w.track_data[1].1.label.starts_with("LED_ComponentId("));
    assert_eq!(w.track_data[0].1.samples, VecDeque::from(vec![Signal::Zero]));
    assert_eq!(w.track_data[1].1.samples, VecDeque::from(vec![Signal::One]));

    c.set_component_state(sw, true);
    Simulator::settle(&mut c);
    w.sample_circuit(&c);
    assert_eq!(w.step_counter, 2);
    assert_eq!(w.track_data.len(), 2);
    assert_eq!(w.track_data[0].1.samples, VecDeque::from(vec![Signal::Zero, Signal::One]));
    assert_eq!(w.track_data[1].1.samples, VecDeque::from(vec![Signal::One, Signal::Zero]));

    // Paused: nothing changes.
    w.is_recording = false;
    w.sample_circuit(&c);
    assert_eq!(w.step_counter, 2);
    assert_eq!(w.track_data[0].1.samples.len(), 2);

    // Over the bound, each new sample drops the oldest one.
    w.is_recording = true;
    w.max_samples = 1;
    w.sample_circuit(&c);
    assert_eq!(w.track_data[0].1.samples, VecDeque::from(vec![Signal::One, Signal::One]));

    w.clear();
    assert_eq!(w.step_counter, 0);
    assert!(w.track_data.is_empty());
}

#[test]
fn packaged_port_names_count_switches_clocks_and_leds() {
    let mut c = Circuit::new();
    let (ins, outs) = c.package_port_names();
    assert_eq!(ins, vec!["IN_0".to_string()]);
    assert_eq!(outs, vec!["OUT_0".to_string()]);

    c.add_component(GateKind::ToggleSwitch, p(0.0, 0.0));
    c.add_component(GateKind::And, p(0.0, 0.0));
    c.add_component(GateKind::Clock, p(0.0, 0.0));
    c.add_component(GateKind::Led, p(0.0, 0.0));
    for _ in 0..10 {
        c.add_component(GateKind::ToggleSwitch, p(0.0, 0.0));
    }
    let (ins, outs) = c.package_port_names();
    assert_eq!(ins.len(), 12);
    assert_eq!(ins[0], "IN_0");
    assert_eq!(ins[11], "IN_11");
    assert_eq!(outs, vec!["OUT_0".to_string()]);
}

#[test]
fn undo_and_redo_restore_snapshots() {
    let mut h = logic_core::history::UndoHistory::new();
    let mut c = Circuit::new();
    // Nothing recorded: undo and redo do nothing.
    assert!(!h.undo(&mut c));
    assert!(!h.redo(&mut c));

    h.record(&c);
    c.add_component(GateKind::And, p(0.0, 0.0));
    assert_eq!(c.component_count(), 1);

    assert!(h.undo(&mut c));
    assert_eq!(c.component_count(), 0);
    assert_eq!(h.redo_stack.len(), 1);

    assert!(h.redo(&mut c));
    assert_eq!(c.component_count(), 1);
    assert_eq!(h.undo_stack.len(), 1);

    // A new record clears the redo steps; the stack keeps at most 100.
    assert!(h.undo(&mut c));
    h.record(&c);
    assert!(h.redo_stack.is_empty());
    for _ in 0..150 {
        h.record(&c);
    }
    assert_eq!(h.undo_stack.len(), 100);
}

#[test]
fn settle_leaves_every_net_carrying_its_driver() {
    let mut c = Circuit::new();
    let a = c.add_component(GateKind::ToggleSwitch, p(0.0, 0.0));
    let b = c.add_component(GateKind::ToggleSwitch, p(0.0, 50.0));
    let g = c.add_component(GateKind::Xor, p(50.0, 0.0));
    let h = c.add_component(GateKind::Not, p(100.0, 0.0));
    let led = c.add_component(GateKind::Led, p(150.0, 0.0));
    let led2 = c.add_component(GateKind::Led, p(150.0, 50.0));
    c.connect_ports(out(a, 0), inp(g, 0));
    c.connect_ports(out(b, 0), inp(g, 1));
    c.connect_ports(out(g, 0), inp(h, 0));
    c.connect_ports(out(g, 0), inp(led2, 0));
    c.connect_ports(out(h, 0), inp(led, 0));
    for (sa, sb) in [(false, false), (true, false), (true, true), (false, true)] {
        c.set_component_state(a, sa);
        c.set_component_state(b, sb);
        Simulator::settle(&mut c);
        for nid in c.net_ids() {
            let net = c.net(nid).unwrap();
            let src = c.component(net.source.component_id).unwrap();
            assert_eq!(net.current_signal, src.output_signals[net.source.port_index]);
            for sink in &net.sinks {
                let n = c.component(sink.component_id).unwrap();
                assert_eq!(n.input_signals[sink.port_index], net.current_signal);
            }
        }
        let x = if sa != sb { Signal::One } else { Signal::Zero };
        assert_eq!(c.component(led2).unwrap().input_signals[0], x);
        assert_eq!(c.component(led).unwrap().input_signals[0], !x);
    }
}

#[test]
fn input_count_zero_keeps_the_wire_on_port_zero() {
    let mut c = Circuit::new();
    let sw = c.add_component(GateKind::ToggleSwitch, p(0.0, 0.0));
    let g = c.add_component(GateKind::And, p(50.0, 0.0));
    c.connect_ports(out(sw, 0), inp(g, 0));
    c.connect_ports(out(sw, 0), inp(g, 1));
    c.set_component_input_count(g, 0);
    assert_eq!(c.component(g).unwrap().input_signals.len(), 1);
    assert_eq!(c.net_count(), 1);
    let net = c.net(c.net_ids()[0]).unwrap();
    assert_eq!(net.sinks, vec![inp(g, 0)]);
}

#[test]
fn detect_without_leds_takes_only_outputs_without_sinks() {
    let mut c = Circuit::new();
    let sw = c.add_component(GateKind::ToggleSwitch, p(0.0, 0.0));
    let g = c.add_component(GateKind::Not, p(50.0, 0.0));
    c.connect_ports(out(sw, 0), inp(g, 0));
    let io = CircuitIO::detect(&c, None).unwrap();
    assert_eq!(io.output_leds, vec![(g, "Q".to_string())]);
    assert_eq!(io.input_switches, vec![(sw, "A".to_string())]);
    assert_eq!(io.input_ports, vec![0]);
}

#[test]
fn generate_drives_the_detected_input_ports() {
    let mut c = Circuit::new();
    let n1 = c.add_component(GateKind::Not, p(0.0, 0.0));
    let n2 = c.add_component(GateKind::Not, p(0.0, 50.0));
    let (t, io) = TruthTableGenerator::generate(&c, None).unwrap();
    assert_eq!(io.input_switches, vec![(n1, "A".to_string()), (n2, "B".to_string())]);
    assert_eq!(io.input_ports, vec![0, 0]);
    assert_eq!(t.rows.len(), 4);
    for row in &t.rows {
        assert_eq!(row.outputs, vec![!row.inputs[0], !row.inputs[1]]);
    }
    assert_eq!(t.rows[1].inputs, vec![Signal::Zero, Signal::One]);
    assert_eq!(t.rows[1].outputs, vec![Signal::One, Signal::Zero]);
}

fn nan_height_library() -> logic_core::SubcircuitDef {
    let mut sub = Circuit::new();
    let sw = sub.add_component(GateKind::ToggleSwitch, (0.0f32.to_bits(), f32::NAN.to_bits()));
    let led = sub.add_component(GateKind::Led, p(100.0, 0.0));
    sub.connect_ports(out(sw, 0), inp(led, 0));
    logic_core::SubcircuitDef { name: "Odd".into(), input_names: vec!["A".into()], output_names: vec!["Y".into()], circuit: sub }
}

#[test]
fn settle_without_instances_does_not_need_the_library() {
    let mut c = Circuit::new();
    c.insert_subcircuit("Odd".into(), nan_height_library());
    let a = c.add_component(GateKind::ToggleSwitch, p(0.0, 0.0));
    let g = c.add_component(GateKind::Not, p(50.0, 0.0));
    let led = c.add_component(GateKind::Led, p(100.0, 0.0));
    c.connect_ports(out(a, 0), inp(g, 0));
    c.connect_ports(out(g, 0), inp(led, 0));
    assert!(c.can_simulate());
    Simulator::settle(&mut c);
    assert_eq!(c.component(led).unwrap().input_signals[0], Signal::One);
    c.add_component(GateKind::SubcircuitInstance("Odd".into()), p(0.0, 100.0));
    assert!(!c.can_simulate());
}

#[test]
fn and_gate_evaluates_beside_any_library() {
    let lib = vec![("Odd".to_string(), nan_height_library())];
    let mut n = ComponentNode::new(GateKind::And, p(0.0, 0.0));
    n.input_signals = vec![Signal::One, Signal::One];
    assert_eq!(Simulator::eval_node_with_subcircuits(&mut n, &lib), vec![Signal::One]);
}

#[test]
fn memory_word_pads_a_short_memory() {
    let mut c = Circuit::new();
    let r = c.add_component(GateKind::Ram16x4, p(0.0, 0.0));
    c.set_component_memory(r, vec![1, 2]);
    c.set_memory_word(r, 5, 0x1F);
    let mut expected = vec![0u8; 16];
    expected[0] = 1;
    expected[1] = 2;
    expected[5] = 0xF;
    assert_eq!(c.component(r).unwrap().memory, expected);
    c.set_memory_word(r, 1, 7);
    expected[1] = 7;
    assert_eq!(c.component(r).unwrap().memory, expected);
}

#[test]
fn component_and_net_setters_change_one_field() {
    let mut c = Circuit::new();
    let a = c.add_component(GateKind::ToggleSwitch, p(0.0, 0.0));
    let g = c.add_component(GateKind::DFlipFlop, p(50.0, 0.0));
    let nid = c.connect_ports(out(a, 0), inp(g, 0)).unwrap();
    c.set_component_clock_prev(g, true);
    c.set_component_signals(g, vec![Signal::One, Signal::X], vec![Signal::Z, Signal::One]);
    let n = c.component(g).unwrap();
    assert!(n.clock_prev);
    assert_eq!(n.input_signals, vec![Signal::One, Signal::X]);
    assert_eq!(n.output_signals, vec![Signal::Z, Signal::One]);
    assert_eq!(n.kind, GateKind::DFlipFlop);
    c.set_net_signal(nid, Signal::X);
    c.set_net_label(nid, Some("clk".to_string()));
    let net = c.net(nid).unwrap();
    assert_eq!(net.current_signal, Signal::X);
    assert_eq!(net.label, Some("clk".to_string()));
    assert_eq!(net.sinks, vec![inp(g, 0)]);
    c.set_net_label(nid, None);
    assert_eq!(c.net(nid).unwrap().label, None);
}

#[test]
fn sanitized_names_are_legal_and_stable() {
    for name in ["9 bad-name", "", "ok_name", "a.b", "__x", "7"] {
        let once = sanitize_identifier(name);
        assert!(!once.is_empty());
        assert!(!once.chars().next().unwrap().is_ascii_digit());
        assert!(once.chars().all(|c| c.is_ascii_alphanumeric() || c == '_'));
        assert_eq!(sanitize_identifier(&once), once);
    }
    assert_eq!(sanitize_identifier("9 bad-name"), "net_9_bad_name");
}

#[test]
fn subcircuit_short_code_is_upper_case_prefix() {
    assert_eq!(GateKind::SubcircuitInstance("half adder".into()).short_code(), "HALF");
    assert_eq!(GateKind::SubcircuitInstance("ab".into()).short_code(), "AB");
}

#[test]
fn internal_wires_keep_only_wires_inside_the_group() {
    let mut c = Circuit::new();
    let a = c.add_component(GateKind::ToggleSwitch, p(0.0, 0.0));
    let b = c.add_component(GateKind::ToggleSwitch, p(0.0, 50.0));
    let g = c.add_component(GateKind::And, p(50.0, 0.0));
    let led = c.add_component(GateKind::Led, p(100.0, 0.0));
    c.connect_ports(out(a, 0), inp(g, 0));
    c.connect_ports(out(b, 0), inp(g, 1));
    c.connect_ports(out(g, 0), inp(led, 0));
    let mut copy = Circuit::new();
    let a2 = copy.add_component(GateKind::ToggleSwitch, p(0.0, 0.0));
    let g2 = copy.add_component(GateKind::And, p(50.0, 0.0));
    let map = vec![(a, a2), (g, g2)];
    let wires = c.internal_wires(&map);
    assert_eq!(wires, vec![(out(a2, 0), inp(g2, 0))]);
    for (s, t) in wires {
        copy.connect_ports(s, t);
    }
    assert_eq!(copy.net_count(), 1);
    assert!(c.internal_wires(&vec![]).is_empty());
}

#[test]
fn connect_ports_reuses_the_source_net_and_moves_a_sink() {
    let mut c = Circuit::new();
    let a = c.add_component(GateKind::ToggleSwitch, p(0.0, 0.0));
    let b = c.add_component(GateKind::ToggleSwitch, p(0.0, 50.0));
    let g = c.add_component(GateKind::And, p(50.0, 0.0));
    let h = c.add_component(GateKind::Or, p(50.0, 50.0));
    c.set_component_state(a, true);
    Simulator::settle(&mut c);
    let n1 = c.connect_ports(out(a, 0), inp(g, 0)).unwrap();
    let n2 = c.connect_ports(out(a, 0), inp(h, 0)).unwrap();
    assert_eq!(n1, n2);
    assert_eq!(c.net(n1).unwrap().sinks, vec![inp(g, 0), inp(h, 0)]);
    assert_eq!(c.net(n1).unwrap().current_signal, Signal::One);
    let n3 = c.connect_ports(out(b, 0), inp(g, 0)).unwrap();
    assert_ne!(n3, n1);
    assert_eq!(c.net(n1).unwrap().sinks, vec![inp(h, 0)]);
    assert_eq!(c.net(n3).unwrap().sinks, vec![inp(g, 0)]);
    assert_eq!(c.net(n3).unwrap().current_signal, Signal::Zero);
    assert_eq!(c.net_count(), 2);
}

#[test]
fn sanitizing_non_ascii_names() {
    assert_eq!(sanitize_identifier("größe"), "größe");
    assert_eq!(sanitize_identifier("٣x"), "net_٣x");
    let once = sanitize_identifier("π-λ");
    assert_eq!(once, "π_λ");
    assert_eq!(sanitize_identifier(&once), once);
}

#[test]
fn failed_challenge_check_changes_only_the_feedback() {
    let mut ui = VerificationUiState::default();
    let mut c = Circuit::new();
    ui.load_challenge(UniversalChallenge::NotFromNand, &mut c);
    let empty = Circuit::new();
    let before = (ui.is_open, ui.verification_mode, ui.active_challenge, ui.error_message.clone());
    ui.verify_current_challenge(&empty);
    let (ok, msg) = ui.challenge_feedback.clone().unwrap();
    assert!(!ok);
    assert!(msg.starts_with("Cannot verify: "));
    assert_eq!((ui.is_open, ui.verification_mode, ui.active_challenge, ui.error_message.clone()), before);
    assert!(ui.current_table.is_none());
}

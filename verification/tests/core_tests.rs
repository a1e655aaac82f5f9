use logic_core::graph::Rotation;
use logic_core::{
    Circuit, ClockEdge, ComponentNode, GateKind, HdlExporter, PortEndpoint, Signal, Simulator, SubcircuitDef,
    TruthTableGenerator,
};

fn p(x: f32, y: f32) -> (u32, u32) {
    (x.to_bits(), y.to_bits())
}

fn out(id: logic_core::ComponentId, port: usize) -> PortEndpoint {
    PortEndpoint { component_id: id, is_output: true, port_index: port }
}

fn inp(id: logic_core::ComponentId, port: usize) -> PortEndpoint {
    PortEndpoint { component_id: id, is_output: false, port_index: port }
}

#[test]
fn test_gate_evaluations() {
    assert_eq!(GateKind::And.eval(&[Signal::Zero, Signal::Zero], false), vec![Signal::Zero]);
    assert_eq!(GateKind::And.eval(&[Signal::One, Signal::One], false), vec![Signal::One]);
    assert_eq!(GateKind::Or.eval(&[Signal::One, Signal::Zero], false), vec![Signal::One]);
    assert_eq!(GateKind::Not.eval(&[Signal::One], false), vec![Signal::Zero]);
    assert_eq!(GateKind::Nand.eval(&[Signal::One, Signal::One], false), vec![Signal::Zero]);
    assert_eq!(GateKind::Nor.eval(&[Signal::Zero, Signal::Zero], false), vec![Signal::One]);
    assert_eq!(GateKind::Xor.eval(&[Signal::One, Signal::Zero], false), vec![Signal::One]);
    assert_eq!(GateKind::Xor.eval(&[Signal::One, Signal::One], false), vec![Signal::Zero]);
    assert_eq!(GateKind::Xnor.eval(&[Signal::One, Signal::One], false), vec![Signal::One]);
}

#[test]
fn test_switch_not_led_circuit_propagation() {
    let mut circuit = Circuit::new();
    let sw = circuit.add_component(GateKind::ToggleSwitch, p(0.0, 0.0));
    let not_gate = circuit.add_component(GateKind::Not, p(50.0, 0.0));
    let led = circuit.add_component(GateKind::Led, p(100.0, 0.0));
    circuit.connect_ports(out(sw, 0), inp(not_gate, 0));
    circuit.connect_ports(out(not_gate, 0), inp(led, 0));

    Simulator::settle(&mut circuit);
    assert_eq!(circuit.component(sw).unwrap().output_signals[0], Signal::Zero);
    assert_eq!(circuit.component(not_gate).unwrap().output_signals[0], Signal::One);
    assert_eq!(circuit.component(led).unwrap().input_signals[0], Signal::One);

    circuit.set_component_state(sw, true);
    Simulator::settle(&mut circuit);
    assert_eq!(circuit.component(sw).unwrap().output_signals[0], Signal::One);
    assert_eq!(circuit.component(not_gate).unwrap().output_signals[0], Signal::Zero);
    assert_eq!(circuit.component(led).unwrap().input_signals[0], Signal::Zero);
}

#[test]
fn test_fanout_and_delete() {
    let mut circuit = Circuit::new();
    let sw = circuit.add_component(GateKind::ToggleSwitch, p(0.0, 0.0));
    let led1 = circuit.add_component(GateKind::Led, p(100.0, 0.0));
    let led2 = circuit.add_component(GateKind::Led, p(100.0, 50.0));
    circuit.connect_ports(out(sw, 0), inp(led1, 0));
    circuit.connect_ports(out(sw, 0), inp(led2, 0));

    circuit.set_component_state(sw, true);
    Simulator::settle(&mut circuit);
    assert_eq!(circuit.component(led1).unwrap().input_signals[0], Signal::One);
    assert_eq!(circuit.component(led2).unwrap().input_signals[0], Signal::One);

    circuit.remove_component(led1);
    Simulator::settle(&mut circuit);
    assert_eq!(circuit.component(led2).unwrap().input_signals[0], Signal::One);

    circuit.remove_component(sw);
    assert_eq!(circuit.net_count(), 0);
}

#[test]
fn test_clock_tick() {
    let mut circuit = Circuit::new();
    let clk = circuit.add_component(GateKind::Clock, p(0.0, 0.0));
    let led = circuit.add_component(GateKind::Led, p(100.0, 0.0));
    circuit.connect_ports(out(clk, 0), inp(led, 0));

    Simulator::settle(&mut circuit);
    assert_eq!(circuit.component(led).unwrap().input_signals[0], Signal::Zero);

    Simulator::tick(&mut circuit, ClockEdge::Rising);
    assert_eq!(circuit.component(led).unwrap().input_signals[0], Signal::One);

    Simulator::tick(&mut circuit, ClockEdge::Rising);
    assert_eq!(circuit.component(led).unwrap().input_signals[0], Signal::Zero);
}

fn and_circuit() -> Circuit {
    let mut circuit = Circuit::new();
    let sw_a = circuit.add_component(GateKind::ToggleSwitch, p(0.0, 0.0));
    let sw_b = circuit.add_component(GateKind::ToggleSwitch, p(0.0, 40.0));
    let and_gate = circuit.add_component(GateKind::And, p(60.0, 20.0));
    let led = circuit.add_component(GateKind::Led, p(120.0, 20.0));
    circuit.connect_ports(out(sw_a, 0), inp(and_gate, 0));
    circuit.connect_ports(out(sw_b, 0), inp(and_gate, 1));
    circuit.connect_ports(out(and_gate, 0), inp(led, 0));
    circuit
}

#[test]
fn test_truth_table_generation_and_diff() {
    let circuit = and_circuit();
    let (tt, _) = TruthTableGenerator::generate(&circuit, None).expect("Should generate truth table");
    assert_eq!(tt.rows.len(), 4);
    assert_eq!(tt.rows[0].outputs[0], Signal::Zero);
    assert_eq!(tt.rows[1].outputs[0], Signal::Zero);
    assert_eq!(tt.rows[2].outputs[0], Signal::Zero);
    assert_eq!(tt.rows[3].outputs[0], Signal::One);

    let and_ref = TruthTableGenerator::reference_table(GateKind::And);
    let diff = tt.diff(&and_ref);
    assert!(diff.is_match);
    assert_eq!(diff.mismatches.len(), 0);

    let or_ref = TruthTableGenerator::reference_table(GateKind::Or);
    let diff_mismatch = tt.diff(&or_ref);
    assert!(!diff_mismatch.is_match);
    assert!(!diff_mismatch.mismatches.is_empty());

    let csv = tt.to_csv();
    assert!(csv.contains("A,B,Q"));
    let txt = tt.to_plain_text();
    assert!(txt.contains("||"));
}

#[test]
fn test_phase3_arithmetic_adders() {
    let ha_res = GateKind::HalfAdder.eval(&[Signal::One, Signal::One], false);
    assert_eq!(ha_res, vec![Signal::Zero, Signal::One]);

    let fa_res = GateKind::FullAdder.eval(&[Signal::One, Signal::One, Signal::One], false);
    assert_eq!(fa_res, vec![Signal::One, Signal::One]);

    let rca_inputs = vec![
        Signal::One,
        Signal::Zero,
        Signal::One,
        Signal::Zero,
        Signal::One,
        Signal::One,
        Signal::Zero,
        Signal::Zero,
        Signal::Zero,
    ];
    let rca_res = GateKind::RippleCarryAdder4.eval(&rca_inputs, false);
    assert_eq!(rca_res, vec![Signal::Zero, Signal::Zero, Signal::Zero, Signal::One, Signal::Zero]);

    let cla_res = GateKind::CarryLookaheadAdder4.eval(&rca_inputs, false);
    assert_eq!(cla_res, rca_res);

    let carry_inputs = vec![
        Signal::One,
        Signal::One,
        Signal::One,
        Signal::One,
        Signal::Zero,
        Signal::Zero,
        Signal::Zero,
        Signal::Zero,
        Signal::One,
    ];
    let rca_carry = GateKind::RippleCarryAdder4.eval(&carry_inputs, false);
    let cla_carry = GateKind::CarryLookaheadAdder4.eval(&carry_inputs, false);
    assert_eq!(rca_carry, vec![Signal::Zero, Signal::Zero, Signal::Zero, Signal::Zero, Signal::One]);
    assert_eq!(cla_carry, rca_carry);
}

#[test]
fn test_phase3_sequential_and_routing() {
    let mux_inputs = vec![Signal::Zero, Signal::Zero, Signal::One, Signal::Zero, Signal::Zero, Signal::One];
    let mux_res = GateKind::Mux4.eval(&mux_inputs, false);
    assert_eq!(mux_res, vec![Signal::One]);

    let mut dff_node = ComponentNode::new(GateKind::DFlipFlop, p(0.0, 0.0));
    dff_node.input_signals = vec![Signal::One, Signal::Zero];
    let _ = Simulator::eval_node(&mut dff_node);
    assert!(!dff_node.state_flag);

    dff_node.input_signals = vec![Signal::One, Signal::One];
    let out_sig = Simulator::eval_node(&mut dff_node);
    assert!(dff_node.state_flag);
    assert_eq!(out_sig, vec![Signal::One, Signal::Zero]);
}

#[test]
fn test_phase3_alu_and_ram() {
    let alu_inputs = vec![
        Signal::One,
        Signal::One,
        Signal::One,
        Signal::Zero,
        Signal::Zero,
        Signal::One,
        Signal::Zero,
        Signal::Zero,
        Signal::Zero,
        Signal::Zero,
        Signal::Zero,
    ];
    let alu_res = GateKind::Alu4.eval(&alu_inputs, false);
    assert_eq!(alu_res, vec![Signal::One, Signal::Zero, Signal::Zero, Signal::One, Signal::Zero, Signal::Zero]);

    let mut ram_node = ComponentNode::new(GateKind::Ram16x4, p(0.0, 0.0));
    ram_node.input_signals = vec![
        Signal::One,
        Signal::One,
        Signal::Zero,
        Signal::Zero,
        Signal::One,
        Signal::Zero,
        Signal::One,
        Signal::Zero,
        Signal::One,
        Signal::One,
    ];
    let ram_out = Simulator::eval_node(&mut ram_node);
    assert_eq!(ram_out, vec![Signal::One, Signal::Zero, Signal::One, Signal::Zero]);
}

#[test]
fn test_subcircuit_creation_and_hierarchical_sim() {
    let mut sub = Circuit::new();
    let sw_a = sub.add_component(GateKind::ToggleSwitch, p(0.0, 0.0));
    let sw_b = sub.add_component(GateKind::ToggleSwitch, p(0.0, 50.0));
    let xor_gate = sub.add_component(GateKind::Xor, p(100.0, 25.0));
    let led = sub.add_component(GateKind::Led, p(200.0, 25.0));
    sub.connect_ports(out(sw_a, 0), inp(xor_gate, 0));
    sub.connect_ports(out(sw_b, 0), inp(xor_gate, 1));
    sub.connect_ports(out(xor_gate, 0), inp(led, 0));

    let sub_def = SubcircuitDef {
        name: "XorBlock".into(),
        input_names: vec!["A".into(), "B".into()],
        output_names: vec!["Y".into()],
        circuit: sub,
    };

    let mut parent = Circuit::new();
    parent.insert_subcircuit("XorBlock".into(), sub_def);

    let parent_sw_a = parent.add_component(GateKind::ToggleSwitch, p(0.0, 0.0));
    let parent_sw_b = parent.add_component(GateKind::ToggleSwitch, p(0.0, 40.0));
    let sub_inst = parent.add_component(GateKind::SubcircuitInstance("XorBlock".into()), p(100.0, 20.0));
    let parent_led = parent.add_component(GateKind::Led, p(200.0, 20.0));
    parent.connect_ports(out(parent_sw_a, 0), inp(sub_inst, 0));
    parent.connect_ports(out(parent_sw_b, 0), inp(sub_inst, 1));
    parent.connect_ports(out(sub_inst, 0), inp(parent_led, 0));

    parent.set_component_state(parent_sw_a, true);
    Simulator::settle(&mut parent);
    assert_eq!(parent.component(parent_led).unwrap().input_signals[0], Signal::One);

    parent.set_component_state(parent_sw_b, true);
    Simulator::settle(&mut parent);
    assert_eq!(parent.component(parent_led).unwrap().input_signals[0], Signal::Zero);
}

#[test]
fn test_hdl_export_verilog_and_vhdl() {
    let mut circuit = Circuit::new();
    let sw_a = circuit.add_component(GateKind::ToggleSwitch, p(0.0, 0.0));
    let sw_b = circuit.add_component(GateKind::ToggleSwitch, p(0.0, 40.0));
    let and_gate = circuit.add_component(GateKind::And, p(100.0, 20.0));
    let led = circuit.add_component(GateKind::Led, p(200.0, 20.0));
    circuit.connect_ports(out(sw_a, 0), inp(and_gate, 0));
    circuit.connect_ports(out(sw_b, 0), inp(and_gate, 1));
    circuit.connect_ports(out(and_gate, 0), inp(led, 0));

    let verilog = HdlExporter::to_verilog(&circuit, "my_and_circuit");
    assert!(verilog.contains("module my_and_circuit"));
    assert!(verilog.contains("endmodule"));
    assert!(verilog.contains("and  gate_and_"));

    let vhdl = HdlExporter::to_vhdl(&circuit, "my_and_circuit");
    assert!(vhdl.contains("entity my_and_circuit is"));
    assert!(vhdl.contains("architecture Structural of my_and_circuit is"));
    assert!(vhdl.contains("end Structural;"));
}

#[test]
fn test_multi_input_gates_and_component_properties() {
    assert_eq!(
        GateKind::And.eval(&[Signal::One, Signal::One, Signal::One, Signal::One], false),
        vec![Signal::One]
    );
    assert_eq!(
        GateKind::And.eval(&[Signal::One, Signal::One, Signal::Zero, Signal::One], false),
        vec![Signal::Zero]
    );
    assert_eq!(GateKind::Or.eval(&[Signal::Zero, Signal::Zero, Signal::One], false), vec![Signal::One]);
    assert_eq!(GateKind::Or.eval(&[Signal::Zero, Signal::Zero, Signal::Zero], false), vec![Signal::Zero]);
    assert_eq!(GateKind::Nand.eval(&[Signal::One, Signal::One, Signal::One], false), vec![Signal::Zero]);
    assert_eq!(GateKind::Nand.eval(&[Signal::One, Signal::Zero, Signal::One], false), vec![Signal::One]);
    assert_eq!(GateKind::Nor.eval(&[Signal::Zero, Signal::Zero, Signal::Zero], false), vec![Signal::One]);
    assert_eq!(GateKind::Nor.eval(&[Signal::Zero, Signal::One, Signal::Zero], false), vec![Signal::Zero]);
    assert_eq!(GateKind::Xor.eval(&[Signal::One, Signal::One, Signal::One], false), vec![Signal::One]);
    assert_eq!(GateKind::Xor.eval(&[Signal::One, Signal::One, Signal::Zero], false), vec![Signal::Zero]);

    let mut circuit = Circuit::new();
    let and_id = circuit.add_component(GateKind::And, p(100.0, 100.0));
    assert_eq!(circuit.component(and_id).unwrap().input_signals.len(), 2);

    circuit.set_component_label(and_id, "U1_AND4".to_string());
    circuit.set_component_bit_width(and_id, 8);
    circuit.set_component_rotation(and_id, Rotation::R90);
    assert_eq!(circuit.component(and_id).unwrap().label, "U1_AND4");
    assert_eq!(circuit.component(and_id).unwrap().bit_width, 8);
    assert_eq!(circuit.component(and_id).unwrap().rotation, Rotation::R90);

    circuit.set_component_input_count(and_id, 4);
    assert_eq!(circuit.component(and_id).unwrap().input_signals.len(), 4);

    // The component's drawn dimensions are computed by the application.

    let sw1 = circuit.add_component(GateKind::ToggleSwitch, p(0.0, 0.0));
    let sw4 = circuit.add_component(GateKind::ToggleSwitch, p(0.0, 150.0));
    circuit.connect_ports(out(sw1, 0), inp(and_id, 0));
    circuit.connect_ports(out(sw4, 0), inp(and_id, 3));
    assert_eq!(circuit.net_count(), 2);

    circuit.set_component_input_count(and_id, 2);
    assert_eq!(circuit.component(and_id).unwrap().input_signals.len(), 2);
    assert_eq!(circuit.net_count(), 1);
}

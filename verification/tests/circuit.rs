use quantum_simulator::{Circuit, GateKind, Instruction, Operation, SimError};

fn contents(circuit: &Circuit) -> Vec<Instruction> {
    let mut all = Vec::new();
    let mut position = 0;
    while let Some(instruction) = circuit.get(position) {
        all.push(instruction);
        position += 1;
    }
    assert_eq!(all.len(), circuit.len());
    assert_eq!(all, circuit.instructions());
    all
}

#[test]
fn new_circuit_is_empty() {
    let circuit = Circuit::new();
    assert_eq!(circuit.len(), 0);
    assert_eq!(circuit.get(0), None);
}

#[test]
fn append_keeps_order_and_accepts_any_index() {
    let mut circuit = Circuit::new();
    circuit.append(3, GateKind::PauliZ);
    circuit.append(usize::MAX, GateKind::PauliY);
    circuit.append_measure(0);
    assert_eq!(
        contents(&circuit),
        vec![
            Instruction { index: 3, operation: Operation::Gate(GateKind::PauliZ) },
            Instruction { index: usize::MAX, operation: Operation::Gate(GateKind::PauliY) },
            Instruction { index: 0, operation: Operation::Measure },
        ]
    );
    assert_eq!(circuit.get(3), None);
}

#[test]
fn clear_removes_everything() {
    let mut circuit = Circuit::new();
    circuit.append(0, GateKind::Hadamard);
    circuit.append(1, GateKind::PauliX);
    circuit.clear();
    assert_eq!(circuit.len(), 0);
    assert_eq!(circuit.get(0), None);
}

#[test]
fn instruction_builders_fill_both_fields() {
    assert_eq!(
        Instruction::gate(4, GateKind::ControlledPhaseShift),
        Instruction { index: 4, operation: Operation::Gate(GateKind::ControlledPhaseShift) }
    );
    assert_eq!(Instruction::measure(2), Instruction { index: 2, operation: Operation::Measure });
}

#[test]
fn bell_pair_preset() {
    let mut circuit = Circuit::new();
    circuit.append(9, GateKind::PauliZ);
    assert_eq!(circuit.load_preset("bell_pair"), Ok(()));
    assert_eq!(
        contents(&circuit),
        vec![Instruction::gate(0, GateKind::Hadamard), Instruction::gate(1, GateKind::PauliX)]
    );
}

#[test]
fn qft_like_preset() {
    let mut circuit = Circuit::new();
    assert_eq!(circuit.load_preset("qft_like"), Ok(()));
    assert_eq!(
        contents(&circuit),
        vec![
            Instruction::gate(0, GateKind::Hadamard),
            Instruction::gate(1, GateKind::ControlledPhaseShift),
        ]
    );
}

#[test]
fn grover_like_preset() {
    let mut circuit = Circuit::new();
    assert_eq!(circuit.load_preset("grover_like"), Ok(()));
    assert_eq!(
        contents(&circuit),
        vec![
            Instruction::gate(0, GateKind::Hadamard),
            Instruction::gate(1, GateKind::Hadamard),
            Instruction::gate(0, GateKind::PauliX),
            Instruction::gate(1, GateKind::ControlledPhaseShift),
        ]
    );
}

#[test]
fn teleportation_like_preset() {
    let mut circuit = Circuit::new();
    assert_eq!(circuit.load_preset("teleportation_like"), Ok(()));
    assert_eq!(
        contents(&circuit),
        vec![
            Instruction::gate(0, GateKind::Hadamard),
            Instruction::gate(1, GateKind::ControlledPhaseShift),
            Instruction::measure(0),
            Instruction::gate(1, GateKind::PauliX),
        ]
    );
}

#[test]
fn preset_replaces_previous_preset() {
    let mut circuit = Circuit::new();
    circuit.load_preset("grover_like").unwrap();
    circuit.load_preset("bell_pair").unwrap();
    assert_eq!(circuit.len(), 2);
}

#[test]
fn unknown_preset_is_reported_and_leaves_circuit_empty() {
    let mut circuit = Circuit::new();
    circuit.append(0, GateKind::Hadamard);
    assert_eq!(circuit.load_preset("shor"), Err(SimError::UnknownPreset));
    assert_eq!(circuit.len(), 0);
}

#[test]
fn preset_names_are_matched_exactly() {
    for name in ["", "bell_pai", "bell_pair ", "Bell_pair", "bell_pairs", "qft", "gröver_like"] {
        let mut circuit = Circuit::new();
        assert_eq!(circuit.load_preset(name), Err(SimError::UnknownPreset));
    }
}

#[test]
fn instructions_is_a_copy() {
    let mut circuit = Circuit::new();
    circuit.append(2, GateKind::PauliY);
    let mut copy = circuit.instructions();
    copy.push(Instruction::measure(0));
    assert_eq!(circuit.instructions(), vec![Instruction::gate(2, GateKind::PauliY)]);
    assert_eq!(circuit.len(), 1);
}

use vstd::prelude::*;

verus! {

/// The single-qubit gates of the simulator.
///
/// A qubit is a pair of real amplitudes `(alpha, beta)`. Each gate maps the
/// pair as its variant says, and the result is then normalized.
#[derive(Clone, Copy, Debug, PartialEq, Eq, Structural)]
pub enum GateKind {
    /// `(alpha + beta, alpha - beta)`, each divided by the square root of 2.
    Hadamard,
    /// `(beta, alpha)`.
    PauliX,
    /// `(-beta, alpha)`: a real-valued stand-in for Pauli-Y, whose imaginary
    /// factors a pair of real amplitudes cannot represent.
    PauliY,
    /// `(alpha, -beta)`.
    PauliZ,
    /// Measures the qubit, then `(alpha, -beta)` when the outcome is 1 and
    /// `(alpha, beta)` when it is 0. Unlike the other gates it draws a random
    /// number.
    ControlledPhaseShift,
}

impl GateKind {
    /// The characters of [`GateKind::name`].
    pub open spec fn name_text(self) -> Seq<char> {
        match self {
            GateKind::Hadamard => "Hadamard"@,
            GateKind::PauliX => "Pauli-X"@,
            GateKind::PauliY => "Pauli-Y"@,
            GateKind::PauliZ => "Pauli-Z"@,
            GateKind::ControlledPhaseShift => "Controlled Phase Shift"@,
        }
    }

    /// The name under which this gate is displayed.
    pub fn name(self) -> (text: &'static str)
        ensures
            text@ == self.name_text(),
    {
        match self {
            GateKind::Hadamard => "Hadamard",
            GateKind::PauliX => "Pauli-X",
            GateKind::PauliY => "Pauli-Y",
            GateKind::PauliZ => "Pauli-Z",
            GateKind::ControlledPhaseShift => "Controlled Phase Shift",
        }
    }
}

/// What an instruction asks for: a gate, or an immediate measurement.
#[derive(Clone, Copy, Debug, PartialEq, Eq, Structural)]
pub enum Operation {
    Gate(GateKind),
    /// Records the outcome of measuring the qubit at this point of the run.
    Measure,
}

impl Operation {
    /// The characters of [`Operation::name`].
    pub open spec fn name_text(self) -> Seq<char> {
        match self {
            Operation::Gate(gate) => gate.name_text(),
            Operation::Measure => "Measure"@,
        }
    }

    /// The name under which this operation is displayed: that of its gate,
    /// or `Measure`.
    pub fn name(self) -> (text: &'static str)
        ensures
            text@ == self.name_text(),
    {
        match self {
            Operation::Gate(gate) => gate.name(),
            Operation::Measure => "Measure",
        }
    }
}

/// One step of a circuit: an operation and the register slot it targets.
///
/// The index is not checked against any register when the instruction is
/// built; a run checks it when it reaches the instruction.
#[derive(Clone, Copy, Debug, PartialEq, Eq, Structural)]
pub struct Instruction {
    pub index: usize,
    pub operation: Operation,
}

impl Instruction {
    /// The instruction that applies `gate` to slot `index`.
    pub fn gate(index: usize, gate: GateKind) -> (instruction: Instruction)
        ensures
            instruction == (Instruction { index, operation: Operation::Gate(gate) }),
    {
        Instruction { index, operation: Operation::Gate(gate) }
    }

    /// The instruction that measures slot `index`.
    pub fn measure(index: usize) -> (instruction: Instruction)
        ensures
            instruction == (Instruction { index, operation: Operation::Measure }),
    {
        Instruction { index, operation: Operation::Measure }
    }

    /// Whether the instruction's index names a slot of a register with
    /// `width` slots.
    pub open spec fn fits(self, width: nat) -> bool {
        self.index < width
    }
}

} // verus!

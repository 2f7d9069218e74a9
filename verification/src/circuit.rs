use vstd::prelude::*;
use vstd::utf8::{encode_utf8, encode_utf8_decode_utf8};
use crate::error::SimError;
use crate::gate::{GateKind, Instruction, Operation};

verus! {

/// The instructions of the preset called `name`, or `None` where no preset
/// has that name.
///
/// The names are labels. None of these short programs carries out the
/// algorithm it is named after: the model has no joint state of two qubits.
pub open spec fn preset_program(name: Seq<char>) -> Option<Seq<Instruction>> {
    if name == "bell_pair"@ {
        Some(
            seq![
                Instruction { index: 0, operation: Operation::Gate(GateKind::Hadamard) },
                Instruction { index: 1, operation: Operation::Gate(GateKind::PauliX) },
            ],
        )
    } else if name == "qft_like"@ {
        Some(
            seq![
                Instruction { index: 0, operation: Operation::Gate(GateKind::Hadamard) },
                Instruction { index: 1, operation: Operation::Gate(GateKind::ControlledPhaseShift) },
            ],
        )
    } else if name == "grover_like"@ {
        Some(
            seq![
                Instruction { index: 0, operation: Operation::Gate(GateKind::Hadamard) },
                Instruction { index: 1, operation: Operation::Gate(GateKind::Hadamard) },
                Instruction { index: 0, operation: Operation::Gate(GateKind::PauliX) },
                Instruction { index: 1, operation: Operation::Gate(GateKind::ControlledPhaseShift) },
            ],
        )
    } else if name == "teleportation_like"@ {
        Some(
            seq![
                Instruction { index: 0, operation: Operation::Gate(GateKind::Hadamard) },
                Instruction { index: 1, operation: Operation::Gate(GateKind::ControlledPhaseShift) },
                Instruction { index: 0, operation: Operation::Measure },
                Instruction { index: 1, operation: Operation::Gate(GateKind::PauliX) },
            ],
        )
    } else {
        None
    }
}

/// Whether two strings hold the same characters.
fn same_text(left: &str, right: &str) -> (same: bool)
    ensures
        same == (left@ == right@),
{
    let a = left.as_bytes();
    let b = right.as_bytes();
    proof {
        // A string is determined by its bytes.
        encode_utf8_decode_utf8(left@);
        encode_utf8_decode_utf8(right@);
    }
    if a.len() != b.len() {
        return false;
    }
    let mut i: usize = 0;
    while i < a.len()
        invariant
            i <= a.len(),
            a.len() == b.len(),
            a@ == encode_utf8(left@),
            b@ == encode_utf8(right@),
            forall|k: int| 0 <= k < i ==> a@[k] == b@[k],
        decreases a.len() - i,
    {
        if a[i] != b[i] {
            return false;
        }
        i += 1;
    }
    assert(a@ =~= b@);
    true
}

/// An ordered list of instructions, to be replayed against a register.
///
/// A circuit does not know which register it will run on, so it accepts any
/// index. The run checks each index against the register it is given.
pub struct Circuit {
    instructions: Vec<Instruction>,
}

impl View for Circuit {
    type V = Seq<Instruction>;

    closed spec fn view(&self) -> Seq<Instruction> {
        self.instructions@
    }
}

impl Circuit {
    /// The empty circuit.
    pub fn new() -> (circuit: Circuit)
        ensures
            circuit@ == Seq::<Instruction>::empty(),
    {
        Circuit { instructions: Vec::new() }
    }

    /// The number of instructions.
    pub fn len(&self) -> (n: usize)
        ensures
            n == self@.len(),
    {
        self.instructions.len()
    }

    /// The instruction at `position`, counted from 0 in the order of
    /// appending.
    pub fn get(&self, position: usize) -> (instruction: Option<Instruction>)
        ensures
            instruction == if position < self@.len() {
                Some(self@[position as int])
            } else {
                None
            },
    {
        if position < self.instructions.len() {
            Some(self.instructions[position])
        } else {
            None
        }
    }

    /// A copy of the instructions, in the order of appending.
    pub fn instructions(&self) -> (all: Vec<Instruction>)
        ensures
            all@ == self@,
    {
        let count = self.instructions.len();
        let mut all: Vec<Instruction> = Vec::new();
        let mut position: usize = 0;
        while position < count
            invariant
                position <= count,
                count == self.instructions@.len(),
                all@ == self.instructions@.take(position as int),
            decreases count - position,
        {
            all.push(self.instructions[position]);
            position += 1;
            assert(self.instructions@.take(position as int) == self.instructions@.take(
                position - 1,
            ).push(self.instructions@[position - 1]));
        }
        assert(self.instructions@.take(count as int) =~= self.instructions@);
        all
    }

    /// Adds, at the end, the instruction that applies `gate` to slot `index`.
    pub fn append(&mut self, index: usize, gate: GateKind)
        ensures
            final(self)@ == old(self)@.push(
                Instruction { index, operation: Operation::Gate(gate) },
            ),
    {
        self.instructions.push(Instruction::gate(index, gate));
    }

    /// Adds, at the end, the instruction that measures slot `index` on the
    /// spot.
    pub fn append_measure(&mut self, index: usize)
        ensures
            final(self)@ == old(self)@.push(Instruction { index, operation: Operation::Measure }),
    {
        self.instructions.push(Instruction::measure(index));
    }

    /// Removes every instruction.
    pub fn clear(&mut self)
        ensures
            final(self)@ == Seq::<Instruction>::empty(),
    {
        self.instructions.clear();
    }

    /// Replaces the circuit by the preset called `name`.
    ///
    /// The old instructions are dropped first, so an unknown name is reported
    /// and leaves the circuit empty.
    pub fn load_preset(&mut self, name: &str) -> (loaded: Result<(), SimError>)
        ensures
            match preset_program(name@) {
                Some(program) => loaded is Ok && final(self)@ == program,
                None => loaded == Err::<(), SimError>(SimError::UnknownPreset) && final(self)@
                    == Seq::<Instruction>::empty(),
            },
    {
        self.instructions.clear();
        if same_text(name, "bell_pair") {
            self.instructions.push(Instruction::gate(0, GateKind::Hadamard));
            self.instructions.push(Instruction::gate(1, GateKind::PauliX));
        } else if same_text(name, "qft_like") {
            self.instructions.push(Instruction::gate(0, GateKind::Hadamard));
            self.instructions.push(Instruction::gate(1, GateKind::ControlledPhaseShift));
        } else if same_text(name, "grover_like") {
            self.instructions.push(Instruction::gate(0, GateKind::Hadamard));
            self.instructions.push(Instruction::gate(1, GateKind::Hadamard));
            self.instructions.push(Instruction::gate(0, GateKind::PauliX));
            self.instructions.push(Instruction::gate(1, GateKind::ControlledPhaseShift));
        } else if same_text(name, "teleportation_like") {
            self.instructions.push(Instruction::gate(0, GateKind::Hadamard));
            self.instructions.push(Instruction::gate(1, GateKind::ControlledPhaseShift));
            self.instructions.push(Instruction::measure(0));
            self.instructions.push(Instruction::gate(1, GateKind::PauliX));
        } else {
            return Err(SimError::UnknownPreset);
        }
        assert(self.instructions@ =~= preset_program(name@).unwrap());
        Ok(())
    }
}

} // verus!

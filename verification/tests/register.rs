use quantum_simulator::{Outcome, Register, SimError};

#[test]
fn new_register_has_one_unmeasured_qubit() {
    let register = Register::new(7u32);
    assert_eq!(register.len(), 1);
    assert_eq!(register.get(0), Ok(&7u32));
    assert_eq!(register.measurement_of(0), None);
}

#[test]
fn add_qubit_appends_state_and_empty_slot() {
    let mut register = Register::new(1u32);
    register.set_measurement(0, Outcome::One).unwrap();
    register.add_qubit(2);
    register.add_qubit(3);
    assert_eq!(register.len(), 3);
    assert_eq!(register.get(0), Ok(&1));
    assert_eq!(register.get(1), Ok(&2));
    assert_eq!(register.get(2), Ok(&3));
    assert_eq!(register.measurement_of(0), Some(Outcome::One));
    assert_eq!(register.measurement_of(1), None);
    assert_eq!(register.measurement_of(2), None);
}

#[test]
fn reset_leaves_one_fresh_qubit() {
    let mut register = Register::new(1u32);
    register.add_qubit(2);
    register.set_measurement(0, Outcome::Zero).unwrap();
    register.set_measurement(1, Outcome::One).unwrap();
    register.reset(9);
    assert_eq!(register.len(), 1);
    assert_eq!(register.get(0), Ok(&9));
    assert_eq!(register.measurement_of(0), None);
    assert_eq!(register.get(1), Err(SimError::IndexOutOfRange));
}

#[test]
fn get_rejects_index_at_and_past_the_end() {
    let mut register = Register::new(0u8);
    register.add_qubit(1);
    assert_eq!(register.get(1), Ok(&1));
    assert_eq!(register.get(2), Err(SimError::IndexOutOfRange));
    assert_eq!(register.get(usize::MAX), Err(SimError::IndexOutOfRange));
}

#[test]
fn get_mut_changes_one_state_only() {
    let mut register = Register::new((1i32, 0i32));
    register.add_qubit((1, 0));
    register.set_measurement(1, Outcome::One).unwrap();
    {
        let state = register.get_mut(1).unwrap();
        *state = (0, 1);
    }
    assert_eq!(register.get(0), Ok(&(1, 0)));
    assert_eq!(register.get(1), Ok(&(0, 1)));
    assert_eq!(register.measurement_of(1), Some(Outcome::One));
    assert_eq!(register.len(), 2);
}

#[test]
fn get_mut_rejects_invalid_index() {
    let mut register = Register::new(5u8);
    assert_eq!(register.get_mut(1), Err(SimError::IndexOutOfRange));
    assert_eq!(register.get(0), Ok(&5));
    assert_eq!(register.len(), 1);
}

#[test]
fn set_replaces_one_state_only() {
    let mut register = Register::new(1u8);
    register.add_qubit(2);
    register.set_measurement(0, Outcome::One).unwrap();
    assert_eq!(register.set(0, 5), Ok(()));
    assert_eq!(register.get(0), Ok(&5));
    assert_eq!(register.get(1), Ok(&2));
    assert_eq!(register.measurement_of(0), Some(Outcome::One));
    assert_eq!(register.set(2, 6), Err(SimError::IndexOutOfRange));
    assert_eq!(register.len(), 2);
    assert_eq!(register.get(0), Ok(&5));
    assert_eq!(register.get(1), Ok(&2));
}

#[test]
fn set_measurement_overwrites_previous_outcome() {
    let mut register = Register::new(0u8);
    assert_eq!(register.set_measurement(0, Outcome::Zero), Ok(()));
    assert_eq!(register.measurement_of(0), Some(Outcome::Zero));
    assert_eq!(register.set_measurement(0, Outcome::One), Ok(()));
    assert_eq!(register.measurement_of(0), Some(Outcome::One));
    assert_eq!(register.get(0), Ok(&0));
}

#[test]
fn set_measurement_rejects_invalid_index() {
    let mut register = Register::new(0u8);
    assert_eq!(register.set_measurement(1, Outcome::One), Err(SimError::IndexOutOfRange));
    assert_eq!(register.measurement_of(0), None);
    assert_eq!(register.len(), 1);
}

#[test]
fn measurement_of_invalid_index_is_none() {
    let mut register = Register::new(0u8);
    register.set_measurement(0, Outcome::One).unwrap();
    assert_eq!(register.measurement_of(1), None);
    assert_eq!(register.measurement_of(usize::MAX), None);
}

#[test]
fn outcome_bits_round_trip() {
    assert_eq!(Outcome::Zero.bit(), 0);
    assert_eq!(Outcome::One.bit(), 1);
    assert_eq!(Outcome::from_bit(0), Some(Outcome::Zero));
    assert_eq!(Outcome::from_bit(1), Some(Outcome::One));
    assert_eq!(Outcome::from_bit(2), None);
    assert_eq!(Outcome::from_bit(u32::MAX), None);
}

#[test]
fn error_messages_are_distinct() {
    let all = [
        SimError::IndexOutOfRange,
        SimError::DegenerateState,
        SimError::InvalidState,
        SimError::UnknownPreset,
        SimError::MalformedInstruction,
    ];
    assert_eq!(SimError::IndexOutOfRange.message(), "index out of range");
    for (i, a) in all.iter().enumerate() {
        for (j, b) in all.iter().enumerate() {
            assert_eq!(i == j, a.message() == b.message());
        }
    }
}

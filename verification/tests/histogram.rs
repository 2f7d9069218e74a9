use quantum_simulator::{histogram, Histogram, Outcome, Register};

#[test]
fn histogram_of_zero_one_one() {
    let mut register = Register::new(());
    register.add_qubit(());
    register.add_qubit(());
    register.set_measurement(0, Outcome::Zero).unwrap();
    register.set_measurement(1, Outcome::One).unwrap();
    register.set_measurement(2, Outcome::One).unwrap();
    let counts = histogram(&register);
    assert_eq!(counts, Histogram { zeros: 1, ones: 2 });
    assert_eq!(counts.count(Outcome::Zero), 1);
    assert_eq!(counts.count(Outcome::One), 2);
}

#[test]
fn histogram_skips_unmeasured_slots() {
    let mut register = Register::new(());
    register.add_qubit(());
    register.add_qubit(());
    register.add_qubit(());
    register.set_measurement(1, Outcome::Zero).unwrap();
    register.set_measurement(3, Outcome::Zero).unwrap();
    assert_eq!(histogram(&register), Histogram { zeros: 2, ones: 0 });
}

#[test]
fn histogram_of_fresh_register_is_empty() {
    let register = Register::new(0u8);
    let counts = histogram(&register);
    assert_eq!(counts, Histogram { zeros: 0, ones: 0 });
}

#[test]
fn histogram_counts_last_recorded_outcome_only() {
    let mut register = Register::new(0u8);
    register.set_measurement(0, Outcome::Zero).unwrap();
    register.set_measurement(0, Outcome::One).unwrap();
    assert_eq!(histogram(&register), Histogram { zeros: 0, ones: 1 });
}

#[test]
fn counts_and_unmeasured_slots_add_up_to_the_width() {
    let mut register = Register::new(());
    for _ in 0..6 {
        register.add_qubit(());
    }
    register.set_measurement(0, Outcome::One).unwrap();
    register.set_measurement(2, Outcome::Zero).unwrap();
    register.set_measurement(3, Outcome::One).unwrap();
    register.set_measurement(6, Outcome::One).unwrap();
    let counts = histogram(&register);
    let unmeasured = (0..register.len()).filter(|&i| register.measurement_of(i).is_none()).count();
    assert_eq!(counts, Histogram { zeros: 1, ones: 3 });
    assert_eq!(unmeasured, 3);
    assert_eq!(counts.zeros + counts.ones + unmeasured, register.len());
}

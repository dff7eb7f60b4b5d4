use norma::machine::Machine;
use norma::natural::Natural;
use std::cmp::Ordering;

fn n(value: u64) -> Natural {
    Natural::from_u64(value)
}

#[test]
fn machine_new_has_input_and_output() {
    let machine = Machine::new(n(5));
    assert_eq!(machine.get_value("X"), n(5));
    assert_eq!(machine.get_value("Y"), n(0));
    assert_eq!(machine.output(), n(0));
    let mut names = machine.register_names();
    names.sort();
    assert_eq!(names, &["X", "Y"]);
    let default = Machine::default();
    assert_eq!(default.get_value("X"), n(0));
}

#[test]
fn machine_input_output() {
    let mut machine = Machine::new(n(0));
    machine.input(n(42));
    assert_eq!(machine.get_value("X"), n(42));
    machine.insert_with_value("Y", n(9));
    assert_eq!(machine.output(), n(9));
}

#[test]
fn machine_create_only_once() {
    let mut machine = Machine::new(n(1));
    assert!(machine.create("A"));
    machine.inc("A");
    assert!(!machine.create("A"));
    assert_eq!(machine.get_value("A"), n(1));
    assert!(!machine.create("X"));
    assert_eq!(machine.get_value("X"), n(1));
    assert!(machine.register_exists("A"));
    assert!(!machine.register_exists("B"));
    machine.insert("A");
    assert_eq!(machine.get_value("A"), n(0));
}

#[test]
fn machine_inc_dec_saturate() {
    let mut machine = Machine::new(n(0));
    machine.dec("X");
    assert_eq!(machine.get_value("X"), n(0));
    machine.inc("X");
    machine.inc("X");
    machine.dec("X");
    assert_eq!(machine.get_value("X"), n(1));
    assert!(!machine.is_zero("X"));
    machine.clear("X");
    assert!(machine.is_zero("X"));
}

#[test]
fn machine_inc_then_dec_restores() {
    let mut machine = Machine::new(n(7));
    machine.inc("X");
    machine.dec("X");
    assert_eq!(machine.get_value("X"), n(7));
    machine.inc("Y");
    machine.dec("Y");
    assert_eq!(machine.get_value("Y"), n(0));
}

#[test]
fn machine_add_and_sub_registers() {
    let mut machine = Machine::new(n(3));
    machine.insert_with_value("A", n(10));
    machine.insert_with_value("T", n(99));
    machine.add("A", "X", "T");
    assert_eq!(machine.get_value("A"), n(13));
    assert_eq!(machine.get_value("X"), n(3));
    assert_eq!(machine.get_value("T"), n(0));
    machine.insert_with_value("T", n(4));
    machine.sub("A", "X", "T");
    assert_eq!(machine.get_value("A"), n(10));
    assert_eq!(machine.get_value("T"), n(0));
    machine.sub("X", "A", "T");
    assert_eq!(machine.get_value("X"), n(0));
}

#[test]
fn machine_add_to_itself() {
    let mut machine = Machine::new(n(6));
    machine.insert("T");
    machine.add("X", "X", "T");
    assert_eq!(machine.get_value("X"), n(12));
}

#[test]
fn machine_constants() {
    let mut machine = Machine::new(n(5));
    machine.add_const("X", &n(10));
    assert_eq!(machine.get_value("X"), n(15));
    machine.sub_const("X", &n(4));
    assert_eq!(machine.get_value("X"), n(11));
    machine.sub_const("X", &n(40));
    assert_eq!(machine.get_value("X"), n(0));
}

#[test]
fn machine_compare() {
    let mut machine = Machine::new(n(5));
    machine.insert_with_value("A", n(7));
    machine.insert_with_value("T", n(3));
    assert_eq!(machine.cmp("X", "A", "T"), Ordering::Less);
    assert_eq!(machine.get_value("T"), n(0));
    assert_eq!(machine.cmp("A", "X", "T"), Ordering::Greater);
    assert_eq!(machine.cmp("A", "A", "T"), Ordering::Equal);
    assert_eq!(machine.cmp("X", "T", "T"), Ordering::Greater);
    assert_eq!(machine.cmp_const("X", &n(5)), Ordering::Equal);
    assert_eq!(machine.cmp_const("X", &n(6)), Ordering::Less);
    assert_eq!(machine.cmp_const("X", &n(4)), Ordering::Greater);
}

#[test]
fn machine_clear_all_twice() {
    let mut machine = Machine::new(n(5));
    machine.insert_with_value("A", n(7));
    machine.clear_all();
    assert_eq!(machine.get_value("X"), n(0));
    assert_eq!(machine.get_value("A"), n(0));
    machine.clear_all();
    assert_eq!(machine.get_value("A"), n(0));
    assert!(machine.register_exists("A"));
}

#[test]
fn machine_export_registers() {
    let mut machine = Machine::new(Natural::from_u64(u64::MAX).add(&n(1)));
    machine.insert_with_value("A", n(12));
    let mut exported = machine.export_registers();
    exported.sort();
    assert_eq!(
        exported,
        vec![
            ("A".to_string(), "12".to_string()),
            ("X".to_string(), "18446744073709551616".to_string()),
            ("Y".to_string(), "0".to_string()),
        ]
    );
}

#[test]
fn machine_clone_keeps_registers() {
    let mut machine = Machine::new(n(2));
    machine.insert_with_value("B", n(8));
    let copy = machine.clone();
    machine.inc("B");
    assert_eq!(copy.get_value("B"), n(8));
    assert_eq!(copy.get_value("X"), n(2));
}

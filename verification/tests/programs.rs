use norma::natural::Natural;
use norma::square;

fn n(value: u64) -> Natural {
    Natural::from_u64(value)
}

#[test]
fn square_of_numerals() {
    let machine = square("7").unwrap();
    assert_eq!(machine.get_value("Y"), n(49));
    assert_eq!(machine.get_value("VAL"), n(7));
    assert_eq!(machine.get_value("X"), n(0));
    assert_eq!(machine.get_value("TMP"), n(0));
    assert_eq!(machine.get_value("CNT"), n(0));
    assert_eq!(square("0").unwrap().get_value("Y"), n(0));
    assert_eq!(square("12").unwrap().get_value("Y"), n(144));
    assert!(square("").is_none());
    assert!(square("1a").is_none());
}

#[test]
fn square_reads_signs_and_underscores() {
    let machine = square("+5").unwrap();
    assert_eq!(machine.get_value("Y"), n(25));
    assert_eq!(machine.get_value("VAL"), n(5));
    assert_eq!(square("1_0").unwrap().get_value("Y"), n(100));
    assert!(square("-1").is_none());
    assert!(square("+").is_none());
    assert!(square("_1").is_none());
    assert!(square("++1").is_none());
}

#[test]
fn fixed_test_program() {
    let machine = norma::test("0").unwrap();
    assert_eq!(machine.get_value("X"), n(1));
    assert_eq!(machine.get_value("J"), n(6));
    assert_eq!(machine.get_value("Y"), n(0));
    let machine = norma::test("5").unwrap();
    assert_eq!(machine.get_value("X"), n(5));
    assert_eq!(machine.get_value("J"), n(6));
    assert!(norma::test("-1").is_none());
    let machine = norma::test("+0_0").unwrap();
    assert_eq!(machine.get_value("X"), n(1));
    assert_eq!(machine.get_value("J"), n(6));
}

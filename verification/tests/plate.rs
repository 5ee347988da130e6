use plate_machine::error::{DecodeError, MachineError};
use plate_machine::operator::{Data, Operator, Ort};
use plate_machine::plate::Plate;

#[test]
fn plate_not() {
    let plate_a = Plate::from(0xFFFFFFFF);
    assert_eq!(plate_a.not().unwrap(), 0);
}

#[test]
fn plate_and() {
    let plate_a = Plate::from(0x0F0F0F0F);
    let plate_b = Plate::from(0xF0F0F0F0);
    assert_eq!(plate_a.bitand(&plate_b).unwrap(), 0);
}

#[test]
fn plate_new_reads_big_endian() {
    let plate = Plate::new([0xDE, 0xAD, 0xBE, 0xEF]);
    assert_eq!(plate.unwrap(), 0xDEADBEEF);
    assert_eq!(Plate::new([0, 0, 0, 7]).unwrap(), 7);
    assert_eq!(Plate::new([1, 0, 0, 0]).unwrap(), 0x01000000);
}

#[test]
fn plate_from_round_trips() {
    assert_eq!(Plate::from(0).unwrap(), 0);
    assert_eq!(Plate::from(0x12345678).unwrap(), 0x12345678);
}

#[test]
fn plate_add_wraps() {
    let a = Plate::from(0xFFFFFFFF);
    let b = Plate::from(1);
    assert_eq!(a.add(&b).unwrap(), 0);
    assert_eq!(Plate::from(2).add(&Plate::from(3)).unwrap(), 5);
}

#[test]
fn plate_mul_wraps() {
    let a = Plate::from(0x10000);
    assert_eq!(a.mul(&a).unwrap(), 0);
    assert_eq!(Plate::from(6).mul(&Plate::from(7)).unwrap(), 42);
}

#[test]
fn plate_div_truncates() {
    let q = Plate::from(7).div(&Plate::from(2)).unwrap();
    assert_eq!(q.unwrap(), 3);
}

#[test]
fn plate_div_by_zero_is_fault() {
    let r = Plate::from(7).div(&Plate::from(0));
    assert_eq!(r, Err(MachineError::DivideByZero));
}

#[test]
fn notand_is_self_consistent() {
    let x = Plate::from(0x12345678);
    assert_eq!(x.bitand(&x).not().unwrap(), !0x12345678u32);
    let ones = Plate::from(0xFFFFFFFF);
    assert_eq!(ones.bitand(&ones).not().unwrap(), 0);
}

#[test]
fn decode_standard_fields() {
    let add = Plate::from(0x30000081).get_operator_data().unwrap();
    assert_eq!(add, Operator::Addition(Data { a: 2, b: 0, c: 1 }));
    let amend = Plate::from(0x20000054).get_operator_data().unwrap();
    assert_eq!(amend, Operator::ArrayAmendment(Data { a: 1, b: 2, c: 4 }));
    let halt = Plate::from(0x70000000).get_operator_data().unwrap();
    assert_eq!(halt, Operator::Halt);
}

#[test]
fn decode_opcode_is_top_four_bits() {
    let p = 0x0000000A;
    let op = Plate::from(p).get_operator_data().unwrap();
    assert_eq!(op, Operator::ConditionalMove(Data { a: 0, b: 1, c: 2 }));
    let out = Plate::from(0xA0000001).get_operator_data().unwrap();
    assert_eq!(out, Operator::Output(Data { a: 0, b: 0, c: 1 }));
}

#[test]
fn decode_orthography_fields() {
    let op = Plate::from(0xD6000004).get_operator_data().unwrap();
    assert_eq!(op, Operator::Orthography(Ort { a: 3, data: 4 }));
    let wide = Plate::from(0xD1FFFFFF).get_operator_data().unwrap();
    assert_eq!(wide, Operator::Orthography(Ort { a: 0, data: 0x1FFFFFF }));
}

#[test]
fn decode_rejects_illegal_opcodes() {
    assert_eq!(
        Plate::from(0xE0000000).get_operator_data(),
        Err(DecodeError { word: 0xE0000000 })
    );
    assert_eq!(
        Plate::from(0xF1234567).get_operator_data(),
        Err(DecodeError { word: 0xF1234567 })
    );
}

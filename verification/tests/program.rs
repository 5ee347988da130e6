use plate_machine::error::LoadError;
use plate_machine::program::parse_program;

#[test]
fn parse_assembles_big_endian_words() {
    let bytes: Vec<u8> = vec![0xDE, 0xAD, 0xBE, 0xEF, 0x00, 0x00, 0x00, 0x2A];
    let plates = parse_program(&bytes).unwrap();
    assert_eq!(plates.len(), 2);
    assert_eq!(plates[0].unwrap(), 0xDEADBEEF);
    assert_eq!(plates[1].unwrap(), 42);
}

#[test]
fn parse_accepts_empty_image() {
    let bytes: Vec<u8> = Vec::new();
    let plates = parse_program(&bytes).unwrap();
    assert_eq!(plates.len(), 0);
}

#[test]
fn parse_rejects_trailing_partial_word() {
    let bytes: Vec<u8> = vec![1, 2, 3, 4, 5];
    assert_eq!(parse_program(&bytes), Err(LoadError { n_bytes: 5 }));
}

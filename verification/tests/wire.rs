use std::io::Read;

use wolfram_expr::{Expr, Symbol};

fn sin_of_1() -> Expr {
    Expr::normal(Expr::symbol(Symbol::new("System`Sin")), vec![Expr::from(1)])
}

#[test]
fn test_golden_sin_encoding() {
    let expr = sin_of_1();
    let mut expected: Vec<u8> = Vec::new();
    expected.extend_from_slice(b"8:");
    expected.push(b'f');
    expected.push(1); // one argument
    expected.push(b's');
    expected.push(10); // byte length of "System`Sin"
    expected.extend_from_slice(b"System`Sin");
    expected.push(b'L');
    expected.extend_from_slice(&1i64.to_le_bytes());
    assert_eq!(expr.as_wxf(), expected);
}

#[test]
fn test_golden_curried_encodings() {
    // System`Sin[1][2]
    let once = sin_of_1();
    let twice = Expr::normal(once.clone(), vec![Expr::from(2)]);
    let mut expected: Vec<u8> = Vec::new();
    expected.extend_from_slice(b"8:");
    expected.push(b'f');
    expected.push(1);
    // the head is the full encoding of System`Sin[1]
    expected.push(b'f');
    expected.push(1);
    expected.push(b's');
    expected.push(10);
    expected.extend_from_slice(b"System`Sin");
    expected.push(b'L');
    expected.extend_from_slice(&1i64.to_le_bytes());
    // then the argument 2
    expected.push(b'L');
    expected.extend_from_slice(&2i64.to_le_bytes());
    assert_eq!(twice.as_wxf(), expected);

    // System`Sin[1][2][3] nests one layer more
    let thrice = Expr::normal(twice.clone(), vec![Expr::from(3)]);
    let mut expected3: Vec<u8> = Vec::new();
    expected3.extend_from_slice(b"8:");
    expected3.push(b'f');
    expected3.push(1);
    expected3.extend_from_slice(&twice.as_wxf()[2..]);
    expected3.push(b'L');
    expected3.extend_from_slice(&3i64.to_le_bytes());
    assert_eq!(thrice.as_wxf(), expected3);
}

#[test]
fn test_atom_encodings() {
    assert_eq!(
        Expr::from(-1).as_wxf(),
        [b"8:L".to_vec(), (-1i64).to_le_bytes().to_vec()].concat()
    );
    let mut expected_str = b"8:S\x05hello".to_vec();
    assert_eq!(Expr::from("hello").as_wxf(), expected_str);
    expected_str[3] = 5; // the length prefix is the varint 5
    assert_eq!(Expr::from("hello").as_wxf(), expected_str);

    let real = Expr::real_atom(wolfram_expr::F64Bits::try_new(2.5f64.to_bits()).unwrap());
    let mut expected_real = b"8:r".to_vec();
    expected_real.extend_from_slice(&2.5f64.to_le_bytes());
    assert_eq!(real.as_wxf(), expected_real);
}

#[test]
fn test_varint_length_prefix() {
    // a string of 300 bytes takes a two-byte varint length: 300 = 0b10_0101100
    let long = "a".repeat(300);
    let bytes = Expr::from(long.as_str()).as_wxf();
    assert_eq!(&bytes[..3], b"8:S");
    assert_eq!(bytes[3], 0b1010_1100); // low seven bits with the continuation bit
    assert_eq!(bytes[4], 0b0000_0010); // high bits
    assert_eq!(bytes.len(), 2 + 1 + 2 + 300);
}

#[test]
fn test_round_trip_determinism() {
    let expr = Expr::list(vec![
        Expr::from("x"),
        sin_of_1(),
        Expr::from(-7),
        Expr::from(true),
    ]);
    assert_eq!(expr.as_wxf(), expr.as_wxf());
    let same = Expr::list(vec![
        Expr::from("x"),
        sin_of_1(),
        Expr::from(-7),
        Expr::from(true),
    ]);
    assert_eq!(expr.as_wxf(), same.as_wxf());
    // distinct trees encode differently
    let other = Expr::list(vec![
        Expr::from("x"),
        sin_of_1(),
        Expr::from(-8),
        Expr::from(true),
    ]);
    assert_ne!(expr.as_wxf(), other.as_wxf());
    // a string atom and a symbol atom with the same text differ
    assert_ne!(
        Expr::from("System`Sin").as_wxf(),
        Expr::symbol(Symbol::new("System`Sin")).as_wxf()
    );
}

#[test]
fn test_compressed_encoding() {
    let expr = Expr::list(vec![sin_of_1(), Expr::from("hello"), Expr::from(12345)]);
    let compressed = expr.as_wxf_compressed();
    assert_eq!(&compressed[..3], b"8C:");
    // inflating the payload recovers the uncompressed node encoding
    let mut decoder = flate2::read::ZlibDecoder::new(&compressed[3..]);
    let mut inflated = Vec::new();
    decoder.read_to_end(&mut inflated).unwrap();
    assert_eq!(inflated, expr.as_wxf()[2..].to_vec());
}

#[test]
fn test_empty_application_encoding() {
    let empty = Expr::normal(Expr::symbol(Symbol::new("Global`f")), vec![]);
    let mut expected: Vec<u8> = Vec::new();
    expected.extend_from_slice(b"8:f\x00s\x08Global`f");
    assert_eq!(empty.as_wxf(), expected);
}

#[test]
fn test_varint_boundary() {
    // 127 bytes still fit a one-byte varint; 128 take two
    let at_edge = "b".repeat(127);
    let bytes = Expr::from(at_edge.as_str()).as_wxf();
    assert_eq!(bytes[3], 127);
    assert_eq!(bytes.len(), 2 + 1 + 1 + 127);
    let over_edge = "b".repeat(128);
    let bytes = Expr::from(over_edge.as_str()).as_wxf();
    assert_eq!(bytes[3], 0b1000_0000);
    assert_eq!(bytes[4], 1);
    assert_eq!(bytes.len(), 2 + 1 + 2 + 128);
}

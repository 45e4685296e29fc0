use sumnet::dataset::parse_records;
use sumnet::dataset::Error;

fn field(bytes: &[u8]) -> Vec<u8> {
    bytes.to_vec()
}

#[test]
fn parse_simple() {
    let bytes = b"left,right,result\n1,2,3\n4,5,9\n".to_vec();
    let recs = parse_records(&bytes).unwrap();
    assert_eq!(recs.len(), 2);
    assert_eq!(recs[0].left, field(b"1"));
    assert_eq!(recs[0].right, field(b"2"));
    assert_eq!(recs[0].result, field(b"3"));
    assert_eq!(recs[1].left, field(b"4"));
    assert_eq!(recs[1].right, field(b"5"));
    assert_eq!(recs[1].result, field(b"9"));
}

#[test]
fn parse_crlf() {
    let bytes = b"left,right,result\r\n1.5,2.5,4\r\n".to_vec();
    let recs = parse_records(&bytes).unwrap();
    assert_eq!(recs.len(), 1);
    assert_eq!(recs[0].left, field(b"1.5"));
    assert_eq!(recs[0].right, field(b"2.5"));
    assert_eq!(recs[0].result, field(b"4"));
}

#[test]
fn parse_empty_input() {
    let bytes = Vec::new();
    let recs = parse_records(&bytes).unwrap();
    assert_eq!(recs.len(), 0);
}

#[test]
fn parse_header_only() {
    let bytes = b"left,right,result\n".to_vec();
    let recs = parse_records(&bytes).unwrap();
    assert_eq!(recs.len(), 0);
}

#[test]
fn parse_no_trailing_newline() {
    let bytes = b"left,right,result\n7,8,15".to_vec();
    let recs = parse_records(&bytes).unwrap();
    assert_eq!(recs.len(), 1);
    assert_eq!(recs[0].left, field(b"7"));
    assert_eq!(recs[0].right, field(b"8"));
    assert_eq!(recs[0].result, field(b"15"));
}

#[test]
fn parse_skips_blank_lines() {
    let bytes = b"left,right,result\n\n1,2,3\n\r\n4,5,9\n".to_vec();
    let recs = parse_records(&bytes).unwrap();
    assert_eq!(recs.len(), 2);
    assert_eq!(recs[0].left, field(b"1"));
    assert_eq!(recs[1].result, field(b"9"));
}

#[test]
fn parse_too_few_fields() {
    let bytes = b"left,right,result\n1,2,3\n4,5\n".to_vec();
    let err = parse_records(&bytes).unwrap_err();
    match err {
        Error::FieldCount { row, found } => {
            assert_eq!(row, 1);
            assert_eq!(found, 2);
        }
    }
}

#[test]
fn parse_too_many_fields() {
    let bytes = b"left,right,result\n1,2,3,4\n".to_vec();
    let err = parse_records(&bytes).unwrap_err();
    match err {
        Error::FieldCount { row, found } => {
            assert_eq!(row, 0);
            assert_eq!(found, 4);
        }
    }
}

#[test]
fn parse_keeps_empty_fields() {
    let bytes = b"left,right,result\n,,\n".to_vec();
    let recs = parse_records(&bytes).unwrap();
    assert_eq!(recs.len(), 1);
    assert_eq!(recs[0].left, field(b""));
    assert_eq!(recs[0].right, field(b""));
    assert_eq!(recs[0].result, field(b""));
}

use sumnet::table::parse_rows;
use sumnet::table::split_bytes;

#[test]
fn split_bytes_plain() {
    let s = b"a,bc,,d".to_vec();
    let pieces = split_bytes(&s, b',');
    assert_eq!(
        pieces,
        vec![b"a".to_vec(), b"bc".to_vec(), b"".to_vec(), b"d".to_vec()]
    );
}

#[test]
fn split_bytes_empty() {
    let s = Vec::new();
    let pieces = split_bytes(&s, b',');
    assert_eq!(pieces, vec![b"".to_vec()]);
}

#[test]
fn split_bytes_only_separators() {
    let s = b",,".to_vec();
    let pieces = split_bytes(&s, b',');
    assert_eq!(pieces, vec![b"".to_vec(), b"".to_vec(), b"".to_vec()]);
}

#[test]
fn rows_keep_header() {
    let bytes = b"h1,h2\r\nx,y\n".to_vec();
    let rows = parse_rows(&bytes);
    assert_eq!(rows.len(), 2);
    assert_eq!(rows[0], vec![b"h1".to_vec(), b"h2".to_vec()]);
    assert_eq!(rows[1], vec![b"x".to_vec(), b"y".to_vec()]);
}

#[test]
fn rows_ignore_blank_lines() {
    let bytes = b"\n\r\na\n\n".to_vec();
    let rows = parse_rows(&bytes);
    assert_eq!(rows.len(), 1);
    assert_eq!(rows[0], vec![b"a".to_vec()]);
}

#[test]
fn rows_strip_one_carriage_return_only() {
    let bytes = b"a\r\r\n".to_vec();
    let rows = parse_rows(&bytes);
    assert_eq!(rows.len(), 1);
    assert_eq!(rows[0], vec![b"a\r".to_vec()]);
}

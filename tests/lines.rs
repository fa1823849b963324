use tpc::impls::slice_reader;
use tpc::line::{create, line_bytes, LineInfo};

#[test]
fn first_line_position() {
    let source = b"1 + 2";
    assert_eq!(create(slice_reader::new(source), 4), LineInfo { start: 0, number: 1 });
}

#[test]
fn later_line_position() {
    let source = b"1\n2 +\n3 * *";
    assert_eq!(create(slice_reader::new(source), 10), LineInfo { start: 6, number: 3 });
    assert_eq!(line_bytes(slice_reader::new(source), 6), b"3 * *".to_vec());
    assert_eq!(line_bytes(slice_reader::new(source), 2), b"2 +".to_vec());
}

#[test]
fn line_stops_at_carriage_return() {
    let source = b"1 +\r\n";
    assert_eq!(line_bytes(slice_reader::new(source), 0), b"1 +".to_vec());
    assert_eq!(create(slice_reader::new(source), 99), LineInfo { start: 5, number: 2 });
}

use ws_codec::frame::{Frame, CONTROL_HEADER_LEN, MAX_HEADER_LEN};
use ws_codec::opcode::Opcode;

const MASK: [u8; 4] = [0x0a, 0xf1, 0x22, 0x33];

fn control(input: &[u8]) -> Vec<u8> {
    let frame = Frame { fin: true, opcode: Opcode::Binary, data: input };
    let mut out = Vec::with_capacity(input.len() + CONTROL_HEADER_LEN);
    frame.encode_control(&mut out, MASK);
    out
}

fn full(input: &[u8]) -> Vec<u8> {
    let frame = Frame { fin: true, opcode: Opcode::Binary, data: input };
    let mut out = Vec::with_capacity(input.len() + MAX_HEADER_LEN);
    frame.encode(&mut out, MASK);
    out
}

#[test]
fn encode_control_empty() {
    assert_eq!(control(&vec![]), vec![130, 128, 10, 241, 34, 51]);
}

#[test]
fn encode_control_hell() {
    assert_eq!(control(&vec![104, 101, 108, 108]), vec![130, 132, 10, 241, 34, 51, 98, 148, 78, 95]);
}

#[test]
fn encode_control_hello() {
    assert_eq!(control(&vec![104, 101, 108, 108, 111]), vec![130, 133, 10, 241, 34, 51, 98, 148, 78, 95, 101]);
}

#[test]
fn encode_control_hello_world() {
    assert_eq!(control(&vec![104, 101, 108, 108, 111, 32, 119, 111, 114, 108, 100]), vec![130, 139, 10, 241, 34, 51, 98, 148, 78, 95, 101, 209, 85, 92, 120, 157, 70]);
}

#[test]
fn encode_control_sixteen() {
    assert_eq!(control(&vec![108, 111, 114, 101, 109, 32, 105, 112, 115, 117, 109, 32, 100, 111, 108, 111]), vec![130, 144, 10, 241, 34, 51, 102, 158, 80, 86, 103, 209, 75, 67, 121, 132, 79, 19, 110, 158, 78, 92]);
}

#[test]
fn encode_control_seventeen() {
    assert_eq!(control(&vec![108, 111, 114, 101, 109, 32, 105, 112, 115, 117, 109, 32, 100, 111, 108, 111, 114]), vec![130, 145, 10, 241, 34, 51, 102, 158, 80, 86, 103, 209, 75, 67, 121, 132, 79, 19, 110, 158, 78, 92, 120]);
}

#[test]
fn encode_control_lorem_125() {
    assert_eq!(control(&vec![76, 111, 114, 101, 109, 32, 105, 112, 115, 117, 109, 32, 100, 111, 108, 111, 114, 32, 115, 105, 116, 32, 97, 109, 101, 116, 44, 32, 99, 111, 110, 115, 101, 99, 116, 101, 116, 117, 114, 32, 97, 100, 105, 112, 105, 115, 99, 105, 110, 103, 32, 101, 108, 105, 116, 44, 32, 115, 101, 100, 32, 100, 111, 32, 101, 105, 117, 115, 109, 111, 100, 32, 116, 101, 109, 112, 111, 114, 32, 105, 110, 99, 105, 100, 105, 100, 117, 110, 116, 32, 117, 116, 32, 108, 97, 98, 111, 114, 101, 32, 101, 116, 32, 100, 111, 108, 111, 114, 101, 32, 109, 97, 103, 110, 97, 32, 97, 108, 105, 113, 117, 97, 46, 32, 85]), vec![130, 253, 10, 241, 34, 51, 70, 158, 80, 86, 103, 209, 75, 67, 121, 132, 79, 19, 110, 158, 78, 92, 120, 209, 81, 90, 126, 209, 67, 94, 111, 133, 14, 19, 105, 158, 76, 64, 111, 146, 86, 86, 126, 132, 80, 19, 107, 149, 75, 67, 99, 130, 65, 90, 100, 150, 2, 86, 102, 152, 86, 31, 42, 130, 71, 87, 42, 149, 77, 19, 111, 152, 87, 64, 103, 158, 70, 19, 126, 148, 79, 67, 101, 131, 2, 90, 100, 146, 75, 87, 99, 149, 87, 93, 126, 209, 87, 71, 42, 157, 67, 81, 101, 131, 71, 19, 111, 133, 2, 87, 101, 157, 77, 65, 111, 209, 79, 82, 109, 159, 67, 19, 107, 157, 75, 66, 127, 144, 12, 19, 95]);
}

#[test]
fn encode_hello() {
    assert_eq!(full(&vec![104, 101, 108, 108, 111]), vec![130, 133, 10, 241, 34, 51, 98, 148, 78, 95, 101]);
}

#[test]
fn encode_hello_world() {
    assert_eq!(full(&vec![104, 101, 108, 108, 111, 32, 119, 111, 114, 108, 100]), vec![130, 139, 10, 241, 34, 51, 98, 148, 78, 95, 101, 209, 85, 92, 120, 157, 70]);
}

#[test]
fn encode_sixteen() {
    assert_eq!(full(&vec![108, 111, 114, 101, 109, 32, 105, 112, 115, 117, 109, 32, 100, 111, 108, 111]), vec![130, 144, 10, 241, 34, 51, 102, 158, 80, 86, 103, 209, 75, 67, 121, 132, 79, 19, 110, 158, 78, 92]);
}

#[test]
fn encode_seventeen() {
    assert_eq!(full(&vec![108, 111, 114, 101, 109, 32, 105, 112, 115, 117, 109, 32, 100, 111, 108, 111, 114]), vec![130, 145, 10, 241, 34, 51, 102, 158, 80, 86, 103, 209, 75, 67, 121, 132, 79, 19, 110, 158, 78, 92, 120]);
}

#[test]
fn encode_lorem_125() {
    assert_eq!(full(&vec![76, 111, 114, 101, 109, 32, 105, 112, 115, 117, 109, 32, 100, 111, 108, 111, 114, 32, 115, 105, 116, 32, 97, 109, 101, 116, 44, 32, 99, 111, 110, 115, 101, 99, 116, 101, 116, 117, 114, 32, 97, 100, 105, 112, 105, 115, 99, 105, 110, 103, 32, 101, 108, 105, 116, 44, 32, 115, 101, 100, 32, 100, 111, 32, 101, 105, 117, 115, 109, 111, 100, 32, 116, 101, 109, 112, 111, 114, 32, 105, 110, 99, 105, 100, 105, 100, 117, 110, 116, 32, 117, 116, 32, 108, 97, 98, 111, 114, 101, 32, 101, 116, 32, 100, 111, 108, 111, 114, 101, 32, 109, 97, 103, 110, 97, 32, 97, 108, 105, 113, 117, 97, 46, 32, 85]), vec![130, 253, 10, 241, 34, 51, 70, 158, 80, 86, 103, 209, 75, 67, 121, 132, 79, 19, 110, 158, 78, 92, 120, 209, 81, 90, 126, 209, 67, 94, 111, 133, 14, 19, 105, 158, 76, 64, 111, 146, 86, 86, 126, 132, 80, 19, 107, 149, 75, 67, 99, 130, 65, 90, 100, 150, 2, 86, 102, 152, 86, 31, 42, 130, 71, 87, 42, 149, 77, 19, 111, 152, 87, 64, 103, 158, 70, 19, 126, 148, 79, 67, 101, 131, 2, 90, 100, 146, 75, 87, 99, 149, 87, 93, 126, 209, 87, 71, 42, 157, 67, 81, 101, 131, 71, 19, 111, 133, 2, 87, 101, 157, 77, 65, 111, 209, 79, 82, 109, 159, 67, 19, 107, 157, 75, 66, 127, 144, 12, 19, 95]);
}

#[test]
fn encode_lorem_126() {
    assert_eq!(full(&vec![76, 111, 114, 101, 109, 32, 105, 112, 115, 117, 109, 32, 100, 111, 108, 111, 114, 32, 115, 105, 116, 32, 97, 109, 101, 116, 44, 32, 99, 111, 110, 115, 101, 99, 116, 101, 116, 117, 114, 32, 97, 100, 105, 112, 105, 115, 99, 105, 110, 103, 32, 101, 108, 105, 116, 44, 32, 115, 101, 100, 32, 100, 111, 32, 101, 105, 117, 115, 109, 111, 100, 32, 116, 101, 109, 112, 111, 114, 32, 105, 110, 99, 105, 100, 105, 100, 117, 110, 116, 32, 117, 116, 32, 108, 97, 98, 111, 114, 101, 32, 101, 116, 32, 100, 111, 108, 111, 114, 101, 32, 109, 97, 103, 110, 97, 32, 97, 108, 105, 113, 117, 97, 46, 32, 85, 116]), vec![130, 254, 0, 126, 10, 241, 34, 51, 70, 158, 80, 86, 103, 209, 75, 67, 121, 132, 79, 19, 110, 158, 78, 92, 120, 209, 81, 90, 126, 209, 67, 94, 111, 133, 14, 19, 105, 158, 76, 64, 111, 146, 86, 86, 126, 132, 80, 19, 107, 149, 75, 67, 99, 130, 65, 90, 100, 150, 2, 86, 102, 152, 86, 31, 42, 130, 71, 87, 42, 149, 77, 19, 111, 152, 87, 64, 103, 158, 70, 19, 126, 148, 79, 67, 101, 131, 2, 90, 100, 146, 75, 87, 99, 149, 87, 93, 126, 209, 87, 71, 42, 157, 67, 81, 101, 131, 71, 19, 111, 133, 2, 87, 101, 157, 77, 65, 111, 209, 79, 82, 109, 159, 67, 19, 107, 157, 75, 66, 127, 144, 12, 19, 95, 133]);
}

#[test]
fn encode_empty() {
    assert_eq!(full(&[]), vec![130, 128, 10, 241, 34, 51]);
}

#[test]
fn encode_wide_length_uses_fourteen_byte_header() {
    let data = vec![7u8; 65536];
    let out = full(&data);
    assert_eq!(out.len(), 14 + 65536);
    assert_eq!(&out[..10], &[130, 255, 0, 0, 0, 0, 0, 1, 0, 0]);
    assert_eq!(&out[10..14], &MASK);
    assert_eq!(out[14], 7 ^ 0x0a);
}

#[test]
fn encode_keeps_fin_and_opcode() {
    let frame = Frame { fin: false, opcode: Opcode::Text, data: b"ab" };
    let mut out = vec![9, 9, 9];
    frame.encode(&mut out, MASK);
    assert_eq!(out, vec![0x01, 0x82, 10, 241, 34, 51, b'a' ^ 10, b'b' ^ 241]);
}

#[test]
fn mask_applied_twice_restores_payload() {
    let data: Vec<u8> = (0u8..40).collect();
    let once = full(&data);
    let twice = full(&once[6..]);
    assert_eq!(&twice[6..], &data[..]);
}

#[test]
fn binary_and_text_builders() {
    let b = Frame::binary(b"xy");
    assert!(b.fin);
    assert_eq!(b.opcode, Opcode::Binary);
    assert_eq!(b.data, b"xy");
    let t = Frame::text("hi");
    assert!(t.fin);
    assert_eq!(t.opcode, Opcode::Text);
    assert_eq!(t.data, b"hi");
}

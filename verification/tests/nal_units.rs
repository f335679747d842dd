use deskstream::nal::NalAccumulator;

#[test]
fn unit_completes_when_next_start_code_arrives() {
    let mut acc = NalAccumulator::new();
    // a whole unit plus the start code of the next one
    let out = acc.push(&vec![0, 0, 0, 1, 0x67, 0x42, 0, 0, 1]);
    assert_eq!(out.len(), 1);
    assert_eq!(out[0], vec![0, 0, 0, 1, 0x67, 0x42]);
}

#[test]
fn unit_split_across_packet_boundaries() {
    let mut acc = NalAccumulator::new();
    // packet boundaries fall inside the start codes and the body
    assert!(acc.push(&vec![0, 0]).is_empty());
    assert!(acc.push(&vec![0, 1, 0x65]).is_empty());
    assert!(acc.push(&vec![0xaa, 0xbb]).is_empty());
    let out = acc.push(&vec![0, 0, 1, 0x41]);
    assert_eq!(out.len(), 1);
    assert_eq!(out[0], vec![0, 0, 0, 1, 0x65, 0xaa, 0xbb]);
    // the next unit stays buffered until another start code arrives
    let out = acc.push(&vec![0xcc, 0, 0, 0, 1]);
    assert_eq!(out.len(), 1);
    assert_eq!(out[0], vec![0, 0, 0, 1, 0x41, 0xcc]);
}

#[test]
fn long_start_code_zero_belongs_to_no_unit() {
    let mut acc = NalAccumulator::new();
    // the first unit is delimited by a four-byte start code: the zero before
    // [0,0,1] is part of that code, not of the body
    let out = acc.push(&vec![0, 0, 1, 0x11, 0x22, 0, 0, 0, 1, 0x33, 0, 0, 1]);
    assert_eq!(out.len(), 2);
    assert_eq!(out[0], vec![0, 0, 0, 1, 0x11, 0x22]);
    assert_eq!(out[1], vec![0, 0, 0, 1, 0x33]);
}

#[test]
fn bytes_before_the_first_start_code_form_no_unit() {
    let mut acc = NalAccumulator::new();
    let out = acc.push(&vec![0x99, 0x98, 0, 0, 1, 0x10, 0, 0, 1]);
    assert_eq!(out.len(), 1);
    assert_eq!(out[0], vec![0, 0, 0, 1, 0x10]);
}

#[test]
fn several_units_in_one_packet() {
    let mut acc = NalAccumulator::new();
    let out = acc.push(&vec![0, 0, 1, 1, 0, 0, 1, 2, 0, 0, 1, 3, 0, 0, 1]);
    assert_eq!(out.len(), 3);
    assert_eq!(out[0], vec![0, 0, 0, 1, 1]);
    assert_eq!(out[1], vec![0, 0, 0, 1, 2]);
    assert_eq!(out[2], vec![0, 0, 0, 1, 3]);
}

#[test]
fn empty_push_completes_nothing() {
    let mut acc = NalAccumulator::new();
    assert!(acc.push(&vec![]).is_empty());
    acc.push(&vec![0, 0, 1, 5]);
    assert!(acc.push(&vec![]).is_empty());
}

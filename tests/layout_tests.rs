use lv2_raw::{
    lv2_atom_equals, lv2_atom_is_null, lv2_atom_pad_size, lv2_atom_total_size, read_atom,
    read_u32, read_u64, write_u32, LV2Atom, LV2AtomEvent,
};

fn atom_bytes(type_: u32, body: &[u8]) -> Vec<u8> {
    let mut v = (body.len() as u32).to_le_bytes().to_vec();
    v.extend_from_slice(&type_.to_le_bytes());
    v.extend_from_slice(body);
    v
}

#[test]
fn pad_rounds_up_to_multiples_of_eight() {
    assert_eq!(lv2_atom_pad_size(0), 0);
    assert_eq!(lv2_atom_pad_size(1), 8);
    assert_eq!(lv2_atom_pad_size(7), 8);
    assert_eq!(lv2_atom_pad_size(8), 8);
    assert_eq!(lv2_atom_pad_size(9), 16);
    assert_eq!(lv2_atom_pad_size(20), 24);
    assert_eq!(lv2_atom_pad_size(u32::MAX - 7), u32::MAX - 7);
}

#[test]
fn pad_is_idempotent() {
    for n in [0u32, 1, 5, 8, 13, 16, 17, 1000, 4095, u32::MAX - 14] {
        let p = lv2_atom_pad_size(n);
        assert_eq!(lv2_atom_pad_size(p), p);
        assert!(p >= n);
        assert_eq!(p % 8, 0);
        assert!(p - n < 8);
    }
}

#[test]
fn total_size_adds_the_header() {
    assert_eq!(lv2_atom_total_size(&LV2Atom { size: 0, type_: 3 }), 8);
    assert_eq!(lv2_atom_total_size(&LV2Atom { size: 13, type_: 3 }), 21);
}

#[test]
fn null_atoms() {
    assert!(lv2_atom_is_null(None));
    assert!(lv2_atom_is_null(Some(&LV2Atom { size: 0, type_: 0 })));
    assert!(!lv2_atom_is_null(Some(&LV2Atom { size: 4, type_: 0 })));
    assert!(!lv2_atom_is_null(Some(&LV2Atom { size: 0, type_: 9 })));
}

#[test]
fn equal_atoms_in_distinct_buffers() {
    let a = atom_bytes(5, &[1, 2, 3, 4, 5]);
    let b = atom_bytes(5, &[1, 2, 3, 4, 5]);
    assert!(lv2_atom_equals(&a, &b));
    assert!(lv2_atom_equals(&a, &a));
}

#[test]
fn one_body_byte_makes_atoms_unequal() {
    let a = atom_bytes(5, &[1, 2, 3, 4, 5]);
    for k in 0..5 {
        let mut b = a.clone();
        b[8 + k] ^= 0x40;
        assert!(!lv2_atom_equals(&a, &b));
    }
}

#[test]
fn type_or_size_makes_atoms_unequal() {
    let a = atom_bytes(5, &[1, 2, 3, 4]);
    assert!(!lv2_atom_equals(&a, &atom_bytes(6, &[1, 2, 3, 4])));
    assert!(!lv2_atom_equals(&a, &atom_bytes(5, &[1, 2, 3, 4, 0])));
}

#[test]
fn bytes_beyond_the_body_do_not_matter() {
    let mut a = atom_bytes(5, &[9, 9]);
    let mut b = atom_bytes(5, &[9, 9]);
    a.extend_from_slice(&[1, 2, 3]);
    b.extend_from_slice(&[4, 5, 6]);
    assert!(lv2_atom_equals(&a, &b));
    let empty1 = atom_bytes(0, &[]);
    let empty2 = atom_bytes(0, &[]);
    assert!(lv2_atom_equals(&empty1, &empty2));
}

#[test]
fn integers_are_little_endian() {
    let buf = vec![0x78, 0x56, 0x34, 0x12, 0xf0, 0xde, 0xbc, 0x9a];
    assert_eq!(read_u32(&buf, 0), 0x1234_5678);
    assert_eq!(read_u32(&buf, 4), 0x9abc_def0);
    assert_eq!(read_u64(&buf, 0), 0x9abc_def0_1234_5678);
    let h = read_atom(&buf, 0);
    assert_eq!(h.size, 0x1234_5678);
    assert_eq!(h.type_, 0x9abc_def0);
}

#[test]
fn write_then_read_u32() {
    let mut buf = vec![0xffu8; 10];
    write_u32(&mut buf, 3, 0x0102_0304);
    assert_eq!(buf, vec![0xff, 0xff, 0xff, 0x04, 0x03, 0x02, 0x01, 0xff, 0xff, 0xff]);
    assert_eq!(read_u32(&buf, 3), 0x0102_0304);
}

#[test]
fn time_as_frames_returns_the_stamp() {
    let ev = LV2AtomEvent { time_in_frames: -42, body: LV2Atom { size: 0, type_: 1 } };
    assert_eq!(ev.time_as_frames(), -42);
}

use lv2_raw::{
    lv2_atom_sequence_append_event, lv2_atom_sequence_begin, lv2_atom_sequence_clear,
    lv2_atom_sequence_end, lv2_atom_sequence_is_end, lv2_atom_sequence_next, read_event, read_u32,
    LV2AtomSequence, LV2AtomSequenceBody, LV2AtomSequenceIterator,
};

/// An empty sequence in a buffer of `len` bytes filled with `fill`.
fn empty_sequence(len: usize, fill: u8) -> Vec<u8> {
    let mut buf = vec![fill; len];
    buf[0..4].copy_from_slice(&8u32.to_le_bytes());
    buf[4..8].copy_from_slice(&3u32.to_le_bytes());
    buf[8..16].copy_from_slice(&[0; 8]);
    buf
}

fn event(time: i64, type_: u32, body: &[u8]) -> Vec<u8> {
    let mut v = time.to_le_bytes().to_vec();
    v.extend_from_slice(&(body.len() as u32).to_le_bytes());
    v.extend_from_slice(&type_.to_le_bytes());
    v.extend_from_slice(body);
    v
}

fn events_of(buf: &[u8]) -> Vec<(i64, u32, Vec<u8>)> {
    LV2AtomSequence::foreach(buf)
        .into_iter()
        .map(|off| {
            let ev = read_event(buf, off);
            let start = off + 16;
            (ev.time_in_frames, ev.body.type_, buf[start..start + ev.body.size as usize].to_vec())
        })
        .collect()
}

#[test]
fn append_then_traverse_round_trip() {
    let mut buf = empty_sequence(256, 0xaa);
    let evs = vec![
        event(10, 1, &[1, 2, 3, 4, 5, 6, 7, 8]),
        event(20, 2, &[9, 8, 7, 6]),
        event(20, 3, &[]),
        event(-5, 4, &[42; 13]),
    ];
    let mut expected_off = 16;
    for ev in &evs {
        let r = lv2_atom_sequence_append_event(&mut buf, 248, ev);
        assert_eq!(r, Some(expected_off));
        let body = ev.len() - 16;
        expected_off += 16 + ((body + 7) / 8) * 8;
    }
    assert_eq!(read_u32(&buf, 0) as usize, expected_off - 8);
    let got = events_of(&buf);
    assert_eq!(got.len(), 4);
    for (k, ev) in evs.iter().enumerate() {
        let time = i64::from_le_bytes(ev[0..8].try_into().unwrap());
        let type_ = u32::from_le_bytes(ev[12..16].try_into().unwrap());
        assert_eq!(got[k], (time, type_, ev[16..].to_vec()));
    }
}

#[test]
fn append_exactly_fitting_succeeds() {
    // capacity 32: the fixed body (8) plus one event of 16 + 8 bytes
    let mut buf = empty_sequence(40, 0);
    let ev = event(1, 1, &[5; 8]);
    assert_eq!(lv2_atom_sequence_append_event(&mut buf, 32, &ev), Some(16));
    assert_eq!(read_u32(&buf, 0), 32);
}

#[test]
fn append_one_byte_too_large_fails() {
    let mut buf = empty_sequence(48, 0);
    let before = buf.clone();
    let ev = event(1, 1, &[5; 9]);
    assert_eq!(lv2_atom_sequence_append_event(&mut buf, 32, &ev), None);
    assert_eq!(buf, before);
}

#[test]
fn append_beyond_the_buffer_fails() {
    // the capacity would allow it, but the buffer itself is too short
    let mut buf = empty_sequence(30, 0);
    let before = buf.clone();
    let ev = event(1, 1, &[5; 8]);
    assert_eq!(lv2_atom_sequence_append_event(&mut buf, 1000, &ev), None);
    assert_eq!(buf, before);
}

#[test]
fn append_with_capacity_below_size_fails() {
    let mut buf = empty_sequence(64, 0);
    let ev = event(1, 1, &[]);
    assert_eq!(lv2_atom_sequence_append_event(&mut buf, 4, &ev), None);
}

#[test]
fn append_pads_the_size() {
    let mut buf = empty_sequence(64, 0);
    let ev = event(7, 2, &[1, 2, 3]);
    assert_eq!(lv2_atom_sequence_append_event(&mut buf, 56, &ev), Some(16));
    // 8 + pad(16 + 3)
    assert_eq!(read_u32(&buf, 0), 32);
    assert_eq!(&buf[16..35], &ev[..]);
}

#[test]
fn clear_then_append_ignores_stale_bytes() {
    let mut buf = empty_sequence(128, 0x5c);
    lv2_atom_sequence_append_event(&mut buf, 120, &event(1, 1, &[1; 8])).unwrap();
    lv2_atom_sequence_append_event(&mut buf, 120, &event(2, 2, &[2; 16])).unwrap();
    assert_eq!(events_of(&buf).len(), 2);
    lv2_atom_sequence_clear(&mut buf);
    assert_eq!(read_u32(&buf, 0), 8);
    assert!(events_of(&buf).is_empty());
    // the old bytes are still there
    assert_eq!(read_event(&buf, 16).time_in_frames, 1);
    let r = lv2_atom_sequence_append_event(&mut buf, 120, &event(9, 4, &[3, 4]));
    assert_eq!(r, Some(16));
    assert_eq!(events_of(&buf), vec![(9, 4, vec![3, 4])]);
}

#[test]
fn clear_keeps_other_fields() {
    let mut buf = empty_sequence(64, 0);
    buf[8..12].copy_from_slice(&77u32.to_le_bytes());
    lv2_atom_sequence_append_event(&mut buf, 56, &event(1, 1, &[1; 8])).unwrap();
    lv2_atom_sequence_clear(&mut buf);
    assert_eq!(read_u32(&buf, 4), 3);
    assert_eq!(read_u32(&buf, 8), 77);
}

#[test]
fn cursor_arithmetic() {
    assert_eq!(lv2_atom_sequence_begin(8), 16);
    assert_eq!(lv2_atom_sequence_end(8, 20), 32);
    assert_eq!(lv2_atom_sequence_end(8, 24), 32);
    assert!(lv2_atom_sequence_is_end(8, 8, 16));
    assert!(!lv2_atom_sequence_is_end(8, 9, 16));
    assert!(!lv2_atom_sequence_is_end(20, 8, 16));
    let ev = event(3, 3, &[0; 5]);
    // 16 + pad(5)
    assert_eq!(lv2_atom_sequence_next(&ev, 0), 24);
}

#[test]
fn empty_sequence_has_no_events() {
    let buf = empty_sequence(16, 0);
    assert!(LV2AtomSequence::foreach(&buf).is_empty());
    let mut it = LV2AtomSequenceIterator::new(&buf);
    assert_eq!(it.next(), None);
    assert_eq!(it.next(), None);
}

#[test]
fn body_level_walk_matches_sequence_walk() {
    let mut buf = empty_sequence(96, 0);
    lv2_atom_sequence_append_event(&mut buf, 88, &event(1, 1, &[1; 3])).unwrap();
    lv2_atom_sequence_append_event(&mut buf, 88, &event(2, 2, &[2; 11])).unwrap();
    let size = read_u32(&buf, 0);
    assert_eq!(LV2AtomSequenceBody::foreach(&buf, 8, size), vec![16, 40]);
    assert_eq!(LV2AtomSequence::foreach(&buf), vec![16, 40]);
    let mut it = LV2AtomSequenceIterator::new(&buf);
    assert_eq!(it.next(), Some(16));
    assert_eq!(it.next(), Some(40));
    assert_eq!(it.next(), None);
}

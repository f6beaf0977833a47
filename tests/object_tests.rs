use lv2_raw::{
    lv2_atom_object_begin, lv2_atom_object_get, lv2_atom_object_is_end, lv2_atom_object_next,
    lv2_atom_object_query, read_atom, read_property, read_u32, LV2AtomObject, LV2AtomObjectQuery,
    ObjectHelper,
};

/// An object holding the given `(key, value type, value body)` properties.
fn object(props: &[(u32, u32, Vec<u8>)]) -> Vec<u8> {
    let mut body = Vec::new();
    body.extend_from_slice(&0u32.to_le_bytes()); // id
    body.extend_from_slice(&11u32.to_le_bytes()); // otype
    for (k, (key, type_, value)) in props.iter().enumerate() {
        body.extend_from_slice(&key.to_le_bytes());
        body.extend_from_slice(&0u32.to_le_bytes());
        body.extend_from_slice(&(value.len() as u32).to_le_bytes());
        body.extend_from_slice(&type_.to_le_bytes());
        body.extend_from_slice(value);
        if k + 1 < props.len() {
            while body.len() % 8 != 0 {
                body.push(0);
            }
        }
    }
    let mut buf = (body.len() as u32).to_le_bytes().to_vec();
    buf.extend_from_slice(&99u32.to_le_bytes());
    buf.extend_from_slice(&body);
    buf
}

fn abc() -> Vec<u8> {
    object(&[
        (1, 5, b"A\0\0\0".to_vec()),
        (2, 5, b"B\0\0\0".to_vec()),
        (1, 5, b"C\0\0\0".to_vec()),
    ])
}

fn q(key: u32) -> LV2AtomObjectQuery {
    LV2AtomObjectQuery { key, value: None }
}

#[test]
fn query_takes_the_first_match() {
    let buf = abc();
    let mut query = vec![q(1), q(0)];
    assert_eq!(lv2_atom_object_query(&buf, &mut query), 1);
    let off = query[0].value.unwrap();
    assert_eq!(off, 24);
    assert_eq!(read_atom(&buf, off).size, 4);
    assert_eq!(buf[off + 8], b'A');
    assert_eq!(query[1].value, None);
}

#[test]
fn query_for_an_absent_key_matches_nothing() {
    let buf = abc();
    let mut query = vec![q(99), q(0)];
    assert_eq!(lv2_atom_object_query(&buf, &mut query), 0);
    assert_eq!(query[0].value, None);
}

#[test]
fn query_for_several_keys() {
    let buf = abc();
    let mut query = vec![q(2), q(1), q(0), q(1)];
    assert_eq!(lv2_atom_object_query(&buf, &mut query), 2);
    assert_eq!(buf[query[0].value.unwrap() + 8], b'B');
    assert_eq!(buf[query[1].value.unwrap() + 8], b'A');
    // entries after the terminator are left alone
    assert_eq!(query[3].value, None);
}

#[test]
fn query_without_terminator_uses_the_whole_list() {
    let buf = abc();
    let mut query = vec![q(1), q(2)];
    assert_eq!(lv2_atom_object_query(&buf, &mut query), 2);
    assert_eq!(query[0].value, Some(24));
    assert_eq!(query[1].value, Some(48));
}

#[test]
fn query_on_empty_object() {
    let buf = object(&[]);
    assert!(lv2_atom_object_is_end(8, read_u32(&buf, 0), lv2_atom_object_begin(8)));
    let mut query = vec![q(1), q(0)];
    assert_eq!(lv2_atom_object_query(&buf, &mut query), 0);
    assert_eq!(query[0].value, None);
}

#[test]
fn get_takes_the_first_match() {
    let buf = abc();
    let mut query = vec![
        ObjectHelper { key: 1, atom: None },
        ObjectHelper { key: 99, atom: None },
        ObjectHelper { key: 2, atom: None },
    ];
    assert_eq!(lv2_atom_object_get(&buf, &mut query), 2);
    assert_eq!(query[0].atom, Some(24));
    assert_eq!(query[1].atom, None);
    assert_eq!(query[2].atom, Some(48));
    assert_eq!(query[2].key, 2);
}

#[test]
fn property_walk() {
    let buf = abc();
    assert_eq!(LV2AtomObject::foreach(&buf), vec![16, 40, 64]);
    let p = read_property(&buf, 40);
    assert_eq!(p.key, 2);
    assert_eq!(p.context, 0);
    assert_eq!(p.value.size, 4);
    assert_eq!(p.value.type_, 5);
    assert_eq!(lv2_atom_object_next(&buf, 16), 40);
    // the last property is not padded, yet the walk ends after it
    let size = read_u32(&buf, 0);
    assert_eq!(size, 8 + 24 + 24 + 20);
    assert!(!lv2_atom_object_is_end(8, size, 64));
    assert!(lv2_atom_object_is_end(8, size, lv2_atom_object_next(&buf, 64)));
}

#[test]
fn property_walk_with_longer_values() {
    let buf = object(&[(3, 1, vec![7; 13]), (4, 1, vec![]), (5, 1, vec![1; 8])]);
    // 16 + pad(16 + 13) = 48, then 48 + 16 = 64
    assert_eq!(LV2AtomObject::foreach(&buf), vec![16, 48, 64]);
    let mut query = vec![q(5), q(4), q(3), q(0)];
    assert_eq!(lv2_atom_object_query(&buf, &mut query), 3);
    assert_eq!(query[0].value, Some(72));
    assert_eq!(query[1].value, Some(56));
    assert_eq!(query[2].value, Some(24));
}

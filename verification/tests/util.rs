use gvdb::util::{
    bytes_eq, decimal_string, djb_hash, djb_hash_bytes, read_u16_le, read_u32_le, str_eq,
    write_u16_le, write_u32_le,
};

#[test]
fn djb_hash_of_known_keys() {
    assert_eq!(djb_hash(""), 5381);
    assert_eq!(djb_hash("a"), 177670);
    assert_eq!(djb_hash("hello"), 0x0f92_3099);
    assert_eq!(djb_hash_bytes(b"hello"), 0x0f92_3099);
}

#[test]
fn djb_hash_wraps_and_takes_bytes_unsigned() {
    assert_eq!(djb_hash("hello world, this is a long key"), {
        let mut h: u32 = 5381;
        for b in "hello world, this is a long key".bytes() {
            h = h.wrapping_mul(33).wrapping_add(b as u32);
        }
        h
    });
    assert_eq!(djb_hash_bytes(&[0xff]), 5381 * 33 + 255);
}

#[test]
fn djb_hash_is_a_function_of_the_bytes() {
    let a = String::from("some/key");
    let b = format!("some{}key", "/");
    assert_eq!(djb_hash(&a), djb_hash(&b));
    assert_eq!(djb_hash(&a), djb_hash_bytes(b.as_bytes()));
}

#[test]
fn little_endian_reads() {
    let data = [0x78, 0x56, 0x34, 0x12, 0xff];
    assert_eq!(read_u32_le(&data, 0), Some(0x1234_5678));
    assert_eq!(read_u32_le(&data, 1), Some(0xff12_3456));
    assert_eq!(read_u32_le(&data, 2), None);
    assert_eq!(read_u32_le(&data, usize::MAX), None);
    assert_eq!(read_u16_le(&data, 3), Some(0xff12));
    assert_eq!(read_u16_le(&data, 4), None);
}

#[test]
fn little_endian_writes_read_back() {
    let mut out = vec![9u8];
    write_u32_le(&mut out, 0xdead_beef);
    write_u16_le(&mut out, 0x0102);
    assert_eq!(out, vec![9, 0xef, 0xbe, 0xad, 0xde, 0x02, 0x01]);
    assert_eq!(read_u32_le(&out, 1), Some(0xdead_beef));
    assert_eq!(read_u16_le(&out, 5), Some(0x0102));
}

#[test]
fn decimal_strings() {
    assert_eq!(decimal_string(0), "0");
    assert_eq!(decimal_string(7), "7");
    assert_eq!(decimal_string(10), "10");
    assert_eq!(decimal_string(4096), "4096");
    assert_eq!(decimal_string(usize::MAX), usize::MAX.to_string());
}

#[test]
fn equality_of_bytes_and_strings() {
    assert!(bytes_eq(b"abc", b"abc"));
    assert!(!bytes_eq(b"abc", b"abd"));
    assert!(!bytes_eq(b"abc", b"ab"));
    assert!(bytes_eq(b"", b""));
    assert!(str_eq("käse", "käse"));
    assert!(!str_eq("käse", "kase"));
}

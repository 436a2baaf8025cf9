use pict_rs::keys::{
    alias_id_key, alias_key, alias_key_bounds, bytes_eq, delete_key, variant_key,
    variant_key_bounds,
};

#[test]
fn alias_key_joins_hash_separator_and_id() {
    assert_eq!(alias_key(&[7, 8], "42"), vec![7, 8, 0, b'4', b'2']);
}

#[test]
fn alias_bounds_enclose_alias_rows() {
    let (start, end) = alias_key_bounds(&[9, 9]);
    assert_eq!(start, vec![9, 9, 0]);
    assert_eq!(end, vec![9, 9, 1]);
    let key = alias_key(&[9, 9], "123");
    assert!(start <= key && key < end);
}

#[test]
fn variant_key_and_bounds() {
    let key = variant_key(&[1], "/d/thumbnail/256/a.png");
    assert_eq!(key[0], 1);
    assert_eq!(key[1], 2);
    assert_eq!(&key[2..], b"/d/thumbnail/256/a.png");
    let (start, end) = variant_key_bounds(&[1]);
    assert_eq!(start, vec![1, 2]);
    assert_eq!(end, vec![1, 3]);
    assert!(start <= key && key < end);
}

#[test]
fn variant_rows_lie_outside_alias_range() {
    let (start, end) = alias_key_bounds(&[5]);
    let key = variant_key(&[5], "x");
    assert!(!(start <= key && key < end));
}

#[test]
fn id_and_delete_keys() {
    assert_eq!(alias_id_key("abc.png"), "abc.png/id");
    assert_eq!(delete_key("abc.png"), "abc.png/delete");
}

#[test]
fn byte_equality() {
    assert!(bytes_eq(b"abc", b"abc"));
    assert!(!bytes_eq(b"abc", b"abd"));
    assert!(!bytes_eq(b"abc", b"ab"));
}

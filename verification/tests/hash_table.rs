use byteorder::LE;
use gvdb::write::hash::SimpleHashTable;
use gvdb::write::item::GvdbBuilderItemValue;
use zvariant::{to_bytes, EncodingContext, Value};

fn variant(value: Value) -> Vec<u8> {
    to_bytes(EncodingContext::<LE>::new_gvariant(0), &value).unwrap()
}

#[test]
fn hash_derives() {
    let table = SimpleHashTable::with_n_buckets(1);
    assert!(format!("{:?}", table).contains("SimpleHashTable"));
}

#[test]
fn simple_hash_table() {
    let mut table: SimpleHashTable = SimpleHashTable::with_n_buckets(10);
    let item = GvdbBuilderItemValue::Value(variant(Value::new("test_overwrite")));
    table.insert("test", item);
    assert_eq!(table.n_items(), 1);
    let item2 = GvdbBuilderItemValue::Value(variant(Value::new("test")));
    table.insert("test", item2);
    assert_eq!(table.n_items(), 1);
    assert_eq!(
        table.get("test").unwrap().value_ref().value().unwrap(),
        &variant("test".into())
    );
}

#[test]
fn simple_hash_table_2() {
    let mut table: SimpleHashTable = SimpleHashTable::with_n_buckets(10);
    for index in 0..20 {
        table.insert(
            &format!("{}", index),
            GvdbBuilderItemValue::Value(variant(Value::new(index))),
        );
    }

    assert_eq!(table.n_items(), 20);

    for index in 0..20 {
        assert_eq!(
            variant(Value::new(index)),
            *table
                .get(&format!("{}", index))
                .unwrap()
                .value_ref()
                .value()
                .unwrap()
        );
    }

    for index in 0..10 {
        let index = index * 2;
        assert!(table.remove(&format!("{}", index)));
    }

    for index in 0..20 {
        let item = table.get(&format!("{}", index));
        assert_eq!(index % 2 == 1, item.is_some());
    }

    assert!(!table.remove("50"));
}

#[test]
fn variant_of_a_string_is_its_gvariant_form() {
    assert_eq!(variant(Value::new("test")), b"test\0\0s".to_vec());
}

#[test]
fn insert_then_get_returns_last_value() {
    let mut table = SimpleHashTable::with_n_buckets(3);
    table.insert("a", GvdbBuilderItemValue::Value(vec![1]));
    table.insert("b", GvdbBuilderItemValue::Value(vec![2]));
    table.insert("a", GvdbBuilderItemValue::Value(vec![3]));
    table.insert("c", GvdbBuilderItemValue::Value(vec![4]));
    table.insert("b", GvdbBuilderItemValue::Value(vec![5]));
    assert_eq!(table.n_items(), 3);
    assert_eq!(table.get("a").unwrap().value_ref().value().unwrap(), &vec![3]);
    assert_eq!(table.get("b").unwrap().value_ref().value().unwrap(), &vec![5]);
    assert_eq!(table.get("c").unwrap().value_ref().value().unwrap(), &vec![4]);
    assert!(table.get("d").is_none());
}

#[test]
fn overwrite_keeps_count_and_place() {
    let mut table = SimpleHashTable::with_n_buckets(1);
    table.insert("k", GvdbBuilderItemValue::Value(vec![1]));
    table.insert("other", GvdbBuilderItemValue::Value(vec![9]));
    table.insert("k", GvdbBuilderItemValue::Value(vec![2]));
    assert_eq!(table.n_items(), 2);
    assert_eq!(table.get("k").unwrap().value_ref().value().unwrap(), &vec![2]);
    let mut keys = Vec::new();
    let mut iter = table.iter_bucket(0);
    while let Some(item) = iter.next() {
        keys.push(item.key().to_string());
    }
    assert_eq!(keys, vec!["other".to_string(), "k".to_string()]);
}

#[test]
fn collisions_in_one_bucket() {
    let mut table = SimpleHashTable::with_n_buckets(1);
    table.insert("a", GvdbBuilderItemValue::Value(vec![1]));
    table.insert("b", GvdbBuilderItemValue::Value(vec![2]));
    table.insert("c", GvdbBuilderItemValue::Value(vec![3]));
    assert_eq!(table.n_items(), 3);
    assert_eq!(table.get("a").unwrap().value_ref().value().unwrap(), &vec![1]);
    assert_eq!(table.get("b").unwrap().value_ref().value().unwrap(), &vec![2]);
    assert_eq!(table.get("c").unwrap().value_ref().value().unwrap(), &vec![3]);
    assert!(table.remove("b"));
    assert!(table.get("b").is_none());
    assert_eq!(table.get("a").unwrap().value_ref().value().unwrap(), &vec![1]);
    assert_eq!(table.get("c").unwrap().value_ref().value().unwrap(), &vec![3]);
    assert_eq!(table.n_items(), 2);
}

#[test]
fn iter_walks_buckets_in_order() {
    let mut table = SimpleHashTable::with_n_buckets(4);
    for key in ["a", "b", "c", "d", "e", "f"] {
        table.insert(key, GvdbBuilderItemValue::Value(key.as_bytes().to_vec()));
    }
    let mut seen = Vec::new();
    let mut iter = table.iter();
    while let Some((bucket, item)) = iter.next() {
        assert_eq!(bucket, table.hash_bucket(item.hash_value()));
        assert_eq!(item.hash_value(), gvdb::util::djb_hash(item.key()));
        seen.push((bucket, item.key().to_string()));
    }
    assert_eq!(seen.len(), 6);
    let mut sorted = seen.clone();
    sorted.sort_by_key(|entry| entry.0);
    assert_eq!(seen, sorted);
    assert!(iter.next().is_none());
    // "a" hashes to 177670, "e" to 177674: both fall in bucket 2 of 4, and the
    // later insert stands first.
    let in_bucket_2: Vec<String> =
        seen.iter().filter(|entry| entry.0 == 2).map(|entry| entry.1.clone()).collect();
    assert_eq!(in_bucket_2, vec!["e".to_string(), "a".to_string()]);
}

#[test]
fn table_without_buckets_holds_nothing() {
    let mut table = SimpleHashTable::with_n_buckets(0);
    assert_eq!(table.n_buckets(), 0);
    assert_eq!(table.n_items(), 0);
    assert!(table.get("x").is_none());
    assert!(!table.remove("x"));
    assert!(table.iter().next().is_none());
    assert!(table.iter_bucket(0).next().is_none());
}

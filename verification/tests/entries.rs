use yaml_spanned::entry::Entry;
use yaml_spanned::mapping::Mapping;
use yaml_spanned::spanned::Spanned;
use yaml_spanned::value::Value;

fn s(x: &str) -> Spanned<Value> {
    Spanned::dummy(Value::String(x.to_string()))
}

fn i(x: i64) -> Spanned<Value> {
    Spanned::dummy(Value::from(x))
}

#[test]
fn entry_or_insert_inserts_once() {
    let mut m = Mapping::new();
    *m.entry(s("a")).or_insert(i(1)) = i(2);
    assert!(m.get("a").unwrap().inner == Value::from(2i64));
    let v = m.entry(s("a")).or_insert(i(7));
    assert!(v.inner == Value::from(2i64));
    assert_eq!(m.len(), 1);
}

#[test]
fn entry_or_insert_with_calls_default_only_when_vacant() {
    let mut m = Mapping::new();
    m.insert(s("a"), i(1));
    let mut called = false;
    let v = m.entry(s("a")).or_insert_with(|| i(9));
    assert!(v.inner == Value::from(1i64));
    let v = m
        .entry(s("b"))
        .or_insert_with(|| {
            called = true;
            i(9)
        });
    assert!(v.inner == Value::from(9i64));
    assert!(called);
    assert_eq!(m.len(), 2);
}

#[test]
fn entry_and_modify_changes_occupied_only() {
    let mut m = Mapping::new();
    m.insert(s("a"), i(1));
    m.entry(s("a")).and_modify(|v| *v = i(5)).or_insert(i(0));
    m.entry(s("b")).and_modify(|v| *v = i(5)).or_insert(i(0));
    assert!(m.get("a").unwrap().inner == Value::from(5i64));
    assert!(m.get("b").unwrap().inner == Value::from(0i64));
}

#[test]
fn entry_keys_and_occupied_operations() {
    let mut m = Mapping::new();
    m.insert(s("a"), i(1));
    m.insert(s("b"), i(2));
    m.insert(s("c"), i(3));
    match m.entry(s("a")) {
        Entry::Occupied(mut o) => {
            assert!(o.key().inner == Value::String("a".to_string()));
            assert!(o.get().inner == Value::from(1i64));
            *o.get_mut() = i(10);
            let old = o.insert(i(11));
            assert!(old.inner == Value::from(10i64));
            let (k, v) = o.remove_entry();
            assert!(k.inner == Value::String("a".to_string()) && v.inner == Value::from(11i64));
        }
        Entry::Vacant(_) => panic!("expected an occupied entry"),
    }
    // The last entry took the removed one's place.
    assert!(m.0[0].0.inner == Value::String("c".to_string()));
    assert_eq!(m.len(), 2);
    match m.entry(s("b")) {
        Entry::Occupied(o) => assert!(o.remove().inner == Value::from(2i64)),
        Entry::Vacant(_) => panic!("expected an occupied entry"),
    }
    assert_eq!(m.len(), 1);
}

#[test]
fn entry_vacant_operations() {
    let mut m = Mapping::new();
    match m.entry(s("k")) {
        Entry::Vacant(v) => {
            assert!(v.key().inner == Value::String("k".to_string()));
            assert!(v.into_key().inner == Value::String("k".to_string()));
        }
        Entry::Occupied(_) => panic!("expected a vacant entry"),
    }
    assert!(m.is_empty());
    match m.entry(s("k")) {
        Entry::Vacant(v) => {
            let r = v.insert(i(4));
            assert!(r.inner == Value::from(4i64));
        }
        Entry::Occupied(_) => panic!("expected a vacant entry"),
    }
    assert_eq!(m.len(), 1);
    let e = m.entry(s("k"));
    assert!(e.key().inner == Value::String("k".to_string()));
}

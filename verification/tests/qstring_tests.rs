use frontend::qstring::{QueryString, UrlParseError, Value};

fn pairs(items: &[(&str, &str)]) -> Vec<(String, String)> {
    items.iter().map(|(k, v)| (k.to_string(), v.to_string())).collect()
}

fn items(v: &Value<String>) -> Vec<String> {
    match v {
        Value::Empty => vec![],
        Value::One(x) => vec![x.clone()],
        Value::Vec(xs) => xs.clone(),
    }
}

#[test]
fn value_push_changes_shape() {
    let mut v: Value<u32> = Value::Empty;
    v.push(1);
    assert!(matches!(v, Value::One(1)));
    v.push(2);
    assert!(matches!(&v, Value::Vec(xs) if xs == &vec![1, 2]));
    v.push(3);
    assert!(matches!(&v, Value::Vec(xs) if xs == &vec![1, 2, 3]));
}

#[test]
fn try_map_keeps_shape() {
    let v: Value<u32> = Value::Vec(vec![1, 2, 3]);
    let r: Result<Value<u64>, String> = v.try_map(|x| Ok(*x as u64 * 10));
    assert!(matches!(r, Ok(Value::Vec(ref xs)) if xs == &vec![10, 20, 30]));
    let one: Value<u32> = Value::One(7);
    let r: Result<Value<String>, String> = one.try_map(|x| Ok(x.to_string()));
    assert!(matches!(r, Ok(Value::One(ref s)) if s == "7"));
    let empty: Value<u32> = Value::Empty;
    let r: Result<Value<u32>, String> = empty.try_map(|_| Err("never".to_string()));
    assert!(matches!(r, Ok(Value::Empty)));
}

#[test]
fn try_map_returns_first_error() {
    let v: Value<u32> = Value::Vec(vec![1, 2, 3, 4]);
    let r: Result<Value<u32>, u32> = v.try_map(|x| if *x % 2 == 0 { Err(*x) } else { Ok(*x) });
    assert!(matches!(r, Err(2)));
}

#[test]
fn from_uri_reads_pairs_in_order() {
    let q = QueryString::from_uri("/path?a=1&b=2&a=3").unwrap();
    assert_eq!(q.iter().to_vec(), pairs(&[("a", "1"), ("b", "2"), ("a", "3")]));
    let mut it = q.key("a");
    assert_eq!(it.next(), Some("1".to_string()));
    assert_eq!(it.next(), Some("3".to_string()));
    assert_eq!(it.next(), None);
    assert_eq!(it.next(), None);
    let mut none = q.key("c");
    assert_eq!(none.next(), None);
}

#[test]
fn from_uri_decodes_percent_escapes() {
    // %41 is 'A'; %26 becomes '&', which then separates pairs
    let q = QueryString::from_uri("/p?x=%41&y=1%262=3").unwrap();
    assert_eq!(q.iter().to_vec(), pairs(&[("x", "A"), ("y", "1"), ("2", "3")]));
    // a '%' without two hex digits stays
    let q = QueryString::from_uri("/p?z=%zz").unwrap();
    assert_eq!(q.iter().to_vec(), pairs(&[("z", "%zz")]));
}

#[test]
fn from_uri_without_query_has_no_pairs() {
    let q = QueryString::from_uri("/path").unwrap();
    assert!(q.iter().is_empty());
}

#[test]
fn from_uri_refuses_bad_utf8() {
    let r = QueryString::from_uri("/p?x=%FF");
    assert!(matches!(r, Err(UrlParseError::Utf8(_))));
}

#[test]
fn from_uri_refuses_bad_url() {
    let r = QueryString::from_uri(":99999/x?a=1");
    assert!(matches!(r, Err(UrlParseError::Url(_))));
}

#[test]
fn into_map_groups_values_by_key_in_key_order() {
    let q = QueryString::from_pairs(pairs(&[("b", "1"), ("a", "2"), ("b", "3"), ("c", "4"), ("b", "5")]));
    let m = q.into_map();
    assert_eq!(m.len(), 3);
    let keys: Vec<String> = m.iter().iter().map(|(k, _)| k.clone()).collect();
    assert_eq!(keys, vec!["a", "b", "c"]);
    assert!(matches!(m.get("a"), Some(Value::One(v)) if v == "2"));
    assert_eq!(items(m.get("b").unwrap()), vec!["1", "3", "5"]);
    assert!(matches!(m.get("b"), Some(Value::Vec(_))));
    assert!(m.get("d").is_none());
}

#[test]
fn into_map_orders_keys_by_bytes() {
    let q = QueryString::from_pairs(pairs(&[("é", "1"), ("z", "2"), ("Z", "3"), ("", "4")]));
    let m = q.into_map();
    let keys: Vec<String> = m.iter().iter().map(|(k, _)| k.clone()).collect();
    assert_eq!(keys, vec!["", "Z", "z", "é"]);
}

#[test]
fn into_map_agrees_with_key_walk() {
    let q = QueryString::from_uri("/p?k=1&j=2&k=3&k=4").unwrap();
    let m = q.into_map();
    for key in ["k", "j", "x"] {
        let mut walked = vec![];
        let mut it = q.key(key);
        while let Some(v) = it.next() {
            walked.push(v);
        }
        let mapped = m.get(key).map(items).unwrap_or_default();
        assert_eq!(walked, mapped);
    }
}

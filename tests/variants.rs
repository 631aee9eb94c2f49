use neunite::{generate_key, ErrorKind, Exception, Key, SimpleValue, Variant};
use std::cmp::Ordering;

fn integer(x: i128) -> Variant {
    Variant::Scalar(SimpleValue::Integer(x))
}

fn text(s: &str) -> Variant {
    Variant::Scalar(SimpleValue::Text(s.to_string()))
}

fn array_10_20_30() -> Variant {
    Variant::Array(vec![integer(10), integer(20), integer(30)])
}

#[test]
fn simple_graph() {}

#[test]
fn array_get_and_delete() {
    let mut a = array_10_20_30();
    assert_eq!(a.get(&SimpleValue::Integer(1)), Ok(integer(20)));
    assert_eq!(a.get(&SimpleValue::Integer(5)).unwrap_err().kind, ErrorKind::Absent);
    assert_eq!(a.delete(&SimpleValue::Integer(0)), Ok(integer(10)));
    assert_eq!(a, Variant::Array(vec![integer(20), integer(30)]));
}

#[test]
fn array_delete_out_of_bounds_is_invalid() {
    let mut a = array_10_20_30();
    assert_eq!(a.delete(&SimpleValue::Integer(3)).unwrap_err().kind, ErrorKind::Invalid);
    assert_eq!(a.delete(&SimpleValue::Text("0".to_string())).unwrap_err().kind, ErrorKind::Invalid);
    assert_eq!(a, array_10_20_30());
}

#[test]
fn delete_on_scalar_is_invalid() {
    let mut s = integer(1);
    assert_eq!(s.delete(&SimpleValue::Integer(0)), Err(Exception::invalid()));
    let mut n = Variant::Null;
    assert_eq!(n.delete(&SimpleValue::Integer(0)).unwrap_err().kind, ErrorKind::Invalid);
}

#[test]
fn table_new_get_delete() {
    let mut t = Variant::Table(vec![]);
    let k = t.new(text("x")).unwrap();
    let key = match k {
        Variant::Scalar(SimpleValue::Text(s)) => s,
        other => panic!("unexpected key {:?}", other),
    };
    let key = SimpleValue::Text(key);
    assert_eq!(t.get(&key), Ok(text("x")));
    assert_eq!(t.size(), Some(1));
    assert_eq!(t.delete(&key), Ok(text("x")));
    assert_eq!(t.get(&key).unwrap_err().kind, ErrorKind::Absent);
    assert_eq!(t.delete(&key).unwrap_err().kind, ErrorKind::Absent);
}

#[test]
fn table_keys_stay_ordered() {
    let mut t = Variant::Table(vec![]);
    t.new_keyed(integer(2), "b".to_string()).unwrap();
    t.new_keyed(integer(1), "a".to_string()).unwrap();
    t.new_keyed(integer(3), "c".to_string()).unwrap();
    t.new_keyed(integer(4), "b".to_string()).unwrap();
    let expect = Variant::Table(vec![
        (SimpleValue::Text("a".to_string()), integer(1)),
        (SimpleValue::Text("b".to_string()), integer(4)),
        (SimpleValue::Text("c".to_string()), integer(3)),
    ]);
    assert_eq!(t, expect);
}

#[test]
fn array_new_answers_one_based_length() {
    let mut a = array_10_20_30();
    assert_eq!(a.new(integer(40)), Ok(integer(4)));
    assert_eq!(a.get(&SimpleValue::Integer(3)), Ok(integer(40)));
    assert_eq!(a.size(), Some(4));
}

#[test]
fn new_on_null_is_invalid() {
    let mut n = Variant::Null;
    assert_eq!(n.new(integer(1)).unwrap_err().kind, ErrorKind::Invalid);
    assert_eq!(n, Variant::Null);
}

#[test]
fn put_existing_and_missing() {
    let mut t = Variant::Table(vec![(SimpleValue::Text("k".to_string()), integer(1))]);
    let key = SimpleValue::Text("k".to_string());
    assert_eq!(t.put(&key, integer(2)), Ok(integer(1)));
    assert_eq!(t, Variant::Table(vec![(SimpleValue::Text("k".to_string()), integer(2))]));
    let missing = SimpleValue::Text("z".to_string());
    assert_eq!(t.put(&missing, integer(3)).unwrap_err().kind, ErrorKind::Absent);
    assert_eq!(t, Variant::Table(vec![(SimpleValue::Text("k".to_string()), integer(2))]));
    let mut a = array_10_20_30();
    assert_eq!(a.put(&SimpleValue::Integer(2), integer(33)), Ok(integer(30)));
    assert_eq!(a.put(&SimpleValue::Integer(3), integer(0)).unwrap_err().kind, ErrorKind::Absent);
    assert_eq!(a, Variant::Array(vec![integer(10), integer(20), integer(33)]));
}

#[test]
fn size_of_each_kind() {
    assert_eq!(Variant::Null.size(), Some(0));
    assert_eq!(integer(5).size(), Some(1));
    assert_eq!(array_10_20_30().size(), Some(3));
    assert_eq!(Variant::Index(SimpleValue::Integer(0)).size(), None);
}

#[test]
fn locate_by_position_and_scalar() {
    let a = array_10_20_30();
    assert_eq!(a.locate(&Key::Position(2)), Some(&integer(30)));
    assert_eq!(a.locate(&Key::Position(3)), None);
    assert_eq!(a.locate(&Key::ByScalar(SimpleValue::Bool(true))), None);
    assert_eq!(integer(1).get_ref(&SimpleValue::Integer(0)), None);
}

#[test]
fn locate_mut_creates_only_when_asked() {
    let mut t = Variant::Table(vec![]);
    let key = SimpleValue::Integer(7);
    assert!(t.locate_mut(Key::ByScalar(key.clone()), false).is_none());
    assert_eq!(t.size(), Some(0));
    {
        let slot = t.locate_mut(Key::ByScalar(key.clone()), true).unwrap();
        assert_eq!(*slot, Variant::Null);
        *slot = integer(70);
    }
    assert_eq!(t.get(&key), Ok(integer(70)));
    *t.get_mut(key.clone()).unwrap() = integer(71);
    assert_eq!(t.get(&key), Ok(integer(71)));
    let mut a = array_10_20_30();
    *a.locate_mut(Key::Position(0), true).unwrap() = integer(11);
    assert!(a.locate_mut(Key::Position(3), true).is_none());
    *a.index_mut(SimpleValue::Integer(2)) = integer(31);
    assert_eq!(a, Variant::Array(vec![integer(11), integer(20), integer(31)]));
    assert_eq!(a.index(&SimpleValue::Integer(1)), &integer(20));
}

#[test]
fn with_runs_only_on_present_keys() {
    let a = array_10_20_30();
    let r = a.with(&SimpleValue::Integer(0), |c| Ok(c.deep_copy()));
    assert_eq!(r, Ok(integer(10)));
    let r = a.with(&SimpleValue::Integer(9), |_| panic!("must not run"));
    assert_eq!(r.unwrap_err().kind, ErrorKind::Absent);
    let mut b = array_10_20_30();
    let r = b.with_mut(SimpleValue::Integer(1), |c| {
        *c = integer(21);
        Ok(Variant::Null)
    });
    assert_eq!(r, Ok(Variant::Null));
    assert_eq!(b, Variant::Array(vec![integer(10), integer(21), integer(30)]));
}

#[test]
fn text_orders_above_integer() {
    let t = SimpleValue::Text("a".to_string());
    let i = SimpleValue::Integer(1);
    assert_eq!(t.cmp(&i), Ordering::Greater);
    assert_eq!(i.cmp(&t), Ordering::Less);
}

#[test]
fn order_within_and_across_kinds() {
    let b = SimpleValue::Bool(true);
    let f = SimpleValue::Float(1.5f64.to_bits());
    let g = SimpleValue::Float((-2.0f64).to_bits());
    let nan = SimpleValue::Float(f64::NAN.to_bits());
    let bytes = SimpleValue::Bytes(vec![0]);
    assert_eq!(b.cmp(&SimpleValue::Bool(false)), Ordering::Greater);
    assert_eq!(g.cmp(&f), Ordering::Less);
    assert_eq!(f.cmp(&g), Ordering::Greater);
    assert_eq!(nan.cmp(&f), Ordering::Equal);
    assert_eq!(
        SimpleValue::Float(0.0f64.to_bits()).cmp(&SimpleValue::Float((-0.0f64).to_bits())),
        Ordering::Equal
    );
    assert_eq!(f.cmp(&SimpleValue::Text(String::new())), Ordering::Less);
    assert_eq!(bytes.cmp(&SimpleValue::Text("z".to_string())), Ordering::Greater);
    assert_eq!(
        SimpleValue::Text("ab".to_string()).cmp(&SimpleValue::Text("b".to_string())),
        Ordering::Less
    );
    assert_eq!(
        SimpleValue::Bytes(vec![1, 2]).cmp(&SimpleValue::Bytes(vec![1])),
        Ordering::Greater
    );
    assert_eq!(SimpleValue::Integer(-3).cmp(&SimpleValue::Integer(-3)), Ordering::Equal);
    assert_eq!(b.weight(), 1);
    assert_eq!(bytes.weight(), 5);
}

#[test]
fn bool_coercion() {
    assert_eq!(SimpleValue::Integer(0).as_bool(), Some(false));
    assert_eq!(SimpleValue::Integer(-4).as_bool(), Some(true));
    assert_eq!(SimpleValue::Text(String::new()).as_bool(), Some(false));
    assert_eq!(SimpleValue::Text("x".to_string()).as_bool(), Some(true));
    assert_eq!(SimpleValue::Bytes(vec![]).as_bool(), Some(false));
    assert_eq!(SimpleValue::Bytes(vec![0]).as_bool(), Some(true));
    assert_eq!(SimpleValue::Bool(true).as_bool(), Some(true));
    assert_eq!(SimpleValue::Float(0.0f64.to_bits()).as_bool(), None);
}

#[test]
fn integer_coercion_of_bytes() {
    assert_eq!(SimpleValue::Bytes(vec![1; 17]).as_integer(0), None);
    let sixteen = vec![0xff; 16];
    assert_eq!(SimpleValue::Bytes(sixteen).as_integer(0), Some(-1));
    let mut big = vec![0u8; 16];
    big[0] = 0x80;
    assert_eq!(SimpleValue::Bytes(big).as_integer(0), Some(i128::MIN));
    assert_eq!(SimpleValue::Bytes(vec![1, 0]).as_integer(0), Some(256));
    assert_eq!(SimpleValue::Bytes(vec![0xff]).as_integer(0), Some(255));
    assert_eq!(SimpleValue::Bytes(vec![]).as_integer(0), Some(0));
}

#[test]
fn integer_coercion_of_text_and_others() {
    assert_eq!(SimpleValue::Text("123".to_string()).as_integer(0), Some(123));
    assert_eq!(SimpleValue::Text("-45".to_string()).as_integer(0), Some(-45));
    assert_eq!(SimpleValue::Text("+7".to_string()).as_integer(0), Some(7));
    assert_eq!(SimpleValue::Text("12a".to_string()).as_integer(0), None);
    assert_eq!(SimpleValue::Text(" 1".to_string()).as_integer(0), None);
    assert_eq!(SimpleValue::Integer(9).as_integer(0), Some(9));
    assert_eq!(SimpleValue::Bool(true).as_integer(0), None);
    let f = 2.5f64;
    assert_eq!(SimpleValue::Float(f.to_bits()).as_integer(f.round() as i128), Some(3));
}

#[test]
fn integer_bytes_round_trip() {
    for x in [0i128, 1, -1, 255, -256, i128::MAX, i128::MIN, 123_456_789] {
        let b = SimpleValue::Integer(x).as_binary();
        assert_eq!(b.len(), 16);
        assert_eq!(b, x.to_be_bytes().to_vec());
        assert_eq!(SimpleValue::Bytes(b).as_integer(0), Some(x));
    }
}

#[test]
fn float_coercion() {
    let x = 3.25f64;
    let bytes = x.to_be_bytes().to_vec();
    assert_eq!(SimpleValue::Bytes(bytes).as_float(None), Some(x.to_bits()));
    assert_eq!(SimpleValue::Bytes(vec![0; 7]).as_float(None), None);
    assert_eq!(SimpleValue::Float(x.to_bits()).as_float(None), Some(x.to_bits()));
    assert_eq!(SimpleValue::Bool(true).as_float(Some(1)), None);
    let widened = (5i128 as f64).to_bits();
    assert_eq!(SimpleValue::Integer(5).as_float(Some(widened)), Some(widened));
    assert_eq!(SimpleValue::Float(x.to_bits()).as_binary(), x.to_be_bytes().to_vec());
}

#[test]
fn text_coercion() {
    assert_eq!(SimpleValue::Bool(true).as_text(""), "true");
    assert_eq!(SimpleValue::Bool(false).as_text(""), "false");
    assert_eq!(SimpleValue::Integer(-42).as_text(""), "-42");
    assert_eq!(SimpleValue::Text("hé".to_string()).as_text(""), "hé");
    assert_eq!(SimpleValue::Bytes(b"ok".to_vec()).as_text(""), "ok");
    assert_eq!(SimpleValue::Bytes(vec![0x61, 0xff]).as_text(""), "a\u{FFFD}");
    let f = 1.5f64;
    assert_eq!(SimpleValue::Float(f.to_bits()).as_text(&f.to_string()), "1.5");
}

#[test]
fn bytes_coercion() {
    assert_eq!(SimpleValue::Bool(true).as_binary(), vec![1]);
    assert_eq!(SimpleValue::Bool(false).as_binary(), vec![0]);
    assert_eq!(SimpleValue::Text("hé".to_string()).as_binary(), "hé".as_bytes().to_vec());
    assert_eq!(SimpleValue::Bytes(vec![9, 8]).as_binary(), vec![9, 8]);
}

#[test]
fn exact_accessors() {
    let t = SimpleValue::Text("q".to_string());
    assert_eq!(t.text(), Some("q"));
    assert_eq!(t.integer(), None);
    assert!(t.is_text() && !t.is_integer());
    let b = SimpleValue::Bytes(vec![3]);
    assert_eq!(b.binary(), Some(&[3u8][..]));
    assert!(b.is_binary());
    assert_eq!(SimpleValue::Bool(false).bool(), Some(false));
    assert!(SimpleValue::Bool(false).is_bool());
    assert_eq!(SimpleValue::Float(7).float(), Some(7));
    assert!(SimpleValue::Float(7).is_float());
    assert_eq!(SimpleValue::Integer(7).as_usize(), Some(7));
    assert_eq!(SimpleValue::Integer(-7).as_usize(), None);
    assert_eq!(SimpleValue::Integer(1 << 70).as_u64(), None);
    assert_eq!(SimpleValue::Integer(70).as_u64(), Some(70));
    assert_eq!(SimpleValue::Text("7".to_string()).as_u64(), None);
}

#[test]
fn generated_keys_are_url_safe_and_distinct() {
    let a = generate_key();
    let b = generate_key();
    assert_eq!(a.len(), 22);
    assert!(a.chars().all(|c| c.is_ascii_alphanumeric() || c == '-' || c == '_'));
    assert_ne!(a, b);
}

#[test]
fn deep_copy_keeps_the_tree() {
    let t = Variant::Table(vec![
        (SimpleValue::Bytes(vec![1]), array_10_20_30()),
        (SimpleValue::Text("i".to_string()), Variant::Index(SimpleValue::Float(3))),
    ]);
    assert_eq!(t.deep_copy(), t);
}

#[test]
fn error_messages() {
    assert_eq!(Exception::absent().message(), "absent");
    assert_eq!(Exception::invalid().message(), "invalid");
}

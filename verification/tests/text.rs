use linearf::encoding::{base64_decode, base64_encode, DecodeFailure};
use linearf::sorted::Sorted;
use std::collections::HashSet;
use linearf::bridge::{arr, hello_world, view_file_name, view_text};
use linearf::decimal::{i32_to_decimal, parse_i32, u64_to_decimal};
use linearf::interface::{Reusable, Vars};
use linearf::item::{Item, MaybeUtf8};
use linearf::priority::U16Ord;
use linearf::test_sources::{find, OddEven, Simple, Substring};
use linearf::value::{Score, Value};
use std::cmp::Ordering;
use std::sync::Arc;

#[test]
fn decimal_writing() {
    assert_eq!(u64_to_decimal(0), "0");
    assert_eq!(u64_to_decimal(1234567890), "1234567890");
    assert_eq!(u64_to_decimal(u64::MAX), u64::MAX.to_string());
    assert_eq!(i32_to_decimal(-42), "-42");
    assert_eq!(i32_to_decimal(i32::MIN), "-2147483648");
    assert_eq!(i32_to_decimal(i32::MAX), "2147483647");
}

#[test]
fn parse_i32_agrees_with_std() {
    for s in ["0", "-0", "+7", "-2147483648", "2147483647", "2147483648", "-2147483649", "", "-", "+",
        "12a", " 1", "007", "99999999999999999999", "-12"] {
        assert_eq!(parse_i32(s), s.parse::<i32>().ok(), "{:?}", s);
    }
}

#[test]
fn decimal_round_trip() {
    for x in [0, 1, -1, 10, -10, 123456, i32::MIN, i32::MAX] {
        assert_eq!(parse_i32(&i32_to_decimal(x)), Some(x));
    }
}

#[test]
fn item_views() {
    let i = Item::new(3, MaybeUtf8::Utf8("abc".into()));
    assert_eq!(i.id, 3);
    assert!(i.info.is_none());
    assert_eq!(i.view(), "abc");
    assert_eq!(i.view_for_matcing(), "abc");
    let mut j = Item::new(4, MaybeUtf8::Bytes(vec![b'h', 0xff, b'i']));
    assert_eq!(j.value_lossy(), "h\u{fffd}i");
    j.view = Some("shown".into());
    assert_eq!(j.view(), "shown");
    assert_eq!(j.view_for_matcing(), "h\u{fffd}i");
    let k = Item::new(5, MaybeUtf8::Os(b"/home/x".to_vec()));
    assert_eq!(k.value_lossy(), "/home/x");
}

fn vars(query: &str) -> Vars {
    Vars {
        source: "simple".into(),
        matcher: "substring".into(),
        converters: vec![],
        query: query.into(),
        cache_sec: 0,
        cache_across_sessions: false,
        first_view: 0,
        chunk_size: 0,
        dispose_flow: false,
    }
}

#[test]
fn substring_finds_and_scores() {
    assert!(find("hello", "ll"));
    assert!(find("hello", ""));
    assert!(!find("hello", "lo!"));
    assert!(!find("", "a"));
    let m = Substring;
    let item = Simple.item(120);
    assert_eq!(item.id, 121);
    let s = m.score(&vars("12"), &item);
    assert_eq!(s.item_id(), 121);
    assert!(matches!(s.value_ref(), Value::I64(1)));
    let s = m.score(&vars("3"), &item);
    assert!(s.should_be_excluded());
    assert_eq!(s.item_id(), 0);
    assert!(matches!(m.reusable(&vars("a"), &vars("a")), Reusable::Same));
    assert!(matches!(m.reusable(&vars("a"), &vars("b")), Reusable::NoReuse));
    let _ = Score::new_excluded();
}

#[test]
fn odd_even_marks_numbers() {
    let c = OddEven;
    assert_eq!(c.convert(Item::new(1, MaybeUtf8::Utf8("12".into()))).view, Some("e12".into()));
    assert_eq!(c.convert(Item::new(1, MaybeUtf8::Utf8("-7".into()))).view, Some("o-7".into()));
    assert_eq!(c.convert(Item::new(1, MaybeUtf8::Utf8("+08".into()))).view, Some("e8".into()));
    let x = c.convert(Item::new(1, MaybeUtf8::Utf8("x1".into())));
    assert_eq!(x.view, None);
    assert_eq!(x.value, MaybeUtf8::Utf8("x1".into()));
}

#[test]
fn bridge_greets_and_counts() {
    assert_eq!(hello_world(), "Hello World!");
    let a = arr();
    assert_eq!(a.len(), 500);
    assert_eq!(a[0], "1");
    assert_eq!(a[499], "500");
}

#[test]
fn flow_view_file_and_text() {
    assert_eq!(view_file_name("abc", 12, true), "abc_12");
    assert_eq!(view_file_name("", 0, false), "_0+");
    let items: Vec<(Arc<Item>, Arc<Score>)> = (0..3)
        .map(|i| (Arc::new(Simple.item(i)), Arc::new(Score::value(i + 1, Value::I64(1)))))
        .collect();
    assert_eq!(view_text(&items, 2), "0\n1\n");
    assert_eq!(view_text(&items, 10), "0\n1\n2\n");
    assert_eq!(view_text(&items, 0), "\n");
    assert_eq!(view_text(&Vec::new(), 5), "\n");
}

#[test]
fn u16_scores_order() {
    let a = U16Ord { x: 3, idx: 1 };
    let b = U16Ord { x: 5, idx: 0 };
    let c = U16Ord { x: 3, idx: 2 };
    assert_eq!(a.cmp(&b), Ordering::Less);
    assert_eq!(b.cmp(&a), Ordering::Greater);
    assert_eq!(a.cmp(&c), Ordering::Greater);
    assert_eq!(a.cmp(&a), Ordering::Equal);
    assert_eq!(a.partial_cmp(&c), Some(Ordering::Greater));
    assert!(a == U16Ord { x: 3, idx: 1 });
    assert!(U16Ord { x: 0, idx: 0 }.is_excluded());
    assert!(!a.is_excluded());
}

#[test]
fn base64_round_trip_and_errors() {
    assert_eq!(base64_encode(b"hello"), "aGVsbG8=");
    assert_eq!(base64_encode(b""), "");
    assert_eq!(base64_encode(b"ab"), "YWI=");
    assert_eq!(base64_encode(b"Man"), "TWFu");
    assert_eq!(base64_encode(&[0xff, 0xfe]), "//4=");
    assert_eq!(base64_encode(&[0xfb, 0xff, 0xbf]), "+/+/");
    assert_eq!(base64_decode(b"aGVsbG8="), Ok(b"hello".to_vec()));
    assert_eq!(base64_decode(b"a"), Err(DecodeFailure::InvalidLength));
    assert_eq!(base64_decode(b"aG!s"), Err(DecodeFailure::InvalidByte(2, b'!')));
}

#[test]
fn id_items_keeps_listed_ids_in_order() {
    let mut s: Sorted<Arc<Item>> = Sorted::new();
    s.absorb((0..4).map(|i| (Arc::new(Simple.item(i)), Arc::new(Score::value(i + 1, Value::I64(i as i64))))).collect());
    let ids: HashSet<u32> = [4, 2, 9].into_iter().collect();
    let got: Vec<u32> = s.id_items(&ids).iter().map(|(i, _)| i.id).collect();
    assert_eq!(got, vec![4, 2]);
}

use std::cell::Cell;

use debris::ArenaCache;
use debris::Type;
use debris::fmt_multiple;

#[test]
fn cache_computes_each_key_exactly_once() {
    let mut cache: ArenaCache<u64> = ArenaCache::new();
    let count = Cell::new(0u32);
    for _ in 0..5 {
        let i = cache.query("k", |_s| {
            count.set(count.get() + 1);
            7u64
        });
        assert_eq!(*cache.get(i), 7);
    }
    assert_eq!(count.get(), 1);
}

#[test]
fn cache_slots_stay_stable_as_entries_are_added() {
    let mut cache: ArenaCache<String> = ArenaCache::new();
    let a = cache.query("a", |s| s.to_uppercase());
    let b = cache.query("b", |s| s.to_uppercase());
    let c = cache.query("c", |s| s.to_uppercase());
    assert_eq!((a, b, c), (0, 1, 2));
    assert_eq!(cache.query("a", |_s| panic!("recomputed")), 0);
    assert_eq!(*cache.get(a), "A");
    assert_eq!(*cache.get(b), "B");
    assert_eq!(*cache.get(c), "C");
}

#[test]
fn cache_passes_the_key_to_the_computation() {
    let mut cache: ArenaCache<usize> = ArenaCache::new();
    let i = cache.query("four", |s| s.len());
    assert_eq!(*cache.get(i), 4);
}

#[test]
fn ordinals_render_as_english_suffixes() {
    assert_eq!(fmt_multiple(1), "1st");
    assert_eq!(fmt_multiple(2), "2nd");
    assert_eq!(fmt_multiple(3), "3rd");
    assert_eq!(fmt_multiple(4), "4th");
    assert_eq!(fmt_multiple(0), "0th");
    assert_eq!(fmt_multiple(11), "11th");
    assert_eq!(fmt_multiple(21), "21th");
    assert_eq!(fmt_multiple(120), "120th");
}

#[test]
fn type_names_round_trip() {
    let t = Type::from_name("i64".to_string());
    assert_eq!(t.name(), "i64");
}

#[test]
fn operations_describe_themselves() {
    let op = debris::Operation::FindAll { selector: ".x".to_string(), index: 2 };
    assert_eq!(op.describe(), "2nd of '.x'");
    let op2 = debris::Operation::Attr { key: "class".to_string() };
    assert_eq!(op2.describe(), "attr 'class'");
    assert_eq!(debris::Operation::Parent.describe(), "parent");
}

#[test]
fn reasons_describe_themselves() {
    assert_eq!(debris::Reason::NotFound.describe(), "not found");
    assert_eq!(debris::Reason::MultipleFound.describe(), "found too many");
    assert_eq!(debris::Reason::ExpectedElement.describe(), "expected element");
    assert_eq!(debris::Reason::ExpectedText.describe(), "expected text");
    assert_eq!(debris::Reason::External("boom".to_string()).describe(), "boom");
    assert_eq!(debris::Reason::Logic("oops".to_string()).describe(), "oops");
}

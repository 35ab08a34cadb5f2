use lib::ast::{HwTarget, Type, TypeAnnotation};
use lib::table::Table;
use lib::text::{i64_text, join, usize_text};

#[test]
fn decimal_renderings() {
    assert_eq!(usize_text(0), "0");
    assert_eq!(usize_text(1203), "1203");
    assert_eq!(i64_text(-7), "-7");
    assert_eq!(i64_text(i64::MIN), "-9223372036854775808");
}

#[test]
fn join_concatenates() {
    assert_eq!(join(&["ab", "", "c"]), "abc");
}

#[test]
fn table_keeps_first_insertion_order_and_replaces_in_place() {
    let mut t: Table<u64> = Table::new();
    t.insert("b".to_string(), 1);
    t.insert("a".to_string(), 2);
    t.insert("b".to_string(), 3);
    assert_eq!(t.len(), 2);
    assert_eq!(t.get(&"b".to_string()), Some(&3));
    assert_eq!(t.get(&"c".to_string()), None);
    let (k0, v0) = t.entry(0);
    assert_eq!((k0.as_str(), *v0), ("b", 3));
    let (k1, v1) = t.entry(1);
    assert_eq!((k1.as_str(), *v1), ("a", 2));
    assert!(t.contains(&"a".to_string()));
}

#[test]
fn annotations_become_types() {
    assert!(matches!(TypeAnnotation::Int64.to_type(), Type::Int64));
    assert!(matches!(TypeAnnotation::Tensor(None).to_type(), Type::Tensor(t) if matches!(*t, HwTarget::Cpu)));
    assert!(matches!(TypeAnnotation::Named("P".to_string()).to_type(), Type::Struct(n) if n == "P"));
    assert_eq!(TypeAnnotation::Array(Box::new(TypeAnnotation::Str)).to_type().name_text(), "[string]");
}

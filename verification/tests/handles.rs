use deepsize::capability::{deep_size_of, DeepSizeOf};
use deepsize::context::Context;
use deepsize::model::{Alloc, Heap, Node};

fn heap() -> Heap {
    Heap { allocs: vec![Alloc { size: 8, content: Node::Flat }] }
}

fn children<T: DeepSizeOf>(value: &T) -> usize {
    let mut context = Context::new();
    context.add(0);
    let bytes = value.deep_size_of_children(&heap(), &mut context);
    assert_eq!(context.len(), 1);
    bytes
}

#[test]
fn dates_and_times_own_nothing() {
    let date = chrono::NaiveDate::from_ymd_opt(2024, 2, 29).unwrap();
    let time = chrono::NaiveTime::from_hms_opt(23, 59, 58).unwrap();
    assert_eq!(children(&date), 0);
    assert_eq!(children(&time), 0);
    assert_eq!(children(&chrono::NaiveDateTime::new(date, time)), 0);
    assert_eq!(children(&chrono::Datelike::iso_week(&date)), 0);
    assert_eq!(children(&chrono::TimeDelta::seconds(90)), 0);
    assert_eq!(children(&chrono::Month::March), 0);
    assert_eq!(children(&chrono::Weekday::Fri), 0);
    assert_eq!(children(&chrono::FixedOffset::east_opt(3600).unwrap()), 0);
    assert_eq!(children(&chrono::Local), 0);
    assert_eq!(children(&chrono::Utc), 0);
}

#[test]
fn a_date_is_as_large_as_its_representation() {
    let date = chrono::NaiveDate::from_ymd_opt(1999, 12, 31).unwrap();
    assert_eq!(deep_size_of(&date, &heap()), std::mem::size_of::<chrono::NaiveDate>());
}

#[test]
fn json_numbers_own_nothing() {
    assert_eq!(children(&serde_json::Number::from(17u64)), 0);
    assert_eq!(children(&serde_json::Number::from(-4i64)), 0);
}

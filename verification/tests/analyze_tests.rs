use mongo_insight::analyze::{field_type_counts, BsonValueKind};
use mongo_insight::paging::page_offset;

fn obs(field: &str, kind: BsonValueKind) -> (String, BsonValueKind) {
    (field.to_string(), kind)
}

fn count_of(
    result: &[(String, Vec<(BsonValueKind, u64)>)],
    field: &str,
    kind: BsonValueKind,
) -> Option<u64> {
    result
        .iter()
        .find(|(f, _)| f == field)
        .and_then(|(_, kinds)| kinds.iter().find(|(k, _)| *k == kind).map(|(_, c)| *c))
}

#[test]
fn counts_group_by_field_and_kind() {
    let observations = vec![
        obs("age", BsonValueKind::Int32),
        obs("name", BsonValueKind::Text),
        obs("age", BsonValueKind::Int32),
        obs("age", BsonValueKind::Double),
        obs("name", BsonValueKind::Text),
        obs("age", BsonValueKind::Int32),
    ];
    let result = field_type_counts(&observations);
    assert_eq!(result.len(), 2);
    assert_eq!(count_of(&result, "age", BsonValueKind::Int32), Some(3));
    assert_eq!(count_of(&result, "age", BsonValueKind::Double), Some(1));
    assert_eq!(count_of(&result, "name", BsonValueKind::Text), Some(2));
    assert_eq!(count_of(&result, "name", BsonValueKind::Int32), None);
    assert_eq!(count_of(&result, "missing", BsonValueKind::Null), None);
}

#[test]
fn no_observations_give_no_entries() {
    let result = field_type_counts(&vec![]);
    assert!(result.is_empty());
}

#[test]
fn each_field_is_listed_once() {
    let observations = vec![
        obs("x", BsonValueKind::Null),
        obs("x", BsonValueKind::Boolean),
        obs("x", BsonValueKind::Null),
    ];
    let result = field_type_counts(&observations);
    assert_eq!(result.len(), 1);
    assert_eq!(result[0].0, "x");
    assert_eq!(result[0].1.len(), 2);
}

#[test]
fn page_offset_multiplies_exactly() {
    assert_eq!(page_offset(0, 50), Some(0));
    assert_eq!(page_offset(3, 25), Some(75));
    assert_eq!(page_offset(7, 0), Some(0));
}

#[test]
fn page_offset_rejects_negative_and_overflowing_inputs() {
    assert_eq!(page_offset(-1, 50), None);
    assert_eq!(page_offset(4, -2), None);
    assert_eq!(page_offset(i64::MAX, i64::MAX), None);
    assert_eq!(page_offset(i64::MAX, 1), Some(i64::MAX as u64));
}

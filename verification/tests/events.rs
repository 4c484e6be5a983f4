use cap_history::encoding::{event_bytes, value_bytes};
use cap_history::event::{
    build_event, duplicate_events, duplicate_fields, duplicate_values, event_from_source,
    DetailValue, Event, IndefiniteEvent, IntoEvent, MaybeIndefinite, TryFromEvent,
};
use cap_history::identity::Identity;

fn sample_fields() -> Vec<(String, DetailValue)> {
    vec![
        (String::from("to"), DetailValue::Principal(Identity::new(vec![1, 2, 3]))),
        (String::from("amount"), DetailValue::U64(42)),
        (
            String::from("memo"),
            DetailValue::Array(vec![DetailValue::Text(String::from("hi")), DetailValue::False]),
        ),
        (
            String::from("meta"),
            DetailValue::Mapping(vec![(String::from("x"), DetailValue::I64(-3))]),
        ),
    ]
}

#[test]
fn a_list_of_fields_is_its_own_source() {
    let fields = sample_fields();
    assert_eq!(fields.operation(), "");
    assert_eq!(fields.details(), fields);
}

#[test]
fn event_from_source_takes_caller_operation_and_details() {
    let fields = sample_fields();
    let caller = Identity::new(vec![9, 9]);
    let event = event_from_source(caller.clone(), &fields);
    assert_eq!(event.caller, caller);
    assert_eq!(event.operation, "");
    assert_eq!(event.details, fields);
}

#[test]
fn build_event_keeps_what_it_is_given() {
    let event = build_event(Identity::new(vec![4]), "mint", sample_fields());
    assert_eq!(event.caller, Identity::new(vec![4]));
    assert_eq!(event.operation, "mint");
    assert_eq!(event.details, sample_fields());
    let same = IndefiniteEvent::new(Identity::new(vec![4]), String::from("mint"), sample_fields());
    assert_eq!(event, same);
}

#[test]
fn into_event_adds_id_offset_and_time() {
    let event = build_event(Identity::new(vec![4]), "burn", sample_fields());
    let stored = event.clone().into_event(17, 3, 1000);
    assert_eq!(stored.id, 17);
    assert_eq!(stored.offset, 3);
    assert_eq!(stored.time, 1000);
    assert_eq!(stored.caller, event.caller);
    assert_eq!(stored.operation, event.operation);
    assert_eq!(stored.details, event.details);
}

#[test]
fn maybe_indefinite_on_both_kinds_of_event() {
    let event = build_event(Identity::new(vec![4]), "burn", sample_fields());
    assert_eq!(event.time(), None);
    assert_eq!(event.clone().as_indefinite(), event);
    let stored = event.clone().into_event(5, 5, 77);
    assert_eq!(stored.time(), Some(77));
    assert_eq!(stored.as_indefinite(), event);
}

#[test]
fn try_from_event_hands_out_the_details() {
    let event = build_event(Identity::new(vec![4]), "burn", sample_fields());
    let stored = event.clone().into_event(5, 5, 77);
    let from_submitted = Vec::<(String, DetailValue)>::try_from_event(event);
    let from_stored = Vec::<(String, DetailValue)>::try_from_event(stored);
    assert_eq!(from_submitted, Ok(sample_fields()));
    assert_eq!(from_stored, Ok(sample_fields()));
}

#[test]
fn copies_are_deep_and_equal() {
    let fields = sample_fields();
    assert_eq!(duplicate_fields(&fields), fields);
    let values = vec![DetailValue::True, DetailValue::Slice(vec![1, 2]), fields[2].1.clone()];
    assert_eq!(duplicate_values(&values), values);
    assert_eq!(fields[3].1.duplicate(), fields[3].1);
    let stored = build_event(Identity::new(vec![1]), "op", fields).into_event(0, 0, 1);
    assert_eq!(stored.duplicate(), stored);
    let list = vec![stored.clone(), stored.duplicate()];
    assert_eq!(duplicate_events(&list), list);
}

#[test]
fn scalar_values_have_exact_bytes() {
    assert_eq!(value_bytes(&DetailValue::True), vec![0u8]);
    assert_eq!(value_bytes(&DetailValue::False), vec![1u8]);
    assert_eq!(value_bytes(&DetailValue::U64(0x0102)), vec![2u8, 2, 1, 0, 0, 0, 0, 0, 0]);
    assert_eq!(
        value_bytes(&DetailValue::I64(-1)),
        vec![3u8, 255, 255, 255, 255, 255, 255, 255, 255]
    );
    assert_eq!(
        value_bytes(&DetailValue::Text(String::from("\u{e9}"))),
        vec![4u8, 2, 0, 0, 0, 0, 0, 0, 0, 0xc3, 0xa9]
    );
    assert_eq!(
        value_bytes(&DetailValue::Slice(vec![7, 8, 9])),
        vec![5u8, 3, 0, 0, 0, 0, 0, 0, 0, 7, 8, 9]
    );
    assert_eq!(
        value_bytes(&DetailValue::Principal(Identity::new(vec![7]))),
        vec![6u8, 1, 0, 0, 0, 0, 0, 0, 0, 7]
    );
}

#[test]
fn nested_values_have_exact_bytes() {
    let array = DetailValue::Array(vec![DetailValue::False, DetailValue::U64(5)]);
    assert_eq!(
        value_bytes(&array),
        vec![7u8, 2, 0, 0, 0, 0, 0, 0, 0, 1, 2, 5, 0, 0, 0, 0, 0, 0, 0]
    );
    let mapping = DetailValue::Mapping(vec![(String::from("a"), DetailValue::Slice(vec![1, 2]))]);
    assert_eq!(
        value_bytes(&mapping),
        vec![
            8u8, 1, 0, 0, 0, 0, 0, 0, 0, 1, 0, 0, 0, 0, 0, 0, 0, 0x61, 5, 2, 0, 0, 0, 0, 0, 0, 0,
            1, 2
        ]
    );
    let empty = DetailValue::Array(Vec::new());
    assert_eq!(value_bytes(&empty), vec![7u8, 0, 0, 0, 0, 0, 0, 0, 0]);
}

#[test]
fn an_event_has_exact_bytes() {
    let event = Event {
        id: 1,
        offset: 1,
        time: 7,
        caller: Identity::new(vec![9]),
        operation: String::from("ab"),
        details: vec![(String::from("k"), DetailValue::True)],
    };
    let mut expected: Vec<u8> = Vec::new();
    expected.extend_from_slice(&[1, 0, 0, 0, 0, 0, 0, 0]);
    expected.extend_from_slice(&[1, 0, 0, 0, 0, 0, 0, 0]);
    expected.extend_from_slice(&[7, 0, 0, 0, 0, 0, 0, 0]);
    expected.extend_from_slice(&[1, 0, 0, 0, 0, 0, 0, 0, 9]);
    expected.extend_from_slice(&[2, 0, 0, 0, 0, 0, 0, 0, 0x61, 0x62]);
    expected.extend_from_slice(&[1, 0, 0, 0, 0, 0, 0, 0]);
    expected.extend_from_slice(&[1, 0, 0, 0, 0, 0, 0, 0, 0x6b, 0]);
    assert_eq!(event_bytes(&event), expected);
}

#[test]
fn events_that_differ_have_different_bytes() {
    let base = build_event(Identity::new(vec![9]), "ab", sample_fields());
    let a = base.clone().into_event(1, 1, 7);
    let b = base.clone().into_event(2, 1, 7);
    let c = base.into_event(1, 1, 8);
    assert_ne!(event_bytes(&a), event_bytes(&b));
    assert_ne!(event_bytes(&a), event_bytes(&c));
}

struct Bare;

impl IntoEvent for Bare {
    fn details(&self) -> Vec<(String, DetailValue)> {
        vec![(String::from("k"), DetailValue::True)]
    }
}

#[test]
fn a_source_without_a_name_of_its_own_has_the_empty_operation() {
    assert_eq!(Bare.operation(), "");
    let event = event_from_source(Identity::new(vec![1]), &Bare);
    assert_eq!(event.operation, "");
    assert_eq!(event.details, vec![(String::from("k"), DetailValue::True)]);
}

struct Undated(IndefiniteEvent);

impl MaybeIndefinite for Undated {
    fn as_indefinite(self) -> IndefiniteEvent {
        self.0
    }
}

#[test]
fn an_event_without_a_time_of_its_own_has_none() {
    let undated = Undated(build_event(Identity::new(vec![4]), "burn", sample_fields()));
    assert_eq!(undated.time(), None);
    assert_eq!(Vec::<(String, DetailValue)>::try_from_event(undated), Ok(sample_fields()));
}

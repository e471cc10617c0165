use bash_builtins::arrays::array_items;
use bash_builtins::arrays::ArrayRing;
use bash_builtins::arrays::SentinelField;
use bash_builtins::variables::array_get;
use bash_builtins::variables::array_set;
use bash_builtins::variables::assoc_get;
use bash_builtins::variables::assoc_set;
use bash_builtins::variables::classify;
use bash_builtins::variables::detect_layout;
use bash_builtins::variables::find;
use bash_builtins::variables::find_as_string;
use bash_builtins::variables::find_raw;
use bash_builtins::variables::legal_identifier;
use bash_builtins::variables::set_value;
use bash_builtins::variables::unset;
use bash_builtins::variables::SetValueError;
use bash_builtins::variables::VarClass;
use bash_builtins::variables::VarStore;
use bash_builtins::variables::Variable;
use bash_builtins::variables::VariableError;

fn store() -> VarStore {
    VarStore::new(SentinelField::HeadField)
}

#[test]
fn unset_reports_whether_a_variable_was_removed() {
    let mut s = store();
    assert!(!unset(&mut s, &b"MISSING".to_vec()));

    bash_builtins::variables::set(&mut s, &b"VALUE".to_vec(), &b"data".to_vec()).unwrap();
    assert!(unset(&mut s, &b"VALUE".to_vec()));
    assert!(find(&s, &b"VALUE".to_vec()).is_none());
    assert!(find_as_string(&s, &b"VALUE".to_vec()).is_none());
}

#[test]
fn set_then_find_round_trip() {
    let mut s = store();
    bash_builtins::variables::set(&mut s, &b"GREETING".to_vec(), &b"hello".to_vec()).unwrap();
    assert_eq!(
        find_as_string(&s, &b"GREETING".to_vec()),
        Some(b"hello".to_vec())
    );
    match find(&s, &b"GREETING".to_vec()) {
        Some(Variable::Str(v)) => assert_eq!(v, b"hello".to_vec()),
        _ => panic!("expected a scalar"),
    }

    // Overwriting replaces the value.
    bash_builtins::variables::set(&mut s, &b"GREETING".to_vec(), &b"bye".to_vec()).unwrap();
    assert_eq!(
        find_as_string(&s, &b"GREETING".to_vec()),
        Some(b"bye".to_vec())
    );
}

#[test]
fn set_rejects_bad_names_and_values() {
    let mut s = store();
    assert_eq!(
        bash_builtins::variables::set(&mut s, &b"1BAD".to_vec(), &b"v".to_vec()),
        Err(VariableError::InvalidName)
    );
    assert_eq!(
        bash_builtins::variables::set(&mut s, &b"with space".to_vec(), &b"v".to_vec()),
        Err(VariableError::InvalidName)
    );
    assert_eq!(
        bash_builtins::variables::set(&mut s, &b"NUL\0NAME".to_vec(), &b"v".to_vec()),
        Err(VariableError::InvalidName)
    );
    assert_eq!(
        bash_builtins::variables::set(&mut s, &b"OK".to_vec(), &b"v\0v".to_vec()),
        Err(VariableError::InvalidValue)
    );

    assert_eq!(
        set_value(&mut s, &b"2BAD".to_vec(), &b"v".to_vec()),
        Err(SetValueError::InvalidName)
    );
    assert_eq!(
        set_value(&mut s, &b"OK".to_vec(), &b"v\0".to_vec()),
        Err(SetValueError::InvalidValue)
    );
    assert_eq!(set_value(&mut s, &b"OK".to_vec(), &b"v".to_vec()), Ok(()));
}

#[test]
fn legal_identifier_follows_host_rule() {
    assert!(legal_identifier(&b"_ok".to_vec()));
    assert!(legal_identifier(&b"A1_b2".to_vec()));
    assert!(!legal_identifier(&Vec::new()));
    assert!(!legal_identifier(&b"9lives".to_vec()));
    assert!(!legal_identifier(&b"a-b".to_vec()));
}

#[test]
fn indexed_array_enumerates_in_index_order() {
    let mut s = store();
    // Populate positions 2 then 0: enumeration is still 0 then 2.
    array_set(&mut s, &b"ARR".to_vec(), 2, &b"two".to_vec()).unwrap();
    array_set(&mut s, &b"ARR".to_vec(), 0, &b"zero".to_vec()).unwrap();

    let raw = find_raw(&s, &b"ARR".to_vec()).unwrap();
    let items = raw.array_items(SentinelField::HeadField);
    assert_eq!(items, vec![(0, b"zero".to_vec()), (2, b"two".to_vec())]);

    // The same two insertions in the other order give the same view.
    let mut s2 = store();
    array_set(&mut s2, &b"ARR".to_vec(), 0, &b"zero".to_vec()).unwrap();
    array_set(&mut s2, &b"ARR".to_vec(), 2, &b"two".to_vec()).unwrap();
    let raw2 = find_raw(&s2, &b"ARR".to_vec()).unwrap();
    assert_eq!(raw2.array_items(SentinelField::HeadField), items);

    assert_eq!(array_get(&s, &b"ARR".to_vec(), 0), Some(b"zero".to_vec()));
    assert_eq!(array_get(&s, &b"ARR".to_vec(), 2), Some(b"two".to_vec()));
    assert_eq!(array_get(&s, &b"ARR".to_vec(), 1), None);
}

#[test]
fn ring_enumerates_under_both_sentinel_conventions() {
    let ring = ArrayRing::from_pairs(vec![(0, b"zero".to_vec()), (2, b"two".to_vec())]);
    let expected = vec![(0, b"zero".to_vec()), (2, b"two".to_vec())];
    assert_eq!(array_items(&ring, SentinelField::HeadField), expected);
    assert_eq!(array_items(&ring, SentinelField::LastrefField), expected);
}

#[test]
fn array_set_converts_a_scalar() {
    let mut s = store();
    bash_builtins::variables::set(&mut s, &b"V".to_vec(), &b"old".to_vec()).unwrap();
    array_set(&mut s, &b"V".to_vec(), 3, &b"new".to_vec()).unwrap();
    assert_eq!(array_get(&s, &b"V".to_vec(), 0), Some(b"old".to_vec()));
    assert_eq!(array_get(&s, &b"V".to_vec(), 3), Some(b"new".to_vec()));
    match find(&s, &b"V".to_vec()) {
        Some(Variable::Array(vs)) => {
            assert_eq!(vs, vec![b"old".to_vec(), b"new".to_vec()]);
        }
        _ => panic!("expected an indexed array"),
    }
}

#[test]
fn array_set_replaces_an_element() {
    let mut s = store();
    array_set(&mut s, &b"A".to_vec(), 1, &b"first".to_vec()).unwrap();
    array_set(&mut s, &b"A".to_vec(), 1, &b"second".to_vec()).unwrap();
    assert_eq!(array_get(&s, &b"A".to_vec(), 1), Some(b"second".to_vec()));
    let raw = find_raw(&s, &b"A".to_vec()).unwrap();
    assert_eq!(raw.array_items(SentinelField::HeadField).len(), 1);
}

#[test]
fn assoc_round_trip_and_errors() {
    let mut s = store();
    assoc_set(&mut s, &b"MAP".to_vec(), &b"key".to_vec(), &b"value".to_vec()).unwrap();
    assoc_set(&mut s, &b"MAP".to_vec(), &b"other".to_vec(), &b"thing".to_vec()).unwrap();
    assert_eq!(
        assoc_get(&s, &b"MAP".to_vec(), &b"key".to_vec()),
        Some(b"value".to_vec())
    );
    assert_eq!(assoc_get(&s, &b"MAP".to_vec(), &b"nope".to_vec()), None);

    // Replacing a key keeps one pair.
    assoc_set(&mut s, &b"MAP".to_vec(), &b"key".to_vec(), &b"updated".to_vec()).unwrap();
    assert_eq!(
        assoc_get(&s, &b"MAP".to_vec(), &b"key".to_vec()),
        Some(b"updated".to_vec())
    );

    // A scalar refuses the associative update.
    bash_builtins::variables::set(&mut s, &b"SCALAR".to_vec(), &b"x".to_vec()).unwrap();
    assert_eq!(
        assoc_set(&mut s, &b"SCALAR".to_vec(), &b"k".to_vec(), &b"v".to_vec()),
        Err(VariableError::NotAssocArray)
    );

    // An associative variable refuses the indexed update.
    assert_eq!(
        array_set(&mut s, &b"MAP".to_vec(), 0, &b"v".to_vec()),
        Err(VariableError::InvalidValue)
    );
}

#[test]
fn assoc_lookup_uses_host_prefix_comparison() {
    let mut s = store();
    assoc_set(&mut s, &b"MAP".to_vec(), &b"abc".to_vec(), &b"v1".to_vec()).unwrap();
    // The host compares only the searched key's bytes: a stored key the
    // searched key is a prefix of matches.
    assert_eq!(
        assoc_get(&s, &b"MAP".to_vec(), &b"ab".to_vec()),
        Some(b"v1".to_vec())
    );
    assert_eq!(assoc_get(&s, &b"MAP".to_vec(), &b"abcd".to_vec()), None);
}

#[test]
fn raw_variable_accessors_follow_classification() {
    let mut s = store();
    bash_builtins::variables::set(&mut s, &b"S".to_vec(), &b"text".to_vec()).unwrap();
    array_set(&mut s, &b"A".to_vec(), 0, &b"elem".to_vec()).unwrap();
    assoc_set(&mut s, &b"M".to_vec(), &b"k".to_vec(), &b"v".to_vec()).unwrap();

    let scalar = find_raw(&s, &b"S".to_vec()).unwrap();
    assert!(!scalar.is_array());
    assert!(!scalar.is_assoc());
    assert_eq!(scalar.as_str(), Some(&b"text".to_vec()));

    let arr = find_raw(&s, &b"A".to_vec()).unwrap();
    assert!(arr.is_array());
    assert!(arr.as_str().is_none());

    let map = find_raw(&s, &b"M".to_vec()).unwrap();
    assert!(map.is_assoc());
    assert_eq!(map.assoc_items(), vec![(b"k".to_vec(), b"v".to_vec())]);

    match find(&s, &b"M".to_vec()) {
        Some(Variable::Assoc(pairs)) => {
            assert_eq!(pairs, vec![(b"k".to_vec(), b"v".to_vec())]);
        }
        _ => panic!("expected an associative array"),
    }
}

#[test]
fn classification_follows_attribute_bits() {
    assert_eq!(classify(0), VarClass::ScalarVar);
    assert_eq!(classify(0x4), VarClass::IndexedVar);
    assert_eq!(classify(0x40), VarClass::AssocVar);
    // The associative bit takes precedence.
    assert_eq!(classify(0x44), VarClass::AssocVar);
    // Unrelated bits do not matter.
    assert_eq!(classify(0x1), VarClass::ScalarVar);
}

#[test]
fn layout_detection_parses_the_major_version() {
    assert_eq!(
        detect_layout(&b"5.1.16(1)-release".to_vec()),
        SentinelField::HeadField
    );
    assert_eq!(
        detect_layout(&b"4.4.0(1)-release".to_vec()),
        SentinelField::LastrefField
    );
    assert_eq!(detect_layout(&b"12.0".to_vec()), SentinelField::HeadField);
    assert_eq!(detect_layout(&b"unknown".to_vec()), SentinelField::HeadField);
}

use adjoint_check::state::{State, StateError};

#[test]
fn anonymous_state_is_positional() {
    let mut s = State::new(vec![1i64, 2, 3], None).unwrap();
    assert!(!s.is_named());
    assert_eq!(s.len(), 3);
    assert_eq!(s.get(1), Ok(2));
    assert_eq!(s.get(3), Err(StateError::IndexOutOfBounds));
    assert_eq!(s.get_by_name("0"), Err(StateError::UnknownName));
    assert_eq!(s.set(2, 9), Ok(()));
    assert_eq!(s.set(5, 9), Err(StateError::IndexOutOfBounds));
    assert_eq!(s.vec(), vec![1, 2, 9]);
    assert!(s.names_list().is_empty());
}

#[test]
fn named_state_reads_and_writes_by_name() {
    let mut s = State::new(vec![1i64, 2, 3], Some(vec!["a", "b", "r"])).unwrap();
    assert!(s.is_named());
    assert_eq!(s.get_by_name("b"), Ok(2));
    assert_eq!(s.index_of("r"), Some(2));
    assert_eq!(s.index_of("q"), None);
    assert_eq!(s.set_by_name("r", 7), Ok(()));
    assert_eq!(s.get(2), Ok(7));
    assert_eq!(s.get_by_name("q"), Err(StateError::UnknownName));
    assert_eq!(s.set_by_name("q", 1), Err(StateError::UnknownName));
    assert_eq!(s.vec_ref(), &vec![1, 2, 7]);
    assert_eq!(s.names_list(), vec!["a".to_string(), "b".to_string(), "r".to_string()]);
}

#[test]
fn duplicate_names_are_refused() {
    let r = State::new(vec![1i64, 2, 3], Some(vec!["a", "b", "a"]));
    assert_eq!(r.err(), Some(StateError::DuplicateName));
}

#[test]
fn name_count_must_match() {
    let r = State::new(vec![1i64, 2, 3], Some(vec!["a", "b"]));
    assert_eq!(r.err(), Some(StateError::NameCountMismatch));
}

#[test]
fn duplicate_is_independent() {
    let s = State::new(vec![1i64, 2], Some(vec!["a", "b"])).unwrap();
    let mut c = s.duplicate();
    c.set(0, 5).unwrap();
    assert_eq!(s.get(0), Ok(1));
    assert_eq!(c.get(0), Ok(5));
    assert_eq!(c.get_by_name("a"), Ok(5));
}


use plinth::flagvec::FlagVec;

#[test]
fn sanity() {
    let mut vec = FlagVec::new();

    assert_eq!(vec.len(), 0);
    assert_eq!(vec.get(0), false);
    assert_eq!(vec.get(1_000_000_000), false);

    vec.set(0, true);
    assert_eq!(vec.len(), 1);

    vec.set(1_000_000_000, true);
    assert_eq!(vec.len(), 1_000_000_001);
    assert_eq!(vec.word_count(), 1_000_000_001 / 64 + 1);

    vec.set(1_000_000_000, false);
    assert_eq!(vec.get(1_000_000_000), false);
}

#[test]
fn set_returns_previous_value_and_keeps_neighbours() {
    let mut vec = FlagVec::new();
    assert!(vec.is_empty());
    assert_eq!(vec.set(70, true), false);
    assert_eq!(vec.set(70, true), true);
    assert_eq!(vec.set(71, true), false);
    assert_eq!(vec.set(70, false), true);
    assert_eq!(vec.get(70), false);
    assert_eq!(vec.get(71), true);
    assert_eq!(vec.get(69), false);
    // the length moved when the vector grew, and not since
    assert_eq!(vec.len(), 71);
    assert_eq!(vec.word_count(), 2);
    assert!(!vec.is_empty());
}

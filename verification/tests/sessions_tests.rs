use hrpc::sessions::InnerSessions;

#[test]
fn ids_start_at_one_and_are_reused_in_order() {
    let mut s: InnerSessions<&str> = InnerSessions::new();
    assert_eq!(s.insert("a"), 1);
    assert_eq!(s.insert("b"), 2);
    assert_eq!(s.insert("c"), 3);
    assert_eq!(s.take(&2), Some("b"));
    assert_eq!(s.take(&1), Some("a"));
    assert_eq!(s.take(&2), None);
    // freed ids come back oldest first
    assert_eq!(s.insert("d"), 2);
    assert_eq!(s.insert("e"), 1);
    assert_eq!(s.insert("f"), 4);
    assert_eq!(s.take(&4), Some("f"));
    assert_eq!(s.take(&3), Some("c"));
}

#[test]
fn take_of_unknown_id() {
    let mut s: InnerSessions<u32> = InnerSessions::new();
    assert_eq!(s.take(&0), None);
    assert_eq!(s.take(&1), None);
    assert_eq!(s.insert(5), 1);
    assert_eq!(s.take(&7), None);
    assert_eq!(s.take(&1), Some(5));
}

#[test]
fn has_room_for_a_new_id() {
    let s: InnerSessions<u8> = InnerSessions::new();
    assert!(s.has_room());
}

use exex_examples::wasm_guest::{notification_text, processed_length, preview, AllocationTracker};

#[test]
fn notifications_come_in_the_last_allocation() {
    let mut t = AllocationTracker::new();
    assert!(!t.matches(16, 8));
    t.record(16, 8);
    assert!(t.matches(16, 8));
    assert!(!t.matches(16, 9));
    t.record(64, 3);
    assert!(!t.matches(16, 8));
    assert!(t.matches(64, 3));
}

#[test]
fn long_notifications_are_shortened() {
    assert_eq!(preview("short", 200, 100), "short");
    let long: String = (0..250).map(|i| char::from(b'a' + (i % 26) as u8)).collect();
    let p = preview(&long, 200, 100);
    assert_eq!(p.len(), 203);
    assert_eq!(&p[..100], &long[..100]);
    assert_eq!(&p[100..103], "...");
    assert_eq!(&p[103..], &long[150..]);
    assert_eq!(preview("abcdefghijkl", 10, 2), "ab...kl");
}

#[test]
fn notifications_are_read_as_text_and_measured() {
    assert_eq!(processed_length(b"{\"ok\":1}"), 8);
    assert_eq!(notification_text(b"{\"ok\":1}"), "{\"ok\":1}");
    let invalid = [0x61u8, 0xff, 0x62];
    assert_eq!(notification_text(&invalid), "a\u{fffd}b");
    assert_eq!(processed_length(&invalid), 5);
}

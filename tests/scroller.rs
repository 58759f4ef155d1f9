use cornetroll::{Scroller, SENTINEL};

fn window(s: &str) -> String {
    format!("{}{}", s, SENTINEL)
}

#[test]
fn scroller_rests_then_bounces() {
    let mut s = Scroller::new(5, 2);
    assert!(s.is_initialized());
    s.set_content("abcdefghij");
    assert_eq!(s.display(), "");
    let expected = [
        "abcde", "bcdef", "cdefg", "defgh", "efghi", "fghij", "fghij", "fghij", "efghi",
        "defgh", "cdefg", "bcdef", "abcde", "abcde", "abcde", "bcdef",
    ];
    for want in expected {
        s.update();
        assert_eq!(s.display(), window(want));
    }
}

#[test]
fn short_content_is_padded_at_start() {
    let mut s = Scroller::new(8, 3);
    s.set_content("abc");
    for _ in 0..4 {
        s.update();
        assert_eq!(s.display(), window("abc     "));
        assert_eq!(s.display().chars().count(), 9);
    }
    s.set_content("abcdefgh");
    s.update();
    assert_eq!(s.display(), window("abcdefgh"));
}

#[test]
fn new_content_restarts_from_the_start() {
    let mut s = Scroller::new(3, 1);
    s.set_content("abcdef");
    s.update();
    s.update();
    assert_eq!(s.display(), window("cde"));
    s.set_content("abcdef");
    s.update();
    assert_eq!(s.display(), window("def"));
    s.set_content("uvwxyz");
    s.update();
    assert_eq!(s.display(), window("vwx"));
}

#[test]
fn zero_width_is_disabled() {
    let s = Scroller::new(0, 0);
    assert!(!s.is_initialized());
    assert_eq!(s.display(), "");
}

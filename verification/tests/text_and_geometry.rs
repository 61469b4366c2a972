use rlreplay::geometry::{abs_diff, diff_sq, Vec3};
use rlreplay::text::{
    contains_chars, contains_text, ends_with_chars, ends_with_text, lower_char, matches_at,
    same_text, to_chars, to_lower_chars,
};

fn chars(s: &str) -> Vec<char> {
    s.chars().collect()
}

#[test]
fn to_chars_gives_the_characters_in_order() {
    assert_eq!(to_chars(""), Vec::<char>::new());
    assert_eq!(to_chars("aB1"), vec!['a', 'B', '1']);
    assert_eq!(to_chars("é€😀"), vec!['é', '€', '😀']);
}

#[test]
fn lowering_touches_ascii_capitals_only() {
    assert_eq!(lower_char('A'), 'a');
    assert_eq!(lower_char('Z'), 'z');
    assert_eq!(lower_char('a'), 'a');
    assert_eq!(lower_char('@'), '@');
    assert_eq!(lower_char('['), '[');
    assert_eq!(lower_char('É'), 'É');
    assert_eq!(to_lower_chars("HoopsStadium_P"), chars("hoopsstadium_p"));
    assert_eq!(to_lower_chars("ÀBC-É"), chars("Àbc-É"));
    for s in ["", "Ball_TA", "ÄÖÜ xyz XYZ 019"] {
        assert_eq!(to_lower_chars(s), chars(&s.to_ascii_lowercase()));
    }
}

#[test]
fn search_agrees_with_the_standard_library() {
    let hays = ["", "a", "ab", "abcabc", "aaab", "Archetypes.Ball.Ball_Default", "xbally"];
    let needles = ["", "a", "b", "ab", "bc", "abc", "aab", "ball", "Ball_", "abcabcd"];
    for hay in hays {
        for needle in needles {
            assert_eq!(contains_chars(&chars(hay), &chars(needle)), hay.contains(needle));
            assert_eq!(contains_text(&chars(hay), needle), hay.contains(needle));
            assert_eq!(ends_with_chars(&chars(hay), &chars(needle)), hay.ends_with(needle));
            assert_eq!(ends_with_text(&chars(hay), needle), hay.ends_with(needle));
            assert_eq!(same_text(hay, needle), hay == needle);
        }
    }
}

#[test]
fn matches_at_tests_one_position() {
    let hay = chars("abcabc");
    assert!(matches_at(&hay, &chars("abc"), 0));
    assert!(!matches_at(&hay, &chars("abc"), 1));
    assert!(matches_at(&hay, &chars("abc"), 3));
    assert!(matches_at(&hay, &chars(""), 6));
    assert!(!matches_at(&hay, &chars(""), 7));
    assert!(!matches_at(&hay, &chars("bc"), 5));
    assert!(!matches_at(&hay, &chars("abcabca"), 0));
    assert!(!matches_at(&hay, &chars("a"), usize::MAX));
}

#[test]
fn differences_and_squares_do_not_overflow() {
    assert_eq!(abs_diff(3, 10), 7);
    assert_eq!(abs_diff(10, 3), 7);
    assert_eq!(abs_diff(i32::MIN, i32::MAX), u32::MAX as u64);
    assert_eq!(abs_diff(i32::MAX, i32::MIN), u32::MAX as u64);
    assert_eq!(diff_sq(-3, 4), 49);
    assert_eq!(diff_sq(i32::MIN, i32::MAX), (u32::MAX as u128) * (u32::MAX as u128));
}

#[test]
fn squared_distance_and_norm() {
    let a = Vec3::new(1, 2, 3);
    let b = Vec3::new(4, -2, 15);
    assert_eq!(a.dist_sq(&b), 9 + 16 + 144);
    assert_eq!(b.dist_sq(&a), 169);
    assert_eq!(a.dist_sq(&a), 0);
    assert_eq!(b.norm_sq(), 16 + 4 + 225);
    let lo = Vec3::new(i32::MIN, i32::MIN, i32::MIN);
    let hi = Vec3::new(i32::MAX, i32::MAX, i32::MAX);
    assert_eq!(lo.dist_sq(&hi), 3 * (u32::MAX as u128) * (u32::MAX as u128));
    assert_eq!(lo.norm_sq(), 3 * (1u128 << 62));
}

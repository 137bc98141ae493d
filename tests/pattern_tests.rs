use ledwall::pattern::generate_test_pattern;

#[test]
fn pattern_lights_the_shifted_diagonal() {
    let p = generate_test_pattern(4, 5, 1);
    assert_eq!(p.len(), 4 * 5 * 3);
    for x in 0..4 {
        for y in 0..5 {
            let v = if x + 1 == y { 0xFF } else { 0 };
            let i = 3 * (x * 5 + y);
            assert_eq!(&p[i..i + 3], &[v, v, v]);
        }
    }
}

#[test]
fn empty_pattern() {
    assert!(generate_test_pattern(0, 7, 0).is_empty());
    assert!(generate_test_pattern(7, 0, 0).is_empty());
}

use unity_crop::text::decimal;

#[test]
fn decimal_text_matches_to_string() {
    for n in [0u64, 1, 9, 10, 99, 100, 12345, u32::MAX as u64, u64::MAX] {
        assert_eq!(decimal(n), n.to_string());
    }
}

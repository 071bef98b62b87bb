use osm_bpf_to_svg::numfmt::{i64_to_dec, u32_to_dec, u64_to_dec};

#[test]
fn zero_renders_as_single_digit() {
    assert_eq!(u32_to_dec(0), "0");
    assert_eq!(u64_to_dec(0), "0");
    assert_eq!(i64_to_dec(0), "0");
}

#[test]
fn positive_values_render_without_sign() {
    assert_eq!(u32_to_dec(7), "7");
    assert_eq!(u32_to_dec(440000), "440000");
    assert_eq!(u32_to_dec(u32::MAX), "4294967295");
    assert_eq!(u64_to_dec(u64::MAX), "18446744073709551615");
    assert_eq!(i64_to_dec(i64::MAX), "9223372036854775807");
}

#[test]
fn negative_values_render_with_sign() {
    assert_eq!(i64_to_dec(-1), "-1");
    assert_eq!(i64_to_dec(-440000), "-440000");
    assert_eq!(i64_to_dec(i64::MIN), "-9223372036854775808");
}

use arctern::bandwidth::parse_bytes_per_sec;

#[test]
fn plain_bytes_and_binary_units() {
    assert_eq!(parse_bytes_per_sec("1000"), Ok(1000));
    assert_eq!(parse_bytes_per_sec("10MiB"), Ok(10_485_760));
    assert_eq!(parse_bytes_per_sec("800KiB/s"), Ok(819_200));
    assert_eq!(parse_bytes_per_sec(" 2 G "), Ok(2_147_483_648));
    assert_eq!(parse_bytes_per_sec("5k"), Ok(5_120));
}

#[test]
fn fractions_round_down() {
    assert_eq!(parse_bytes_per_sec("1.5GiB"), Ok(1_610_612_736));
    assert_eq!(parse_bytes_per_sec("0.5K"), Ok(512));
    assert_eq!(parse_bytes_per_sec(".5K"), Ok(512));
    assert_eq!(parse_bytes_per_sec("1.9"), Ok(1));
}

#[test]
fn zero_is_refused() {
    assert_eq!(parse_bytes_per_sec("0"), Err("bandwidth limit must be positive".to_string()));
    assert_eq!(parse_bytes_per_sec("0.1"), Err("bandwidth limit must be positive".to_string()));
}

#[test]
fn malformed_figures_say_why() {
    assert_eq!(
        parse_bytes_per_sec("fast"),
        Err("bad number \"\": cannot parse float from empty string".to_string())
    );
    assert_eq!(parse_bytes_per_sec("1.2.3M"), Err("bad number \"1.2.3\": invalid float literal".to_string()));
    assert_eq!(parse_bytes_per_sec("10TiB"), Err("unknown unit \"TiB\" (use B/KiB/MiB/GiB)".to_string()));
}

#[test]
fn huge_figures_saturate() {
    assert_eq!(parse_bytes_per_sec("99999999999999999999G"), Ok(u64::MAX));
}

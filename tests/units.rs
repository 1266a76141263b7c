use procdockerstats::units::convert_to_bytes;

#[test]
fn gib_is_binary() {
    assert_eq!(convert_to_bytes("1GiB"), 1073741824);
}

#[test]
fn kb_is_decimal() {
    assert_eq!(convert_to_bytes("1kb"), 1000);
}

#[test]
fn garbage_reads_as_zero() {
    assert_eq!(convert_to_bytes("bogus"), 0);
    assert_eq!(convert_to_bytes(""), 0);
    assert_eq!(convert_to_bytes("--"), 0);
}

#[test]
fn units_ignore_case() {
    assert_eq!(convert_to_bytes("1KB"), 1000);
    assert_eq!(convert_to_bytes("1kB"), 1000);
    assert_eq!(convert_to_bytes("2gib"), 2 * 1073741824);
    assert_eq!(convert_to_bytes("3MIB"), 3 * 1048576);
    assert_eq!(convert_to_bytes("5Mb"), 5_000_000);
}

#[test]
fn fractions_are_exact() {
    assert_eq!(convert_to_bytes("1.5GiB"), 1610612736);
    assert_eq!(convert_to_bytes("1.5MiB"), 1572864);
    assert_eq!(convert_to_bytes("2.3kB"), 2300);
    assert_eq!(convert_to_bytes("0.001kb"), 1);
    assert_eq!(convert_to_bytes("12.75B"), 12);
    assert_eq!(convert_to_bytes("1.kB"), 1000);
}

#[test]
fn unknown_or_missing_unit_is_bare_number() {
    assert_eq!(convert_to_bytes("12"), 12);
    assert_eq!(convert_to_bytes("3GB"), 3);
    assert_eq!(convert_to_bytes("7.9"), 7);
    assert_eq!(convert_to_bytes("512B"), 512);
}

#[test]
fn huge_values_saturate() {
    assert_eq!(convert_to_bytes("99999999999999999999999GiB"), u64::MAX);
    assert_eq!(convert_to_bytes("18446744073709551615B"), u64::MAX);
    assert_eq!(convert_to_bytes("18446744073709551614"), u64::MAX - 1);
}

use susume::format::byte_size::ByteSize;
use susume::format::byte_size::ByteSizeCustom;
use susume::text::FormatSpec;

/// The options of `{:.N}`.
fn precision(n: usize) -> FormatSpec {
    FormatSpec { precision: Some(n), ..FormatSpec::plain() }
}

fn with_precision(b: ByteSizeCustom, n: usize) -> String {
    b.format_with(&precision(n))
}

#[test]
fn test_byte_size_decimal() {
    let dec = |x| ByteSize(x).custom().decimal().no_ibibytes();

    assert_eq!(dec(10).to_string(), "10.00 B");
    assert_eq!(with_precision(dec(10), 0), "10 B");
    assert_eq!(with_precision(dec(999), 0), "999 B");
    assert_eq!(with_precision(dec(1000), 0), "1 kB");

    assert_eq!(with_precision(dec(1_230_000), 0), "1 MB");
    assert_eq!(with_precision(dec(1_230_000), 2), "1.23 MB");
}

#[test]
fn test_byte_size_binary() {
    let dec = |x| ByteSize(x).custom().binary();

    assert_eq!(dec(10).to_string(), "10.00 B");
    assert_eq!(with_precision(dec(10), 0), "10 B");
    assert_eq!(with_precision(dec(999), 0), "999 B");
    assert_eq!(with_precision(dec(1023), 0), "1023 B");
    assert_eq!(with_precision(dec(1024), 0), "1 kiB");

    assert_eq!(with_precision(dec(1_230_000), 0), "1 MiB");
    assert_eq!(with_precision(dec(1_230_000), 2), "1.17 MiB");
}

#[test]
fn test_byte_size_misc() {
    let asdf = ByteSize(1_230_456).custom();

    assert_eq!(asdf.no_space().to_string(), "1.17MiB");
    assert_eq!(asdf.no_ibibytes().to_string(), "1.17 MB");
    assert_eq!(asdf.no_b_suffix().to_string(), "1.17 Mi");

    let asdf = ByteSize(3_518).custom();

    assert_eq!(asdf.no_space().to_string(), "3.44kiB");
    assert_eq!(asdf.uppercase_k().to_string(), "3.44 KiB");
}

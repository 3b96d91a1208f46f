use pykep_core::text::{append_decimal, append_zero_padded};

#[test]
fn decimal_text_is_appended() {
    let mut out = String::from("n=");
    append_decimal(&mut out, 0);
    out.push(',');
    append_decimal(&mut out, 1_024);
    out.push(',');
    append_decimal(&mut out, u64::MAX);
    assert_eq!(out, "n=0,1024,18446744073709551615");
}

#[test]
fn zero_padding_reaches_the_width() {
    let mut out = String::new();
    append_zero_padded(&mut out, 7, 2);
    out.push('|');
    append_zero_padded(&mut out, 44, 4);
    out.push('|');
    append_zero_padded(&mut out, 12_345, 4);
    out.push('|');
    append_zero_padded(&mut out, 0, 0);
    out.push('|');
    append_zero_padded(&mut out, 0, 6);
    assert_eq!(out, "07|0044|12345|0|000000");
}

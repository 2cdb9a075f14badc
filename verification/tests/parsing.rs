use ir_optimizer::utility::parsing::{
    checked_integer, ident, in_multispace, integer, Expected, ParseError,
};

#[test]
fn can_parse_ident() {
    let result = ident("a").unwrap().1;
    assert_eq!(result, "a".to_string());
    let result = ident("a_b_c").unwrap().1;
    assert_eq!(result, "a_b_c".to_string());
    let result = ident("WHILE_0_JUDGE").unwrap().1;
    assert_eq!(result, "WHILE_0_JUDGE".to_string());
}

#[test]
fn can_parse_integer() {
    let result: i32 = integer("0x40000000").unwrap().1;
    assert_eq!(result, 0x40000000);
    let result: i32 = integer("99").unwrap().1;
    assert_eq!(result, 99);
    let result: i32 = integer("-0x40000000").unwrap().1;
    assert_eq!(result, -0x40000000);
    let result: i32 = integer("-99").unwrap().1;
    assert_eq!(result, -99);
}

#[test]
fn ident_stops_at_the_first_character_that_is_not_its_own() {
    assert_eq!(ident("_tmp1 = 3"), Ok((" = 3", "_tmp1".to_string())));
    assert_eq!(ident("a-b"), Ok(("-b", "a".to_string())));
    assert_eq!(ident("x"), Ok(("", "x".to_string())));
    assert_eq!(ident("h\u{e9}llo"), Ok(("\u{e9}llo", "h".to_string())));
    assert_eq!(ident("__"), Ok(("", "__".to_string())));
}

#[test]
fn ident_fails_at_the_head_of_the_text() {
    assert_eq!(
        ident("1abc"),
        Err(ParseError {
            input: "1abc",
            expected: Expected::Identifier
        })
    );
    assert_eq!(
        ident(""),
        Err(ParseError {
            input: "",
            expected: Expected::Identifier
        })
    );
    assert_eq!(
        ident(" a"),
        Err(ParseError {
            input: " a",
            expected: Expected::Identifier
        })
    );
}

#[test]
fn integer_reads_hexadecimal_digits_of_both_cases() {
    assert_eq!(integer::<i64>("0xfF rest"), Ok((" rest", 255)));
    assert_eq!(integer::<i64>("0x7fffffffffffffff"), Ok(("", i64::MAX)));
    assert_eq!(integer::<i64>("-0x10"), Ok(("", -16)));
    assert_eq!(integer::<u8>("0xff"), Ok(("", 255u8)));
}

#[test]
fn integer_reads_decimal_digits() {
    assert_eq!(integer::<i64>("9223372036854775807"), Ok(("", i64::MAX)));
    assert_eq!(integer::<i8>("-128"), Ok(("", -128i8)));
    assert_eq!(integer::<u16>("007x"), Ok(("x", 7u16)));
    assert_eq!(integer::<i32>("12ab"), Ok(("ab", 12)));
}

#[test]
fn integer_without_hexadecimal_digits_is_the_zero_alone() {
    assert_eq!(integer::<i32>("0xg"), Ok(("xg", 0)));
    assert_eq!(integer::<i32>("0x"), Ok(("x", 0)));
    assert_eq!(integer::<i32>("-0"), Ok(("", 0)));
}

#[test]
fn integer_fails_behind_the_sign() {
    assert_eq!(
        integer::<i32>("-x"),
        Err(ParseError {
            input: "x",
            expected: Expected::Integer
        })
    );
    assert_eq!(
        integer::<i32>("abc"),
        Err(ParseError {
            input: "abc",
            expected: Expected::Integer
        })
    );
    assert_eq!(
        integer::<i32>(""),
        Err(ParseError {
            input: "",
            expected: Expected::Integer
        })
    );
    assert_eq!(
        integer::<i32>("--1"),
        Err(ParseError {
            input: "-1",
            expected: Expected::Integer
        })
    );
}

#[test]
fn in_multispace_skips_whitespace_on_both_sides() {
    assert_eq!(
        in_multispace(ident, " \t\r\n name \n= 1"),
        Ok(("= 1", "name".to_string()))
    );
    assert_eq!(in_multispace(integer::<i32>, "42"), Ok(("", 42)));
    assert_eq!(in_multispace(integer::<i32>, "  -7  "), Ok(("", -7)));
}

#[test]
fn in_multispace_hands_the_failure_on() {
    assert_eq!(
        in_multispace(ident, "  1a "),
        Err(ParseError {
            input: "1a ",
            expected: Expected::Identifier
        })
    );
    assert_eq!(
        in_multispace(integer::<i32>, " \n-z"),
        Err(ParseError {
            input: "z",
            expected: Expected::Integer
        })
    );
}

#[test]
fn checked_integer_tells_a_literal_that_does_not_fit() {
    assert_eq!(checked_integer::<i32>("0x40000000"), Ok(("", Some(0x40000000))));
    assert_eq!(checked_integer::<i32>("0x80000000;"), Ok((";", None)));
    assert_eq!(checked_integer::<i32>("-2147483648"), Ok(("", Some(i32::MIN))));
    assert_eq!(checked_integer::<i32>("-2147483649"), Ok(("", None)));
    assert_eq!(checked_integer::<u8>("255"), Ok(("", Some(255u8))));
    assert_eq!(checked_integer::<u8>("256"), Ok(("", None)));
    assert_eq!(checked_integer::<u8>("-1 "), Ok((" ", None)));
    assert_eq!(checked_integer::<u8>("-0"), Ok(("", Some(0u8))));
}

#[test]
fn checked_integer_tells_digits_beyond_64_bits() {
    assert_eq!(
        checked_integer::<i64>("9223372036854775807"),
        Ok(("", Some(i64::MAX)))
    );
    assert_eq!(checked_integer::<i64>("9223372036854775808"), Ok(("", None)));
    assert_eq!(checked_integer::<i64>("-9223372036854775808"), Ok(("", None)));
    assert_eq!(
        checked_integer::<i64>("0x8000000000000000 tail"),
        Ok((" tail", None))
    );
    assert_eq!(
        checked_integer::<i64>("99999999999999999999999999"),
        Ok(("", None))
    );
    assert_eq!(
        checked_integer::<i64>("0x00000000000000000000000001"),
        Ok(("", Some(1)))
    );
}

#[test]
fn checked_integer_fails_where_integer_fails() {
    assert_eq!(
        checked_integer::<i32>("-x"),
        Err(ParseError {
            input: "x",
            expected: Expected::Integer
        })
    );
    assert_eq!(
        in_multispace(checked_integer::<i16>, " 70000 "),
        Ok(("", None))
    );
}

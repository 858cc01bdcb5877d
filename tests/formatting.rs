use syntax_lab::array::array_line;
use syntax_lab::pad::{pad, Align};
use syntax_lab::radix::{parse_integer, render_integer, Radix};
use syntax_lab::template::{render, Arg, RenderError};
use syntax_lab::value::{type_of, Value};

fn chars(s: &str) -> Vec<char> {
    s.chars().collect()
}

fn text(s: &str) -> Value {
    Value::Str(s.to_string())
}

#[test]
fn plain_placeholder_takes_next_argument() {
    let args = vec![Arg::positional(Value::I32(31))];
    assert_eq!(render("{} days", &args).unwrap(), "31 days");
}

#[test]
fn explicit_positions() {
    let args = vec![Arg::positional(text("Alice")), Arg::positional(text("Bob"))];
    assert_eq!(render("{0}, meet {1}", &args).unwrap(), "Alice, meet Bob");
    assert_eq!(
        render("{0}, this is {1}. {1}, this is {0}.", &args).unwrap(),
        "Alice, this is Bob. Bob, this is Alice."
    );
}

#[test]
fn named_arguments_in_any_order() {
    let args = vec![
        Arg::named("object", text("the lazy dog")),
        Arg::named("subject", text("the quick brown fox")),
        Arg::named("verb", text("jumps over")),
    ];
    assert_eq!(
        render("{subject} - {verb}, {object}", &args).unwrap(),
        "the quick brown fox - jumps over, the lazy dog"
    );
}

#[test]
fn radix_placeholders() {
    let args = vec![Arg::positional(Value::I32(69420))];
    assert_eq!(render("Base 10: {}", &args).unwrap(), "Base 10: 69420");
    assert_eq!(render("{:b}", &args).unwrap(), "10000111100101100");
    assert_eq!(render("{:o}", &args).unwrap(), "207454");
    assert_eq!(render("{:x}", &args).unwrap(), "10f2c");
    assert_eq!(render("{:X}", &args).unwrap(), "10F2C");
}

#[test]
fn justified_numbers() {
    let args = vec![Arg::named("number", Value::I32(123))];
    assert_eq!(render("{number:>5}", &args).unwrap(), "  123");
    assert_eq!(render("{number:<5}", &args).unwrap(), "123  ");
    assert_eq!(render("{number:5}", &args).unwrap(), "  123");
}

#[test]
fn zero_fill_both_sides() {
    let args = vec![Arg::named("n", Value::I32(1))];
    assert_eq!(render("{n:0>5}", &args).unwrap(), "00001");
    assert_eq!(render("{n:0<5}", &args).unwrap(), "10000");
}

#[test]
fn width_from_named_argument() {
    let args = vec![Arg::named("number", Value::I32(123)), Arg::named("width", Value::Usize(6))];
    assert_eq!(render("{number:0>width$}", &args).unwrap(), "000123");
    assert_eq!(render("{0:>1$}", &args).unwrap(), "   123");
}

#[test]
fn text_defaults_to_left() {
    let args = vec![Arg::positional(text("ab")), Arg::positional(Value::Bool(true))];
    assert_eq!(render("{:5}|{:>6}|", &args).unwrap(), "ab   |  true|");
    let c = vec![Arg::positional(Value::Char('z'))];
    assert_eq!(render("[{:*<3}]", &c).unwrap(), "[z**]");
}

#[test]
fn doubled_braces_are_literal() {
    let args: Vec<Arg> = Vec::new();
    assert_eq!(render("{{}} and {{x}}", &args).unwrap(), "{} and {x}");
}

#[test]
fn unknown_index_is_refused() {
    let args = vec![Arg::positional(Value::I32(1))];
    assert_eq!(render("{1}", &args), Err(RenderError::UnknownArgument));
    assert_eq!(render("{} {}", &args), Err(RenderError::UnknownArgument));
}

#[test]
fn unknown_name_is_refused() {
    let args = vec![Arg::named("a", Value::I32(1))];
    assert_eq!(render("{b}", &args), Err(RenderError::UnknownArgument));
    assert_eq!(render("{a:>w$}", &args), Err(RenderError::UnknownArgument));
}

#[test]
fn malformed_placeholders() {
    let args = vec![Arg::positional(Value::I32(1))];
    assert_eq!(render("{", &args), Err(RenderError::BadPlaceholder));
    assert_eq!(render("{:q}", &args), Err(RenderError::BadPlaceholder));
    assert_eq!(render("{0 }", &args), Err(RenderError::BadPlaceholder));
    assert_eq!(render("a } b", &args), Err(RenderError::UnmatchedBrace));
}

#[test]
fn radix_of_text_is_refused() {
    let args = vec![Arg::positional(text("x"))];
    assert_eq!(render("{:x}", &args), Err(RenderError::RadixOnNonInteger));
}

#[test]
fn width_must_be_unsigned_integer() {
    let args = vec![Arg::positional(Value::I32(1)), Arg::positional(Value::I32(-2)), Arg::positional(text("w"))];
    assert_eq!(render("{0:1$}", &args), Err(RenderError::BadWidth));
    assert_eq!(render("{0:2$}", &args), Err(RenderError::BadWidth));
}

#[test]
fn integers_in_each_radix() {
    assert_eq!(render_integer(0, Radix::Binary), "0");
    assert_eq!(render_integer(69420, Radix::Decimal), "69420");
    assert_eq!(render_integer(-255, Radix::LowerHex), "-ff");
    assert_eq!(render_integer(-255, Radix::UpperHex), "-FF");
    assert_eq!(render_integer(8, Radix::Octal), "10");
    assert_eq!(render_integer(i128::MIN, Radix::Decimal), "-170141183460469231731687303715884105728");
}

#[test]
fn parse_accepts_and_refuses() {
    assert_eq!(parse_integer("ff", Radix::LowerHex), Some(255));
    assert_eq!(parse_integer("FF", Radix::LowerHex), Some(255));
    assert_eq!(parse_integer("-101", Radix::Binary), Some(-5));
    assert_eq!(parse_integer("", Radix::Decimal), None);
    assert_eq!(parse_integer("-", Radix::Decimal), None);
    assert_eq!(parse_integer("12a", Radix::Decimal), None);
    assert_eq!(parse_integer("2", Radix::Binary), None);
    assert_eq!(parse_integer("170141183460469231731687303715884105728", Radix::Decimal), None);
    assert_eq!(parse_integer("-170141183460469231731687303715884105728", Radix::Decimal), Some(i128::MIN));
}

#[test]
fn render_then_parse_gives_back_the_integer() {
    let radixes = [Radix::Binary, Radix::Octal, Radix::Decimal, Radix::LowerHex, Radix::UpperHex];
    let values: [i128; 7] = [0, 1, -1, 69420, -4096, i128::MAX, i128::MIN];
    for r in radixes {
        for n in values {
            assert_eq!(parse_integer(&render_integer(n, r), r), Some(n));
        }
    }
}

#[test]
fn padding_reaches_the_width() {
    assert_eq!(pad(&chars("ab"), 5, '*', Align::Left), chars("ab***"));
    assert_eq!(pad(&chars("ab"), 5, '*', Align::Right), chars("***ab"));
    assert_eq!(pad(&chars("ab"), 2, '*', Align::Right), chars("ab"));
    assert_eq!(pad(&chars("abc"), 1, '*', Align::Left), chars("abc"));
    assert_eq!(pad(&chars(""), 3, '0', Align::Right), chars("000"));
}

#[test]
fn type_names() {
    assert_eq!(type_of(&Value::I32(15)), "i32");
    assert_eq!(type_of(&Value::U8(1)), "u8");
    assert_eq!(type_of(&Value::Bool(true)), "bool");
    assert_eq!(type_of(&Value::Char('🙀')), "char");
    assert_eq!(type_of(&text("abc def")), "&str");
    assert_eq!(type_of(&Value::Usize(7)), "usize");
}

#[test]
fn array_elements_by_index() {
    let arr: [i32; 5] = [1, 2, 3, 4, 5];
    assert_eq!(arr[0], 1);
    assert_eq!(arr[1], 2);
    assert_eq!(arr.get(5), None);
    assert_eq!(array_line(&arr), "1\t2\t3\t4\t5\t");
    assert_eq!(array_line(&[-7, 40]), "-7\t40\t");
    assert_eq!(array_line(&[]), "");
}

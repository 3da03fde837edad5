use vmprep::number::{digit_of, parse_byte, push_decimal, Radix};

fn chars(text: &str) -> Vec<char> {
    text.chars().collect()
}

#[test]
fn base_of_each_radix() {
    assert_eq!(Radix::Decimal.base_of(), 10);
    assert_eq!(Radix::Hexadecimal.base_of(), 16);
}

#[test]
fn digits_of_each_radix() {
    assert_eq!(digit_of('0', Radix::Decimal), Some(0));
    assert_eq!(digit_of('9', Radix::Decimal), Some(9));
    assert_eq!(digit_of('a', Radix::Decimal), None);
    assert_eq!(digit_of('a', Radix::Hexadecimal), Some(10));
    assert_eq!(digit_of('F', Radix::Hexadecimal), Some(15));
    assert_eq!(digit_of('g', Radix::Hexadecimal), None);
    assert_eq!(digit_of('G', Radix::Hexadecimal), None);
    assert_eq!(digit_of('/', Radix::Hexadecimal), None);
    assert_eq!(digit_of(':', Radix::Hexadecimal), None);
    assert_eq!(digit_of('\u{663}', Radix::Decimal), None);
    let mut n: u32 = 0;
    while n <= 0x10ffff {
        if let Some(c) = char::from_u32(n) {
            assert_eq!(digit_of(c, Radix::Decimal), c.to_digit(10), "U+{:04X}", n);
            assert_eq!(digit_of(c, Radix::Hexadecimal), c.to_digit(16), "U+{:04X}", n);
        }
        n += 1;
    }
}

#[test]
fn parse_byte_reads_exact_values() {
    assert_eq!(parse_byte(&chars("0"), Radix::Decimal), Some(0));
    assert_eq!(parse_byte(&chars("255"), Radix::Decimal), Some(255));
    assert_eq!(parse_byte(&chars("256"), Radix::Decimal), None);
    assert_eq!(parse_byte(&chars("ff"), Radix::Hexadecimal), Some(255));
    assert_eq!(parse_byte(&chars("FF"), Radix::Hexadecimal), Some(255));
    assert_eq!(parse_byte(&chars("100"), Radix::Hexadecimal), None);
    assert_eq!(parse_byte(&chars("1f"), Radix::Hexadecimal), Some(0x1f));
    assert_eq!(parse_byte(&chars("1f"), Radix::Decimal), None);
    assert_eq!(parse_byte(&chars("0000"), Radix::Hexadecimal), Some(0));
    assert_eq!(parse_byte(&chars("000000000000000000000000ff"), Radix::Hexadecimal), Some(255));
    assert_eq!(parse_byte(&chars("+7"), Radix::Decimal), Some(7));
    assert_eq!(parse_byte(&chars("+"), Radix::Decimal), None);
    assert_eq!(parse_byte(&chars("-7"), Radix::Decimal), None);
    assert_eq!(parse_byte(&chars("++7"), Radix::Decimal), None);
    assert_eq!(parse_byte(&chars(""), Radix::Decimal), None);
    assert_eq!(parse_byte(&chars(" 7"), Radix::Decimal), None);
    assert_eq!(parse_byte(&chars("7 "), Radix::Decimal), None);
    assert_eq!(parse_byte(&chars("99999999999999999999999"), Radix::Decimal), None);
}

#[test]
fn parse_byte_agrees_with_the_standard_parser() {
    let alphabet = ['+', '-', '0', '1', '2', '5', '9', 'a', 'F', 'g', ' ', 'f'];
    let mut texts: Vec<String> = vec![String::new()];
    let mut start = 0;
    for _ in 0..4 {
        let end = texts.len();
        for i in start..end {
            for c in alphabet {
                let mut t = texts[i].clone();
                t.push(c);
                texts.push(t);
            }
        }
        start = end;
    }
    assert_eq!(texts.len(), 1 + 12 + 144 + 1728 + 20736);
    for t in &texts {
        let c = chars(t);
        assert_eq!(parse_byte(&c, Radix::Decimal), u8::from_str_radix(t, 10).ok(), "{:?}", t);
        assert_eq!(parse_byte(&c, Radix::Decimal), t.parse::<u8>().ok(), "{:?}", t);
        assert_eq!(parse_byte(&c, Radix::Hexadecimal), u8::from_str_radix(t, 16).ok(), "{:?}", t);
    }
}

#[test]
fn push_decimal_writes_base_ten() {
    let values = [0usize, 1, 9, 10, 11, 99, 100, 101, 255, 256, 1000, 65535, 4294967295, usize::MAX];
    for n in values {
        let mut s = String::from("-j");
        push_decimal(&mut s, n);
        assert_eq!(s, format!("-j{}", n));
    }
    let mut s = String::new();
    push_decimal(&mut s, 16);
    assert_eq!(s, "16");
}

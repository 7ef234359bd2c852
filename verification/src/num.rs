use vstd::prelude::*;

verus! {

/// Why a text is not a decimal `u8`.
#[derive(Debug, Clone, Copy, PartialEq, Eq, Structural)]
pub enum IntErrorKind {
    /// The text is empty.
    Empty,
    /// A character is not a digit (or the text is a lone sign).
    InvalidDigit,
    /// The number is above 255.
    PosOverflow,
}

/// Whether `c` is an ASCII decimal digit.
pub open spec fn is_digit(c: char) -> bool {
    '0' <= c <= '9'
}

/// The value of a decimal digit.
pub open spec fn digit_value(c: char) -> int {
    c as int - '0' as int
}

/// Reads the digits of `d` from position `i` on, after the value `acc` of
/// those before it: the first character that is not a digit is an error, and
/// so is a value above 255, whichever comes first.
pub open spec fn digits_from(d: Seq<char>, i: int, acc: int) -> Result<u8, IntErrorKind>
    decreases d.len() - i,
{
    if i < 0 || i >= d.len() {
        Ok(acc as u8)
    } else if !is_digit(d[i]) {
        Err(IntErrorKind::InvalidDigit)
    } else if acc * 10 + digit_value(d[i]) > 255 {
        Err(IntErrorKind::PosOverflow)
    } else {
        digits_from(d, i + 1, acc * 10 + digit_value(d[i]))
    }
}

/// Reads a decimal `u8` as Rust's `u8::from_str` does: an optional `+`, then
/// one or more digits, with a value of at most 255.
pub open spec fn parse_u8_spec(s: Seq<char>) -> Result<u8, IntErrorKind> {
    if s.len() == 0 {
        Err(IntErrorKind::Empty)
    } else if s.len() == 1 && (s[0] == '+' || s[0] == '-') {
        Err(IntErrorKind::InvalidDigit)
    } else if s[0] == '+' {
        digits_from(s.drop_first(), 0, 0)
    } else {
        digits_from(s, 0, 0)
    }
}

/// The characters of the bytes, each byte read as the character of the
/// same number.
pub open spec fn bytes_as_chars(b: Seq<u8>) -> Seq<char> {
    Seq::new(b.len(), |i: int| b[i] as char)
}

/// Reads a decimal `u8` from characters.
pub fn parse_u8_chars(s: &[char]) -> (r: Result<u8, IntErrorKind>)
    ensures
        r == parse_u8_spec(s@),
{
    let n = s.len();
    if n == 0 {
        return Err(IntErrorKind::Empty);
    }
    if n == 1 && (s[0] == '+' || s[0] == '-') {
        return Err(IntErrorKind::InvalidDigit);
    }
    let start: usize = if s[0] == '+' {
        1
    } else {
        0
    };
    let ghost d = if s@[0] == '+' {
        s@.drop_first()
    } else {
        s@
    };
    let mut acc: u32 = 0;
    let mut i: usize = start;
    while i < n
        invariant
            start <= i <= n,
            n == s@.len(),
            start == 0 || start == 1,
            d == s@.subrange(start as int, n as int),
            acc <= 255,
            parse_u8_spec(s@) == digits_from(d, i - start, acc as int),
        decreases n - i,
    {
        let c = s[i];
        if !('0' <= c && c <= '9') {
            return Err(IntErrorKind::InvalidDigit);
        }
        let v = acc * 10 + (c as u32 - '0' as u32);
        if v > 255 {
            return Err(IntErrorKind::PosOverflow);
        }
        acc = v;
        i = i + 1;
    }
    Ok(acc as u8)
}

/// The characters of a text.
pub fn chars_of(s: &str) -> (r: Vec<char>)
    ensures
        r@ == s@,
{
    let n = s.unicode_len();
    let mut out: Vec<char> = Vec::new();
    let mut i: usize = 0;
    while i < n
        invariant
            n == s@.len(),
            i <= n,
            out@ == s@.subrange(0, i as int),
        decreases n - i,
    {
        out.push(s.get_char(i));
        i = i + 1;
        proof {
            assert(out@ =~= s@.subrange(0, i as int));
        }
    }
    proof {
        assert(s@.subrange(0, n as int) =~= s@);
    }
    out
}

/// Reads a decimal `u8` from a text.
pub fn parse_u8_str(s: &str) -> (r: Result<u8, IntErrorKind>)
    ensures
        r == parse_u8_spec(s@),
{
    let chars = chars_of(s);
    parse_u8_chars(chars.as_slice())
}

/// Reads a decimal `u8` from bytes, each byte taken as one character.
pub fn parse_u8_bytes(b: &[u8]) -> (r: Result<u8, IntErrorKind>)
    ensures
        r == parse_u8_spec(bytes_as_chars(b@)),
{
    let mut chars: Vec<char> = Vec::new();
    let mut i: usize = 0;
    while i < b.len()
        invariant
            i <= b.len(),
            chars@ == bytes_as_chars(b@.subrange(0, i as int)),
        decreases b.len() - i,
    {
        chars.push(b[i] as char);
        i = i + 1;
        proof {
            assert(chars@ =~= bytes_as_chars(b@.subrange(0, i as int)));
        }
    }
    proof {
        assert(b@.subrange(0, b@.len() as int) =~= b@);
    }
    parse_u8_chars(chars.as_slice())
}

/// The decimal text of a number.
pub open spec fn decimal_chars(n: nat) -> Seq<char>
    decreases n,
{
    if n < 10 {
        seq![(n + '0' as nat) as char]
    } else {
        decimal_chars(n / 10).push(((n % 10) + '0' as nat) as char)
    }
}

/// The text of one decimal digit.
fn digit_str(d: u8) -> (s: &'static str)
    requires
        d < 10,
    ensures
        s@ == seq![(d + '0' as nat) as char],
{
    proof {
        reveal_strlit("0");
        reveal_strlit("1");
        reveal_strlit("2");
        reveal_strlit("3");
        reveal_strlit("4");
        reveal_strlit("5");
        reveal_strlit("6");
        reveal_strlit("7");
        reveal_strlit("8");
        reveal_strlit("9");
    }
    match d {
        0 => "0",
        1 => "1",
        2 => "2",
        3 => "3",
        4 => "4",
        5 => "5",
        6 => "6",
        7 => "7",
        8 => "8",
        _ => "9",
    }
}

/// The decimal text of a number, as `u8::to_string` writes it.
pub fn u8_to_decimal(n: u8) -> (r: String)
    ensures
        r@ == decimal_chars(n as nat),
{
    let mut r = String::new();
    if n >= 100 {
        r.append(digit_str(n / 100));
        r.append(digit_str((n / 10) % 10));
        proof {
            assert(decimal_chars((n / 100) as nat) == seq![((n / 100) + '0' as nat) as char]);
            assert(decimal_chars((n / 10) as nat) =~= decimal_chars((n / 100) as nat).push(
                (((n / 10) % 10) + '0' as nat) as char,
            ));
        }
    } else if n >= 10 {
        r.append(digit_str(n / 10));
    }
    r.append(digit_str(n % 10));
    proof {
        if n >= 100 {
            assert(r@ =~= decimal_chars(n as nat));
        } else if n >= 10 {
            assert(decimal_chars((n / 10) as nat) == seq![((n / 10) + '0' as nat) as char]);
            assert(decimal_chars(n as nat) == decimal_chars((n / 10) as nat).push(
                ((n % 10) + '0' as nat) as char,
            ));
            assert(r@ =~= decimal_chars(n as nat));
        } else {
            assert(r@ =~= decimal_chars(n as nat));
        }
    }
    r
}

/// The text of a failed reading of a decimal number, as Rust writes it.
pub open spec fn int_error_text(k: IntErrorKind) -> Seq<char> {
    match k {
        IntErrorKind::Empty => "cannot parse integer from empty string"@,
        IntErrorKind::InvalidDigit => "invalid digit found in string"@,
        IntErrorKind::PosOverflow => "number too large to fit in target type"@,
    }
}

/// The text of a failed reading of a decimal number.
pub fn int_error_string(k: IntErrorKind) -> (r: String)
    ensures
        r@ == int_error_text(k),
{
    match k {
        IntErrorKind::Empty => String::from_str("cannot parse integer from empty string"),
        IntErrorKind::InvalidDigit => String::from_str("invalid digit found in string"),
        IntErrorKind::PosOverflow => String::from_str("number too large to fit in target type"),
    }
}

} // verus!

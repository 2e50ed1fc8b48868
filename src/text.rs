use vstd::prelude::*;
use vstd::string::{StrSliceExecFns, StringExecFns};

verus! {

/// The decimal digit glyph of `d`, for `0 <= d < 10`.
pub open spec fn digit_char(d: int) -> char {
    seq!['0', '1', '2', '3', '4', '5', '6', '7', '8', '9'][d]
}

/// The superscript glyph of the digit `d`, for `0 <= d < 10`.
pub open spec fn superscript_char(d: int) -> char {
    seq![
        '\u{2070}',
        '\u{00b9}',
        '\u{00b2}',
        '\u{00b3}',
        '\u{2074}',
        '\u{2075}',
        '\u{2076}',
        '\u{2077}',
        '\u{2078}',
        '\u{2079}',
    ][d]
}

/// The decimal digits of `n`, most significant first, without leading zeros.
pub open spec fn nat_text(n: nat) -> Seq<char>
    decreases n,
{
    if n < 10 {
        seq![digit_char(n as int)]
    } else {
        nat_text(n / 10).push(digit_char((n % 10) as int))
    }
}

/// `n` written in decimal, with a leading `-` when it is negative.
pub open spec fn int_text(n: int) -> Seq<char> {
    if n < 0 {
        seq!['-'] + nat_text((-n) as nat)
    } else {
        nat_text(n as nat)
    }
}

/// `n` written in decimal, in parentheses when it is negative.
pub open spec fn bracket_text(n: int) -> Seq<char> {
    if n < 0 {
        seq!['('] + int_text(n) + seq![')']
    } else {
        int_text(n)
    }
}

/// The glyph of a decimal digit.
pub fn digit_text(d: u64) -> (r: &'static str)
    requires
        d < 10,
    ensures
        r@ == seq![digit_char(d as int)],
{
    proof {
        reveal_strlit("0");
        reveal_strlit("1");
        reveal_strlit("2");
        reveal_strlit("3");
        reveal_strlit("4");
        reveal_strlit("5");
        reveal_strlit("6");
        reveal_strlit("7");
        reveal_strlit("8");
        reveal_strlit("9");
    }
    if d == 0 {
        "0"
    } else if d == 1 {
        "1"
    } else if d == 2 {
        "2"
    } else if d == 3 {
        "3"
    } else if d == 4 {
        "4"
    } else if d == 5 {
        "5"
    } else if d == 6 {
        "6"
    } else if d == 7 {
        "7"
    } else if d == 8 {
        "8"
    } else {
        "9"
    }
}

/// The superscript glyph of a decimal digit.
fn superscript_str(d: i32) -> (r: &'static str)
    requires
        0 <= d < 10,
    ensures
        r@ == seq![superscript_char(d as int)],
{
    proof {
        reveal_strlit("\u{2070}");
        reveal_strlit("\u{00b9}");
        reveal_strlit("\u{00b2}");
        reveal_strlit("\u{00b3}");
        reveal_strlit("\u{2074}");
        reveal_strlit("\u{2075}");
        reveal_strlit("\u{2076}");
        reveal_strlit("\u{2077}");
        reveal_strlit("\u{2078}");
        reveal_strlit("\u{2079}");
    }
    if d == 0 {
        "\u{2070}"
    } else if d == 1 {
        "\u{00b9}"
    } else if d == 2 {
        "\u{00b2}"
    } else if d == 3 {
        "\u{00b3}"
    } else if d == 4 {
        "\u{2074}"
    } else if d == 5 {
        "\u{2075}"
    } else if d == 6 {
        "\u{2076}"
    } else if d == 7 {
        "\u{2077}"
    } else if d == 8 {
        "\u{2078}"
    } else {
        "\u{2079}"
    }
}

/// Appends the decimal digits of `n` to `s`.
pub fn append_nat(s: &mut String, n: u64)
    ensures
        final(s)@ == old(s)@ + nat_text(n as nat),
    decreases n,
{
    if n >= 10 {
        append_nat(s, n / 10);
    }
    s.append(digit_text(n % 10));
    proof {
        assert(final(s)@ =~= old(s)@ + nat_text(n as nat));
    }
}

/// Appends `n`, written in decimal, to `s`.
pub fn append_int(s: &mut String, n: i64)
    ensures
        final(s)@ == old(s)@ + int_text(n as int),
{
    if n < 0 {
        s.append("-");
        let m: u64 = if n == i64::MIN {
            0x8000_0000_0000_0000u64
        } else {
            (-n) as u64
        };
        append_nat(s, m);
        proof {
            reveal_strlit("-");
            assert(final(s)@ =~= old(s)@ + int_text(n as int));
        }
    } else {
        append_nat(s, n as u64);
    }
}

/// `num` in decimal, in parentheses when it is negative.
pub fn bracket_negative(num: i32) -> (r: String)
    ensures
        r@ == bracket_text(num as int),
{
    let mut s = String::new();
    if num < 0 {
        s.append("(");
        append_int(&mut s, num as i64);
        s.append(")");
        proof {
            reveal_strlit("(");
            reveal_strlit(")");
            assert(s@ =~= bracket_text(num as int));
        }
    } else {
        append_int(&mut s, num as i64);
        proof {
            assert(s@ =~= bracket_text(num as int));
        }
    }
    s
}

/// `base` followed by the superscript glyph of `exponent`.
pub fn format_superscript(base: i32, exponent: i32) -> (r: String)
    requires
        0 <= exponent <= 9,
    ensures
        r@ == int_text(base as int).push(superscript_char(exponent as int)),
{
    let mut s = String::new();
    append_int(&mut s, base as i64);
    s.append(superscript_str(exponent));
    proof {
        assert(s@ =~= int_text(base as int).push(superscript_char(exponent as int)));
    }
    s
}

/// Whether `op` is the exponentiation symbol `^`.
pub open spec fn is_power_symbol(op: Seq<char>) -> bool {
    op == seq!['^']
}

/// The prompt for `a op b`: `what is 1²?` for a power, `what is (-1) - (-3)?`
/// for the other operations.
pub open spec fn question_text(op: Seq<char>, a: int, b: int) -> Seq<char> {
    if is_power_symbol(op) {
        "what is "@ + int_text(a) + seq![superscript_char(b), '?']
    } else {
        "what is "@ + bracket_text(a) + seq![' '] + op + seq![' '] + bracket_text(b) + seq!['?']
    }
}

/// The prompt that asks for `operand_a <operation> operand_b`.
pub fn format_question(operation: &str, operand_a: i32, operand_b: i32) -> (r: String)
    requires
        is_power_symbol(operation@) ==> 0 <= operand_b <= 9,
    ensures
        r@ == question_text(operation@, operand_a as int, operand_b as int),
{
    let power = operation.unicode_len() == 1 && operation.get_char(0) == '^';
    assert(power == is_power_symbol(operation@)) by {
        if operation@.len() == 1 && operation@[0] == '^' {
            assert(operation@ =~= seq!['^']);
        }
    }
    let mut s = String::from_str("what is ");
    if power {
        s.append(format_superscript(operand_a, operand_b).as_str());
        s.append("?");
        proof {
            reveal_strlit("?");
            assert(s@ =~= question_text(operation@, operand_a as int, operand_b as int));
        }
    } else {
        s.append(bracket_negative(operand_a).as_str());
        s.append(" ");
        s.append(operation);
        s.append(" ");
        s.append(bracket_negative(operand_b).as_str());
        s.append("?");
        proof {
            reveal_strlit("?");
            reveal_strlit(" ");
            assert(s@ =~= question_text(operation@, operand_a as int, operand_b as int));
        }
    }
    s
}

} // verus!

//! Unsigned numbers as text, and dotted IPv4 addresses.

use vstd::prelude::*;
use vstd::slice::slice_subrange;

use crate::text;

verus! {

/// The value of a digit in bases up to sixteen.
pub open spec fn digit(c: char) -> Option<nat> {
    if '0' <= c <= '9' {
        Some((c as nat - '0' as nat) as nat)
    } else if 'a' <= c <= 'f' {
        Some((c as nat - 'a' as nat + 10) as nat)
    } else if 'A' <= c <= 'F' {
        Some((c as nat - 'A' as nat + 10) as nat)
    } else {
        None
    }
}

/// The number that a run of digits spells in the given base; an empty run
/// spells zero.
pub open spec fn digits_value(s: Seq<char>, radix: nat) -> Option<nat>
    decreases s.len(),
{
    if s.len() == 0 {
        Some(0nat)
    } else {
        match (digits_value(s.drop_last(), radix), digit(s.last())) {
            (Some(v), Some(d)) => if d < radix {
                Some(v * radix + d)
            } else {
                None
            },
            _ => None,
        }
    }
}

/// The digits of a number without its optional plus sign.
pub open spec fn unsigned_digits(s: Seq<char>) -> Seq<char> {
    if s.len() > 0 && s[0] == '+' {
        s.skip(1)
    } else {
        s
    }
}

/// The number that the text spells: an optional plus sign and at least one
/// digit, nothing else.
pub open spec fn unsigned_value(s: Seq<char>, radix: nat) -> Option<nat> {
    if unsigned_digits(s).len() == 0 {
        None
    } else {
        digits_value(unsigned_digits(s), radix)
    }
}

/// The number that the text spells, if it is at most `max`.
pub open spec fn bounded_value(s: Seq<char>, radix: nat, max: nat) -> Option<nat> {
    match unsigned_value(s, radix) {
        Some(v) => if v <= max {
            Some(v)
        } else {
            None
        },
        None => None,
    }
}

/// The decimal digit of a number below ten.
pub open spec fn digit_char(d: nat) -> char {
    (('0' as u8) + d) as char
}

/// The decimal digits of a number.
pub open spec fn decimal(n: nat) -> Seq<char>
    decreases n,
{
    if n < 10 {
        seq![digit_char(n)]
    } else {
        decimal(n / 10).push(digit_char(n % 10))
    }
}

/// The value of one digit.
fn digit_of(c: char) -> (r: Option<u64>)
    ensures
        match r {
            Some(d) => digit(c) == Some(d as nat) && d < 16,
            None => digit(c) is None,
        },
{
    if '0' <= c && c <= '9' {
        Some((c as u8 - '0' as u8) as u64)
    } else if 'a' <= c && c <= 'f' {
        Some((c as u8 - 'a' as u8 + 10) as u64)
    } else if 'A' <= c && c <= 'F' {
        Some((c as u8 - 'A' as u8 + 10) as u64)
    } else {
        None
    }
}

/// A prefix that spells no number spoils the whole.
proof fn lemma_bad_prefix(s: Seq<char>, n: int, radix: nat)
    requires
        0 <= n <= s.len(),
        digits_value(s.take(n), radix) is None,
    ensures
        digits_value(s, radix) is None,
    decreases s.len(),
{
    if n == s.len() {
        assert(s.take(n) =~= s);
    } else {
        assert(s.drop_last().take(n) =~= s.take(n));
        lemma_bad_prefix(s.drop_last(), n, radix);
    }
}

/// Reads an unsigned number of at most `max`.
pub fn parse_unsigned(cs: &[char], radix: u64, max: u64) -> (r: Option<u64>)
    requires
        2 <= radix <= 16,
    ensures
        match r {
            Some(v) => bounded_value(cs@, radix as nat, max as nat) == Some(v as nat),
            None => bounded_value(cs@, radix as nat, max as nat) is None,
        },
{
    let start: usize = if cs.len() > 0 && cs[0] == '+' {
        1
    } else {
        0
    };
    let ds = slice_subrange(cs, start, cs.len());
    proof {
        assert(ds@ =~= unsigned_digits(cs@));
    }
    if ds.len() == 0 {
        return None;
    }
    let mut value: u64 = 0;
    let mut over: bool = false;
    let mut i: usize = 0;
    while i < ds.len()
        invariant
            i <= ds@.len(),
            2 <= radix <= 16,
            ds@ == unsigned_digits(cs@),
            ds@.len() > 0,
            digits_value(ds@.take(i as int), radix as nat) is Some,
            !over ==> digits_value(ds@.take(i as int), radix as nat) == Some(value as nat) && value
                <= max,
            over ==> digits_value(ds@.take(i as int), radix as nat)->0 > max,
        decreases ds.len() - i,
    {
        let ghost prefix = ds@.take(i + 1);
        let ghost v = digits_value(ds@.take(i as int), radix as nat)->0;
        proof {
            assert(prefix.drop_last() =~= ds@.take(i as int));
        }
        match digit_of(ds[i]) {
            Some(d) if d < radix => {
                proof {
                    assert(digits_value(prefix, radix as nat) == Some(v * (radix as nat) + d as nat));
                    assert(v * (radix as nat) + d >= v) by (nonlinear_arith)
                        requires
                            radix >= 2,
                            d >= 0,
                            v >= 0,
                    ;
                }
                if !over {
                    if d > max || value > (max - d) / radix {
                        proof {
                            let m = max as int;
                            let x = value as int;
                            let b = radix as int;
                            let e = d as int;
                            assert(e <= m && x > (m - e) / b ==> x * b + e > m) by (nonlinear_arith)
                                requires
                                    b >= 2,
                            ;
                            assert(e > m ==> x * b + e > m) by (nonlinear_arith)
                                requires
                                    b >= 2,
                                    x >= 0,
                            ;
                        }
                        over = true;
                    } else {
                        proof {
                            let m = max as int;
                            let x = value as int;
                            let b = radix as int;
                            let e = d as int;
                            assert(x * b + e <= m) by (nonlinear_arith)
                                requires
                                    b >= 2,
                                    e <= m,
                                    x <= (m - e) / b,
                            ;
                            assert(0 <= x * b) by (nonlinear_arith)
                                requires
                                    b >= 2,
                                    x >= 0,
                            ;
                        }
                        value = value * radix + d;
                    }
                }
            },
            _ => {
                proof {
                    assert(digits_value(prefix, radix as nat) is None);
                    lemma_bad_prefix(ds@, i + 1, radix as nat);
                }
                return None;
            },
        }
        i = i + 1;
    }
    proof {
        assert(ds@.take(i as int) =~= ds@);
    }
    if over {
        None
    } else {
        Some(value)
    }
}

/// The decimal digits of a number.
pub fn format_decimal(n: u64) -> (r: Vec<char>)
    ensures
        r@ == decimal(n as nat),
    decreases n,
{
    let last = ('0' as u8 + (n % 10) as u8) as char;
    let mut out: Vec<char> = if n < 10 {
        Vec::new()
    } else {
        format_decimal(n / 10)
    };
    out.push(last);
    proof {
        if n < 10 {
            assert(out@ =~= decimal(n as nat));
        }
    }
    out
}

/// The decimal digits of a number, as a string.
pub fn decimal_text(n: u64) -> (r: String)
    ensures
        r@ == decimal(n as nat),
{
    let cs = format_decimal(n);
    text::to_text(cs.as_slice())
}

/// The decimal digits of a number that may be negative.
pub open spec fn signed_decimal(n: int) -> Seq<char> {
    if n < 0 {
        seq!['-'] + decimal((-n) as nat)
    } else {
        decimal(n as nat)
    }
}

/// The decimal digits of a number that may be negative, as a string.
pub fn signed_text(n: i32) -> (r: String)
    ensures
        r@ == signed_decimal(n as int),
{
    if n < 0 {
        let mut out: Vec<char> = Vec::new();
        out.push('-');
        let mut digits = format_decimal((-(n as i64)) as u64);
        out.append(&mut digits);
        proof {
            assert(out@ =~= signed_decimal(n as int));
        }
        text::to_text(out.as_slice())
    } else {
        decimal_text(n as u64)
    }
}

/// A hexadecimal digit in lower case.
pub open spec fn hex_char(d: nat) -> char {
    if d < 10 {
        (0x30 + d) as char
    } else {
        (0x61 + d - 10) as char
    }
}

/// The hexadecimal digits of a number.
pub open spec fn hexadecimal(n: nat) -> Seq<char>
    decreases n,
{
    if n < 16 {
        seq![hex_char(n)]
    } else {
        hexadecimal(n / 16).push(hex_char(n % 16))
    }
}

/// Reading back the hexadecimal digits of a number gives the number.
pub proof fn lemma_hexadecimal_reads_back(n: nat)
    ensures
        digits_value(hexadecimal(n), 16) == Some(n),
        unsigned_value(hexadecimal(n), 16) == Some(n),
        hexadecimal(n).len() > 0,
        forall|i: int|
            0 <= i < hexadecimal(n).len() ==> '0' <= #[trigger] hexadecimal(n)[i] <= '9' || 'a'
                <= hexadecimal(n)[i] <= 'f',
    decreases n,
{
    reveal_with_fuel(digits_value, 2);
    if n >= 16 {
        lemma_hexadecimal_reads_back(n / 16);
        assert(hexadecimal(n).drop_last() =~= hexadecimal(n / 16));
        assert forall|i: int| 0 <= i < hexadecimal(n).len() implies '0'
            <= #[trigger] hexadecimal(n)[i] <= '9' || 'a' <= hexadecimal(n)[i] <= 'f' by {
            if i < hexadecimal(n / 16).len() {
                assert(hexadecimal(n)[i] == hexadecimal(n / 16)[i]);
            }
        }
    } else {
        assert(hexadecimal(n).drop_last() =~= Seq::<char>::empty());
    }
    assert(hexadecimal(n)[0] != '+');
}

/// Reading back the decimal digits of a number gives the number.
pub proof fn lemma_decimal_reads_back(n: nat)
    ensures
        digits_value(decimal(n), 10) == Some(n),
        unsigned_value(decimal(n), 10) == Some(n),
        decimal(n).len() > 0,
        forall|i: int| 0 <= i < decimal(n).len() ==> '0' <= #[trigger] decimal(n)[i] <= '9',
    decreases n,
{
    reveal_with_fuel(digits_value, 2);
    if n >= 10 {
        lemma_decimal_reads_back(n / 10);
        assert(decimal(n).drop_last() =~= decimal(n / 10));
        assert forall|i: int| 0 <= i < decimal(n).len() implies '0' <= #[trigger] decimal(n)[i]
            <= '9' by {
            if i < decimal(n / 10).len() {
                assert(decimal(n)[i] == decimal(n / 10)[i]);
            }
        }
    } else {
        assert(decimal(n).drop_last() =~= Seq::<char>::empty());
    }
    assert(decimal(n)[0] != '+');
}

// ---------------------------------------------------------------------------
// Dotted IPv4 addresses
// ---------------------------------------------------------------------------

/// One part of a dotted address: a decimal number up to 255 of at most three
/// digits, with no needless leading zero.
pub open spec fn is_octet(s: Seq<char>) -> bool {
    &&& 1 <= s.len() <= 3
    &&& s.len() > 1 ==> s[0] != '0'
    &&& match digits_value(s, 10) {
        Some(v) => v <= 255,
        None => false,
    }
}

/// A dotted IPv4 address: four octets with a full stop between two of them.
pub open spec fn is_dotted_quad(s: Seq<char>) -> bool {
    let parts = text::pieces(s, '.');
    parts.len() == 4 && forall|i: int| 0 <= i < 4 ==> is_octet(#[trigger] parts[i])
}

/// Whether the text is one octet of a dotted address.
fn check_octet(cs: &[char]) -> (r: bool)
    ensures
        r == is_octet(cs@),
{
    if cs.len() == 0 || cs.len() > 3 || (cs.len() > 1 && cs[0] == '0') {
        return false;
    }
    if cs[0] == '+' {
        proof {
            assert(digits_value(cs@.take(1), 10) is None) by {
                assert(cs@.take(1).last() == '+');
            }
            lemma_bad_prefix(cs@, 1, 10);
        }
        return false;
    }
    parse_unsigned(cs, 10, 255).is_some()
}

/// Whether the text is a dotted IPv4 address.
pub fn check_dotted_quad(cs: &[char]) -> (r: bool)
    ensures
        r == is_dotted_quad(cs@),
{
    let parts = text::split(cs, '.');
    proof {
        assert(text::char_views(parts@).len() == parts@.len());
    }
    if parts.len() != 4 {
        return false;
    }
    let mut i: usize = 0;
    while i < 4
        invariant
            i <= 4,
            parts@.len() == 4,
            text::char_views(parts@) == text::pieces(cs@, '.'),
            forall|k: int| 0 <= k < i ==> is_octet(#[trigger] text::pieces(cs@, '.')[k]),
        decreases 4 - i,
    {
        let ok: bool = check_octet(parts[i].as_slice());
        proof {
            assert(text::pieces(cs@, '.')[i as int] == parts@[i as int]@);
        }
        if !ok {
            return false;
        }
        i = i + 1;
    }
    true
}

/// Four bytes as a dotted address.
pub open spec fn dotted(b: Seq<u8>) -> Seq<char> {
    decimal(b[0] as nat) + seq!['.'] + (decimal(b[1] as nat) + seq!['.'] + (
    decimal(b[2] as nat) + seq!['.'] + decimal(b[3] as nat)))
}

/// A dotted address is not empty.
pub proof fn lemma_quad_is_not_empty(s: Seq<char>)
    ensures
        is_dotted_quad(s) ==> s.len() > 0,
{
    if s.len() == 0 {
        text::lemma_one_piece(s, '.');
    }
}

/// The dotted addresses are just the texts of four bytes: their numbers
/// without leading zeros, with a full stop between two of them.
pub proof fn law_dotted_quads_are_four_bytes(s: Seq<char>)
    ensures
        is_dotted_quad(s) <==> exists|b: Seq<u8>| b.len() == 4 && s == #[trigger] dotted(b),
{
    if is_dotted_quad(s) {
        let parts = text::pieces(s, '.');
        let v = |i: int| digits_value(parts[i], 10)->0;
        let b = seq![v(0) as u8, v(1) as u8, v(2) as u8, v(3) as u8];
        assert forall|i: int| 0 <= i < 4 implies parts[i] == decimal(#[trigger] b[i] as nat) by {
            assert(is_octet(parts[i]));
            lemma_digits_are_decimal(parts[i]);
        }
        lemma_dotted_pieces(b);
        assert(parts =~= text::pieces(dotted(b), '.'));
        text::law_pieces_join_back(s, '.');
        text::law_pieces_join_back(dotted(b), '.');
        assert(s == dotted(b));
    }
    if exists|b: Seq<u8>| b.len() == 4 && s == #[trigger] dotted(b) {
        let b = choose|b: Seq<u8>| b.len() == 4 && s == #[trigger] dotted(b);
        lemma_dotted_pieces(b);
        let parts = text::pieces(s, '.');
        assert forall|i: int| 0 <= i < 4 implies is_octet(#[trigger] parts[i]) by {
            lemma_decimal_reads_back(b[i] as nat);
            lemma_octet_text(b[i] as nat);
        }
    }
}

/// A dotted address holds digits and full stops only, and begins and ends with
/// a digit.
pub proof fn lemma_quad_characters(s: Seq<char>)
    requires
        is_dotted_quad(s),
    ensures
        s.len() > 0,
        '0' <= s[0] <= '9',
        '0' <= s.last() <= '9',
        forall|i: int| 0 <= i < s.len() ==> '0' <= #[trigger] s[i] <= '9' || s[i] == '.',
{
    law_dotted_quads_are_four_bytes(s);
    let b = choose|b: Seq<u8>| b.len() == 4 && s == #[trigger] dotted(b);
    lemma_decimal_reads_back(b[0] as nat);
    lemma_decimal_reads_back(b[1] as nat);
    lemma_decimal_reads_back(b[2] as nat);
    lemma_decimal_reads_back(b[3] as nat);
    assert(s[0] == decimal(b[0] as nat)[0]);
    assert(s.last() == decimal(b[3] as nat).last());
}

/// A number up to 255 is written in at most three digits, without a leading
/// zero.
proof fn lemma_octet_text(n: nat)
    requires
        n <= 255,
    ensures
        1 <= decimal(n).len() <= 3,
        decimal(n).len() > 1 ==> decimal(n)[0] != '0',
{
    reveal_with_fuel(decimal, 4);
    if n >= 10 {
        assert(1 <= n / 10 <= 25);
        if n >= 100 {
            assert(1 <= n / 10 / 10 <= 2);
        }
    }
}

/// Digits without a leading zero are the decimal digits of their value.
proof fn lemma_digits_are_decimal(s: Seq<char>)
    requires
        digits_value(s, 10) is Some,
        s.len() > 0,
        s.len() > 1 ==> s[0] != '0',
    ensures
        decimal(digits_value(s, 10)->0) == s,
        s[0] != '0' ==> digits_value(s, 10)->0 > 0,
    decreases s.len(),
{
    let n = digits_value(s, 10)->0;
    let d = digit(s.last())->0;
    assert(digit_char(d) == s.last());
    if s.len() == 1 {
        reveal_with_fuel(digits_value, 2);
        assert(s.drop_last() =~= Seq::empty());
        assert(n == d);
        assert(decimal(n) =~= s);
    } else {
        lemma_digits_are_decimal(s.drop_last());
        let m = digits_value(s.drop_last(), 10)->0;
        assert(s.drop_last()[0] == s[0]);
        assert(n == m * 10 + d && m > 0);
        assert(n / 10 == m && n % 10 == d);
        assert(decimal(m).push(digit_char(d)) =~= s);
    }
}

/// The pieces of a dotted address are its four numbers.
pub proof fn lemma_dotted_pieces(b: Seq<u8>)
    ensures
        text::pieces(dotted(b), '.') == seq![
            decimal(b[0] as nat),
            decimal(b[1] as nat),
            decimal(b[2] as nat),
            decimal(b[3] as nat),
        ],
{
    let d = |i: int| decimal(b[i] as nat);
    assert forall|i: int| !(#[trigger] d(i)).contains('.') by {
        lemma_decimal_reads_back(b[i] as nat);
    }
    let tail2 = d(2) + seq!['.'] + d(3);
    let tail1 = d(1) + seq!['.'] + tail2;
    text::lemma_one_piece(d(3), '.');
    text::lemma_piece_before(d(2), '.', d(3));
    text::lemma_piece_before(d(1), '.', tail2);
    text::lemma_piece_before(d(0), '.', tail1);
    assert(text::pieces(dotted(b), '.') =~= seq![d(0), d(1), d(2), d(3)]);
}

/// A number is read from its digits, with or without a plus sign in front, up
/// to the largest that is allowed; a text with anything else in it is none.
pub proof fn law_numbers_are_bounded(n: nat, max: nat, s: Seq<char>, i: int)
    ensures
        bounded_value(decimal(n), 10, max) == if n <= max {
            Some(n)
        } else {
            None
        },
        bounded_value(seq!['+'] + decimal(n), 10, max) == bounded_value(decimal(n), 10, max),
        bounded_value(Seq::empty(), 10, max) is None,
        0 < i < s.len() && !('0' <= s[i] <= '9') ==> bounded_value(s, 10, max) is None,
        s.len() > 0 && s[0] != '+' && !('0' <= s[0] <= '9') ==> bounded_value(s, 10, max) is None,
{
    lemma_decimal_reads_back(n);
    let plus = seq!['+'] + decimal(n);
    assert(plus.skip(1) =~= decimal(n));
    assert(decimal(n)[0] != '+');
    let digits = unsigned_digits(s);
    if 0 < i < s.len() && !('0' <= s[i] <= '9') {
        let at = if s[0] == '+' {
            i - 1
        } else {
            i
        };
        assert(digits[at] == s[i]);
        lemma_no_digit(digits, at);
    }
    if s.len() > 0 && s[0] != '+' && !('0' <= s[0] <= '9') {
        lemma_no_digit(s, 0);
    }
}

/// A text with something that is no digit spells no number.
proof fn lemma_no_digit(s: Seq<char>, i: int)
    requires
        0 <= i < s.len(),
        !('0' <= s[i] <= '9'),
    ensures
        digits_value(s, 10) is None,
    decreases s.len(),
{
    if i < s.len() - 1 {
        assert(s.drop_last()[i] == s[i]);
        lemma_no_digit(s.drop_last(), i);
    }
}

} // verus!

//! Numbers and bytes as text, and back.
use vstd::prelude::*;

verus! {

/// The digits, in order of value.
pub open spec fn digits() -> Seq<char> {
    "0123456789abcdef"@
}

/// `n` in decimal digits.
pub open spec fn decimal(n: nat) -> Seq<char>
    decreases n,
{
    if n < 10 {
        seq![digits()[n as int]]
    } else {
        decimal(n / 10).push(digits()[(n % 10) as int])
    }
}

/// `bytes` in lower case hexadecimal digits, two to a byte.
pub open spec fn hex(bytes: Seq<u8>) -> Seq<char> {
    Seq::new(
        2 * bytes.len(),
        |i: int|
            if i % 2 == 0 {
                digits()[(bytes[i / 2] / 16) as int]
            } else {
                digits()[(bytes[i / 2] % 16) as int]
            },
    )
}

/// A hash as it is shown to people: `0x` and its digits.
pub open spec fn shown_hash(bytes: Seq<u8>) -> Seq<char> {
    "0x"@ + hex(bytes)
}

/// The digit of value `value`, as a text of its own.
fn digit_text(value: usize) -> (r: &'static str)
    requires
        value < 16,
    ensures
        r@ == seq![digits()[value as int]],
{
    let all = "0123456789abcdef";
    proof {
        reveal_strlit("0123456789abcdef");
    }
    let r = all.substring_char(value, value + 1);
    assert(r@ =~= seq![digits()[value as int]]);
    r
}

/// `n` in decimal digits.
pub fn decimal_text(n: u64) -> (r: String)
    ensures
        r@ == decimal(n as nat),
    decreases n,
{
    if n < 10 {
        digit_text(n as usize).to_owned()
    } else {
        let mut r = decimal_text(n / 10);
        let ghost front = r@;
        r.append(digit_text((n % 10) as usize));
        assert(r@ =~= front.push(digits()[(n % 10) as int]));
        r
    }
}

/// `bytes` in lower case hexadecimal digits.
pub fn hex_text(bytes: &[u8]) -> (r: String)
    ensures
        r@ == hex(bytes@),
{
    let mut r = String::new();
    let mut i: usize = 0;
    while i < bytes.len()
        invariant
            i <= bytes@.len(),
            r@ =~= hex(bytes@.take(i as int)),
        decreases bytes@.len() - i,
    {
        let ghost front = r@;
        r.append(digit_text((bytes[i] / 16) as usize));
        r.append(digit_text((bytes[i] % 16) as usize));
        proof {
            let next = bytes@.take(i + 1);
            assert(r@.len() == hex(next).len());
            assert forall|k: int| 0 <= k < r@.len() implies r@[k] == hex(next)[k] by {
                if k < front.len() {
                    assert(bytes@.take(i as int)[k / 2] == next[k / 2]);
                } else {
                    assert(k / 2 == i);
                }
            }
            assert(r@ =~= hex(next));
        }
        i += 1;
    }
    assert(bytes@.take(bytes@.len() as int) =~= bytes@);
    r
}

/// A hash as it is shown to people.
pub fn shown_hash_text(bytes: &[u8]) -> (r: String)
    ensures
        r@ == shown_hash(bytes@),
{
    let mut r = "0x".to_owned();
    r.append(hex_text(bytes).as_str());
    r
}

/// `front` with `back` behind it.
pub fn joined(front: &str, back: &str) -> (r: String)
    ensures
        r@ == front@ + back@,
{
    let mut r = front.to_owned();
    r.append(back);
    r
}

/// Whether two texts are the same.
pub fn same_text(a: &str, b: &str) -> (r: bool)
    ensures
        r == (a@ == b@),
{
    a.to_owned() == b.to_owned()
}

/// Whether every character of `text` is a decimal digit.
pub open spec fn all_digits(text: Seq<char>) -> bool {
    forall|i: int| 0 <= i < text.len() ==> '0' <= (#[trigger] text[i]) <= '9'
}

/// The number that decimal digits stand for.
pub open spec fn number(text: Seq<char>) -> nat
    decreases text.len(),
{
    if text.len() == 0 {
        0
    } else {
        (10 * number(text.drop_last()) + (text.last() as int - '0' as int)) as nat
    }
}

/// The digits of a number that may have a plus sign in front.
pub open spec fn unsigned_part(text: Seq<char>) -> Seq<char> {
    if text.len() > 0 && text[0] == '+' {
        text.drop_first()
    } else {
        text
    }
}

/// Whether `text` is a number that fits in 64 bits: decimal digits, at least one, with or
/// without a plus sign in front.
pub open spec fn is_u64_text(text: Seq<char>) -> bool {
    let part = unsigned_part(text);
    part.len() > 0 && all_digits(part) && number(part) <= u64::MAX
}

/// More digits make no smaller number.
proof fn lemma_number_grows(text: Seq<char>, from: int)
    requires
        0 <= from <= text.len(),
        all_digits(text),
    ensures
        number(text.take(from)) <= number(text),
    decreases text.len() - from,
{
    if from < text.len() {
        assert(all_digits(text.drop_last())) by {
            assert forall|i: int| 0 <= i < text.drop_last().len() implies '0' <= (
            #[trigger] text.drop_last()[i]) <= '9' by {
                assert(text.drop_last()[i] == text[i]);
            }
        }
        lemma_number_grows(text.drop_last(), from);
        assert(text.drop_last().take(from) =~= text.take(from));
    } else {
        assert(text.take(from) =~= text);
    }
}

/// Reads a number of at most 64 bits.
pub fn parse_u64(text: &str) -> (r: Option<u64>)
    ensures
        r is Some == is_u64_text(text@),
        r is Some ==> r->0 == number(unsigned_part(text@)),
{
    let len: usize = text.unicode_len();
    let start: usize = if len > 0 && text.get_char(0) == '+' {
        1
    } else {
        0
    };
    let ghost part = unsigned_part(text@);
    assert(part =~= text@.skip(start as int));
    if start == len {
        return None;
    }
    let mut value: u64 = 0;
    let mut i: usize = start;
    assert(part.take(0).len() == 0);
    while i < len
        invariant
            start <= i <= len,
            len == text@.len(),
            part == text@.skip(start as int),
            part == unsigned_part(text@),
            all_digits(part.take(i - start)),
            value == number(part.take(i - start)),
        decreases len - i,
    {
        let c = text.get_char(i);
        assert(part[i - start] == c);
        if c < '0' || c > '9' {
            assert(!all_digits(part));
            return None;
        }
        let digit: u64 = (c as u32 - '0' as u32) as u64;
        proof {
            let longer = part.take(i - start + 1);
            assert(longer.drop_last() =~= part.take(i - start));
            assert(longer.last() == c);
            assert forall|k: int| 0 <= k < longer.len() implies '0' <= (#[trigger] longer[k])
                <= '9' by {
                if k < i - start {
                    assert(part.take(i - start)[k] == longer[k]);
                }
            }
            assert(number(longer) == 10 * value + digit);
            if all_digits(part) {
                lemma_number_grows(part, i - start + 1);
            }
        }
        if value > (u64::MAX - digit) / 10 {
            return None;
        }
        value = value * 10 + digit;
        i += 1;
    }
    assert(part.take(len - start) =~= part);
    Some(value)
}

/// The digit of a value below 16: one of `0` to `9`, then one of `a` to `f`.
proof fn lemma_digit(value: int)
    requires
        0 <= value < 16,
    ensures
        digits()[value] as int == (if value < 10 {
            '0' as int + value
        } else {
            'a' as int + value - 10
        }),
{
    reveal_strlit("0123456789abcdef");
}

/// A number in decimal digits ends with its last digit, and what is before that is the number
/// without it. A single digit stands alone, so that there are no zeros in front.
pub proof fn law_decimal_digits(front: nat, last: nat)
    requires
        last < 10,
    ensures
        front > 0 ==> decimal(10 * front + last) == decimal(front).push(
            ('0' as int + last) as char,
        ),
        decimal(last) == seq![('0' as int + last) as char],
{
    lemma_digit(last as int);
    assert((10 * front + last) / 10 == front);
    assert((10 * front + last) % 10 == last);
}

/// The number that digits stand for: nothing stands for 0, and one digit more makes ten times as
/// much, and the digit.
pub proof fn law_number_of_digits(text: Seq<char>, digit: char)
    requires
        '0' <= digit <= '9',
    ensures
        number(Seq::empty()) == 0,
        number(text.push(digit)) == 10 * number(text) + (digit as int - '0' as int),
{
    assert(text.push(digit).drop_last() =~= text);
}

/// Which texts are numbers: digits, at least one, with or without one plus sign in front, that
/// stand for no more than fits.
pub proof fn law_number_texts(digits: Seq<char>)
    ensures
        all_digits(digits) <==> forall|i: int|
            0 <= i < digits.len() ==> '0' <= (#[trigger] digits[i]) <= '9',
        digits.len() > 0 && all_digits(digits) && number(digits) <= u64::MAX ==> is_u64_text(digits)
            && unsigned_part(digits) == digits && is_u64_text(seq!['+'] + digits) && unsigned_part(
            seq!['+'] + digits,
        ) == digits,
        is_u64_text(digits) ==> {
            ||| digits.len() > 0 && all_digits(digits) && number(digits) <= u64::MAX
            ||| digits.len() > 1 && digits[0] == '+' && all_digits(digits.drop_first()) && number(
                digits.drop_first(),
            ) <= u64::MAX
        },
{
    let signed = seq!['+'] + digits;
    assert(signed.drop_first() =~= digits);
    assert(signed[0] == '+');
    if digits.len() > 0 && all_digits(digits) {
        assert('0' <= digits[0] <= '9');
    }
}

/// A number is read back from its decimal digits.
pub proof fn law_decimal_roundtrip(n: nat)
    ensures
        decimal(n).len() > 0,
        all_digits(decimal(n)),
        number(decimal(n)) == n,
        n <= u64::MAX ==> is_u64_text(decimal(n)) && unsigned_part(decimal(n)) == decimal(n),
    decreases n,
{
    if n < 10 {
        lemma_digit(n as int);
        assert(decimal(n).drop_last() =~= Seq::empty());
        assert(number(Seq::empty()) == 0);
    } else {
        law_decimal_roundtrip(n / 10);
        lemma_digit((n % 10) as int);
        let front = decimal(n / 10);
        assert(decimal(n).drop_last() =~= front);
        assert forall|i: int| 0 <= i < decimal(n).len() implies '0' <= (#[trigger] decimal(n)[i])
            <= '9' by {
            if i < front.len() {
                assert(decimal(n)[i] == front[i]);
            }
        }
    }
    assert('0' <= decimal(n)[0] <= '9');
}

/// Bytes in hexadecimal digits: two for each byte, for its high and its low half.
pub proof fn law_hex_digits(bytes: Seq<u8>)
    ensures
        hex(bytes).len() == 2 * bytes.len(),
        forall|i: int|
            0 <= i < bytes.len() ==> hex(bytes)[2 * i] as int == (if (#[trigger] bytes[i]) / 16
                < 10 {
                '0' as int + bytes[i] / 16
            } else {
                'a' as int + bytes[i] / 16 - 10
            }),
        forall|i: int|
            0 <= i < bytes.len() ==> hex(bytes)[2 * i + 1] as int == (if (#[trigger] bytes[i]) % 16
                < 10 {
                '0' as int + bytes[i] % 16
            } else {
                'a' as int + bytes[i] % 16 - 10
            }),
        shown_hash(bytes) == seq!['0', 'x'] + hex(bytes),
{
    assert forall|i: int| 0 <= i < bytes.len() implies hex(bytes)[2 * i] as int == (if (
    #[trigger] bytes[i]) / 16 < 10 {
        '0' as int + bytes[i] / 16
    } else {
        'a' as int + bytes[i] / 16 - 10
    }) by {
        lemma_digit((bytes[i] / 16) as int);
        assert((2 * i) / 2 == i && (2 * i) % 2 == 0);
    }
    assert forall|i: int| 0 <= i < bytes.len() implies hex(bytes)[2 * i + 1] as int == (if (
    #[trigger] bytes[i]) % 16 < 10 {
        '0' as int + bytes[i] % 16
    } else {
        'a' as int + bytes[i] % 16 - 10
    }) by {
        lemma_digit((bytes[i] % 16) as int);
        assert((2 * i + 1) / 2 == i && (2 * i + 1) % 2 == 1);
    }
    reveal_strlit("0x");
    assert("0x"@ =~= seq!['0', 'x']);
}

} // verus!

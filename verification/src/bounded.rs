//! Text with a bound on its bytes, and numbers as text.

use crate::text::{digit_char, hex_digit};
use vstd::prelude::*;
use vstd::utf8::{encode_scalar, encode_utf8};

verus! {

/// The number of bytes that a text takes in UTF-8.
pub open spec fn byte_count(text: Seq<char>) -> int {
    encode_utf8(text).len() as int
}

/// The bytes of two texts in a row are the bytes of both, in a row.
pub proof fn lemma_encode_append(a: Seq<char>, b: Seq<char>)
    ensures
        encode_utf8(a + b) == encode_utf8(a) + encode_utf8(b),
        byte_count(a + b) == byte_count(a) + byte_count(b),
    decreases a.len(),
{
    if a.len() == 0 {
        assert(a + b =~= b);
        assert(encode_utf8(a) + encode_utf8(b) =~= encode_utf8(b));
    } else {
        let rest = a.drop_first();
        assert((a + b).drop_first() =~= rest + b);
        lemma_encode_append(rest, b);
        assert(encode_utf8(a + b) =~= encode_scalar(a[0] as u32) + (encode_utf8(rest) + encode_utf8(
            b,
        )));
        assert(encode_utf8(a) + encode_utf8(b) =~= encode_scalar(a[0] as u32) + (encode_utf8(rest)
            + encode_utf8(b)));
    }
}

/// One more character takes one to four more bytes.
pub proof fn lemma_encode_push(text: Seq<char>, c: char)
    ensures
        byte_count(text.push(c)) == byte_count(text) + encode_scalar(c as u32).len(),
        1 <= encode_scalar(c as u32).len() <= 4,
{
    let one = seq![c];
    assert(text.push(c) =~= text + one);
    lemma_encode_append(text, one);
    assert(one.drop_first() =~= Seq::<char>::empty());
    assert(encode_utf8(Seq::<char>::empty()) =~= Seq::<u8>::empty());
    assert(encode_utf8(one) =~= encode_scalar(c as u32) + encode_utf8(one.drop_first()));
}

/// A longer prefix takes at least as many bytes.
pub proof fn lemma_prefix_bytes(text: Seq<char>, m: int, n: int)
    requires
        0 <= m <= n <= text.len(),
    ensures
        0 <= byte_count(text.take(m)) <= byte_count(text.take(n)),
        byte_count(text.take(n)) <= byte_count(text),
{
    lemma_encode_append(text.take(m), text.subrange(m, n));
    assert(text.take(m) + text.subrange(m, n) =~= text.take(n));
    lemma_encode_append(text.take(n), text.skip(n));
    assert(text.take(n) + text.skip(n) =~= text);
}

/// The number of bytes that a text takes.
pub fn byte_len(text: &str) -> (count: usize)
    ensures
        count == byte_count(text@),
{
    text.as_bytes().len()
}

/// The number of bytes that a character takes.
pub fn char_bytes(c: char) -> (count: usize)
    ensures
        count == encode_scalar(c as u32).len(),
        1 <= count <= 4,
{
    let code: u32 = c as u32;
    proof {
        lemma_encode_push(seq![], c);
    }
    if code < 0x80 {
        1
    } else if code < 0x800 {
        2
    } else if code < 0x10000 {
        3
    } else {
        4
    }
}

/// The number of leading characters that fit in `limit` bytes.
pub open spec fn fitting(text: Seq<char>, limit: int) -> nat
    decreases text.len(),
{
    if text.len() == 0 || byte_count(text) <= limit {
        text.len()
    } else {
        fitting(text.drop_last(), limit)
    }
}

/// What fits is found where the next character no longer does.
pub proof fn lemma_fitting(text: Seq<char>, limit: int, n: int)
    requires
        0 <= n < text.len(),
        byte_count(text.take(n)) <= limit,
        byte_count(text.take(n + 1)) > limit,
    ensures
        fitting(text, limit) == n,
    decreases text.len(),
{
    lemma_prefix_bytes(text, n + 1, text.len() as int);
    assert(text.take(text.len() as int) =~= text);
    let front = text.drop_last();
    if n + 1 == text.len() {
        assert(front =~= text.take(n));
        reveal_with_fuel(fitting, 2);
    } else {
        assert(front.take(n) =~= text.take(n));
        assert(front.take(n + 1) =~= text.take(n + 1));
        lemma_fitting(front, limit, n);
    }
}

/// Appends `value` where the result takes at most `limit` bytes, else nothing.
pub fn push_bounded(output: &mut String, value: &str, limit: usize) -> (pushed: bool)
    ensures
        pushed == (byte_count(old(output)@) + byte_count(value@) <= limit),
        final(output)@ == (if pushed {
            old(output)@ + value@
        } else {
            old(output)@
        }),
{
    let held: usize = byte_len(output.as_str());
    match held.checked_add(byte_len(value)) {
        Some(size) => if size <= limit {
            output.push_str(value);
            true
        } else {
            false
        },
        None => false,
    }
}

/// The decimal digits of a number, without leading zeros.
pub open spec fn decimal_text(n: int) -> Seq<char>
    decreases n,
{
    if n < 10 {
        seq![digit_char(n)]
    } else {
        decimal_text(n / 10).push(digit_char(n % 10))
    }
}

/// Writes a number in decimal.
pub fn decimal(n: u64) -> (text: String)
    ensures
        text@ == decimal_text(n as int),
    decreases n,
{
    let last: u8 = (n % 10) as u8;
    if n < 10 {
        let mut text = String::new();
        text.push(hex_digit(last));
        assert(text@ =~= seq![digit_char(n as int)]);
        text
    } else {
        let mut text = decimal(n / 10);
        text.push(hex_digit(last));
        text
    }
}

/// A number is read back from its decimal digits.
pub proof fn lemma_decimal_read_back(n: int)
    requires
        0 <= n,
    ensures
        crate::bencode::number_value(decimal_text(n)) == Some(n),
        crate::bencode::all_digits(decimal_text(n)),
        crate::bencode::digits_value(decimal_text(n)) == n,
        decimal_text(n).len() > 0,
    decreases n,
{
    let text = decimal_text(n);
    if n < 10 {
        assert(text.drop_last() =~= seq![]);
        reveal_with_fuel(crate::bencode::digits_value, 2);
    } else {
        let front = decimal_text(n / 10);
        lemma_decimal_read_back(n / 10);
        assert(text.drop_last() =~= front);
        assert forall|i: int| 0 <= i < text.len() implies '0' as int <= #[trigger] text[i] as int
            <= '9' as int by {
            if i < front.len() {
                assert(text[i] == front[i]);
            }
        }
        assert(text[0] == front[0]);
    }
    assert('0' as int <= text[0] as int <= '9' as int);
}

/// The last `width` hexadecimal digits of a number, with leading zeros.
pub open spec fn padded_hex(n: int, width: nat) -> Seq<char>
    decreases width,
{
    if width == 0 {
        seq![]
    } else {
        padded_hex(n / 16, (width - 1) as nat).push(digit_char(n % 16))
    }
}

/// Sixteen to the power of `width`.
pub open spec fn hex_range(width: nat) -> int
    decreases width,
{
    if width == 0 {
        1
    } else {
        16 * hex_range((width - 1) as nat)
    }
}

/// The value of a hexadecimal digit of either case.
pub open spec fn hex_digit_value(c: char) -> Option<int> {
    let code = c as int;
    if 48 <= code <= 57 {
        Some(code - 48)
    } else if 97 <= code <= 102 {
        Some(code - 87)
    } else if 65 <= code <= 70 {
        Some(code - 55)
    } else {
        None
    }
}

/// The number that a run of hexadecimal digits stands for; nothing where a character is none.
pub open spec fn hex_number(text: Seq<char>) -> Option<int>
    decreases text.len(),
{
    if text.len() == 0 {
        Some(0)
    } else {
        match (hex_number(text.drop_last()), hex_digit_value(text.last())) {
            (Some(n), Some(digit)) => Some(16 * n + digit),
            _ => None,
        }
    }
}

/// Writes the last `width` hexadecimal digits of a number.
pub fn write_hex(n: u128, width: usize) -> (text: String)
    ensures
        text@ == padded_hex(n as int, width as nat),
    decreases width,
{
    if width == 0 {
        String::new()
    } else {
        let mut text = write_hex(n / 16, width - 1);
        text.push(hex_digit((n % 16) as u8));
        text
    }
}

/// A number is read back from enough hexadecimal digits, each of which takes one byte.
pub proof fn lemma_hex_read_back(n: int, width: nat)
    requires
        0 <= n < hex_range(width),
    ensures
        hex_number(padded_hex(n, width)) == Some(n),
        padded_hex(n, width).len() == width,
        byte_count(padded_hex(n, width)) == width,
        forall|i: int|
            0 <= i < width ==> hex_digit_value(#[trigger] padded_hex(n, width)[i]) is Some,
    decreases width,
{
    let text = padded_hex(n, width);
    if width > 0 {
        let front = padded_hex(n / 16, (width - 1) as nat);
        lemma_hex_read_back(n / 16, (width - 1) as nat);
        assert(text.drop_last() =~= front);
        lemma_encode_push(front, digit_char(n % 16));
        assert(encode_scalar(digit_char(n % 16) as u32).len() == 1);
        assert forall|i: int| 0 <= i < width implies hex_digit_value(#[trigger] text[i]) is Some by {
            if i < width - 1 {
                assert(text[i] == front[i]);
            }
        }
    }
}

/// Reads one hexadecimal digit.
fn read_hex_digit(c: char) -> (digit: Option<u64>)
    ensures
        digit is Some == hex_digit_value(c) is Some,
        digit is Some ==> digit->0 == hex_digit_value(c)->0 && digit->0 < 16,
{
    let code: u32 = c as u32;
    if 48 <= code && code <= 57 {
        Some((code - 48) as u64)
    } else if 97 <= code && code <= 102 {
        Some((code - 87) as u64)
    } else if 65 <= code && code <= 70 {
        Some((code - 55) as u64)
    } else {
        None
    }
}

/// The number that a text of sixteen bytes stands for: hexadecimal digits, the first of which may
/// give way to a plus sign.
pub open spec fn cursor_number(text: Seq<char>) -> Option<int> {
    if byte_count(text) != 16 || text.len() == 0 {
        None
    } else if text[0] == '+' {
        hex_number(text.drop_first())
    } else {
        hex_number(text)
    }
}

/// A prefix without a number leaves none to the whole.
proof fn lemma_hex_failure(text: Seq<char>, n: int)
    requires
        0 <= n <= text.len(),
        hex_number(text.take(n)) is None,
    ensures
        hex_number(text) is None,
    decreases text.len(),
{
    if n == text.len() {
        assert(text.take(n) =~= text);
    } else {
        assert(text.drop_last().take(n) =~= text.take(n));
        lemma_hex_failure(text.drop_last(), n);
    }
}

/// A text takes at least one byte for each character.
pub proof fn lemma_bytes_cover(text: Seq<char>)
    ensures
        text.len() <= byte_count(text),
    decreases text.len(),
{
    if text.len() > 0 {
        lemma_bytes_cover(text.drop_last());
        lemma_encode_push(text.drop_last(), text.last());
        assert(text.drop_last().push(text.last()) =~= text);
    }
}

/// Reads a number of sixteen bytes.
pub fn read_cursor(text: &str) -> (number: Option<u64>)
    ensures
        number is Some == cursor_number(text@) is Some,
        number is Some ==> number->0 == cursor_number(text@)->0,
{
    if byte_len(text) != 16 {
        return None;
    }
    let ghost all = text@;
    proof {
        lemma_bytes_cover(all);
        if all.len() == 0 {
            assert(encode_utf8(all).len() == 0);
        }
    }
    let mut number: u64 = 0;
    let mut count: u32 = 0;
    let mut plus = false;
    for c in it: text.chars()
        invariant
            all == text@,
            it.seq() == all,
            0 < all.len() <= 16,
            byte_count(all) == 16,
            plus == (it.index() > 0 && all[0] == '+'),
            ({
                let start: int = if plus { 1 } else { 0 };
                let body = all.subrange(start, it.index() as int);
                &&& count == body.len()
                &&& hex_number(body) == Some(number as int)
                &&& number < hex_range(count as nat)
            }),
    {
        let ghost i = it.index() as int;
        assert(c == all[i]);
        if count == 0 && !plus && c == '+' {
            plus = true;
            assert(all.subrange(1, 1) =~= Seq::empty());
        } else {
            let ghost start: int = if plus { 1 } else { 0 };
            let ghost body = all.subrange(start, i);
            let ghost next = all.subrange(start, i + 1);
            assert(next.drop_last() =~= body);
            match read_hex_digit(c) {
                None => {
                    proof {
                        let whole = if plus { all.drop_first() } else { all };
                        assert(whole.take(i + 1 - start) =~= next);
                        lemma_hex_failure(whole, i + 1 - start);
                    }
                    return None;
                },
                Some(digit) => {
                    proof {
                        lemma_hex_range(count as nat);
                    }
                    number = number * 16 + digit;
                    count += 1;
                },
            }
        }
    }
    proof {
        let start: int = if plus { 1 } else { 0 };
        assert(all.subrange(start, all.len() as int) =~= (if plus { all.drop_first() } else { all }));
    }
    Some(number)
}

/// Fifteen digits leave room for one more in 64 bits.
proof fn lemma_hex_range(width: nat)
    requires
        width < 16,
    ensures
        16 * hex_range(width) == hex_range(width + 1),
        hex_range(width + 1) <= 0x1_0000_0000_0000_0000,
    decreases 16 - width,
{
    if width < 15 {
        lemma_hex_range(width + 1);
    } else {
        reveal_with_fuel(hex_range, 17);
    }
}

/// Sixteen digits hold every number of 64 bits, so that a cursor is read back as it was written.
pub proof fn lemma_cursor_read_back(n: u64)
    ensures
        cursor_number(padded_hex(n as int, 16)) == Some(n as int),
{
    reveal_with_fuel(hex_range, 17);
    lemma_hex_read_back(n as int, 16);
    let text = padded_hex(n as int, 16);
    assert(hex_digit_value(text[0]) is Some);
}

/// A number in decimal is written digit by digit, the last one last, without a leading zero.
pub proof fn lemma_decimal_digits(n: int, digit: int)
    requires
        0 <= n,
        0 <= digit < 10,
    ensures
        decimal_text(digit) == seq!["0123456789"@[digit]],
        n > 0 ==> decimal_text(10 * n + digit) == decimal_text(n).push("0123456789"@[digit]),
{
    reveal_strlit("0123456789");
    if n > 0 {
        assert((10 * n + digit) / 10 == n && (10 * n + digit) % 10 == digit);
    }
}

/// A number in hexadecimal is written digit by digit in lower case, and read in either case.
pub proof fn lemma_hex_digits(n: int, width: nat, digit: int, text: Seq<char>, c: char)
    requires
        0 <= n,
        0 <= digit < 16,
    ensures
        padded_hex(n, 0).len() == 0,
        padded_hex(16 * n + digit, width + 1) == padded_hex(n, width).push(
            "0123456789abcdef"@[digit],
        ),
        hex_number(Seq::empty()) == Some(0int),
        hex_number(text) matches Some(high) ==> hex_number(text.push("0123456789abcdef"@[digit]))
            == Some(16 * high + digit) && hex_number(text.push("0123456789ABCDEF"@[digit])) == Some(
            16 * high + digit,
        ),
        hex_number(text) is None ==> hex_number(text.push(c)) is None,
        !("0123456789abcdef"@.contains(c) || "0123456789ABCDEF"@.contains(c)) ==> hex_number(
            text.push(c),
        ) is None,
{
    reveal_strlit("0123456789");
    reveal_strlit("0123456789abcdef");
    reveal_strlit("0123456789ABCDEF");
    assert((16 * n + digit) / 16 == n && (16 * n + digit) % 16 == digit);
    let low = "0123456789abcdef"@[digit];
    let high = "0123456789ABCDEF"@[digit];
    assert(text.push(low).drop_last() =~= text);
    assert(text.push(high).drop_last() =~= text);
    assert(text.push(c).drop_last() =~= text);
    if hex_digit_value(c) is Some {
        let d = hex_digit_value(c)->0;
        assert("0123456789abcdef"@[d] == c || "0123456789ABCDEF"@[d] == c);
    }
}

/// A cursor is a text of sixteen bytes that is a number in hexadecimal, perhaps behind a plus sign.
pub proof fn lemma_cursor_form(text: Seq<char>)
    ensures
        encode_utf8(text).len() != 16 ==> cursor_number(text) is None,
        encode_utf8(text).len() == 16 && text.len() > 0 && text[0] != '+' ==> cursor_number(text)
            == hex_number(text),
        encode_utf8(text).len() == 16 && text.len() > 0 && text[0] == '+' ==> cursor_number(text)
            == hex_number(text.subrange(1, text.len() as int)),
{
    if text.len() > 0 {
        assert(text.subrange(1, text.len() as int) =~= text.drop_first());
    }
}

/// The size of a text is the number of its bytes in UTF-8.
pub proof fn lemma_byte_count(text: Seq<char>)
    ensures
        byte_count(text) == encode_utf8(text).len(),
{
}

} // verus!

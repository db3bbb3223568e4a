//! Turning raw torrent bytes into text that is safe to show.

use vstd::prelude::*;

verus! {

/// `String::push` appends one character.
pub assume_specification[ String::push ](text: &mut String, c: char)
    ensures
        final(text)@ == old(text)@.push(c),
;

/// `String::push_str` appends all characters of the argument.
pub assume_specification[ String::push_str ](text: &mut String, tail: &str)
    ensures
        final(text)@ == old(text)@ + tail@,
;

/// What `String::from_utf8_lossy` makes of a byte string.
pub uninterp spec fn lossy_text(bytes: Seq<u8>) -> Seq<char>;

/// `String::from_utf8_lossy` depends on the bytes alone, and decodes valid UTF-8 unchanged. What
/// it puts in place of an invalid sequence is left to its name.
#[verifier::external_body]
fn decode_lossy(bytes: &[u8]) -> (text: String)
    ensures
        text@ == lossy_text(bytes@),
        vstd::utf8::valid_utf8(bytes@) ==> text@ == vstd::utf8::decode_utf8(bytes@),
{
    String::from_utf8_lossy(bytes).into_owned()
}

/// `std::str::from_utf8` succeeds on valid UTF-8, and on nothing else.
#[verifier::external_body]
pub(crate) fn is_utf8(bytes: &[u8]) -> (valid: bool)
    ensures
        valid == vstd::utf8::valid_utf8(bytes@),
{
    std::str::from_utf8(bytes).is_ok()
}

/// The lower case hexadecimal digit of a number below sixteen.
pub open spec fn digit_char(n: int) -> char {
    if n < 10 {
        (n + '0' as int) as char
    } else {
        (n - 10 + 'a' as int) as char
    }
}

/// Two lower case hexadecimal digits for each byte, the high half first.
pub open spec fn hex_text(bytes: Seq<u8>) -> Seq<char> {
    Seq::new(
        2 * bytes.len(),
        |i: int|
            if i % 2 == 0 {
                digit_char(bytes[i / 2] as int / 16)
            } else {
                digit_char(bytes[i / 2] as int % 16)
            },
    )
}

/// The hexadecimal digit of `n`.
pub fn hex_digit(n: u8) -> (c: char)
    requires
        n < 16,
    ensures
        c == digit_char(n as int),
{
    if n < 10 {
        (48u8 + n) as char
    } else {
        (87u8 + n) as char
    }
}

/// The lower case hexadecimal form of `bytes`.
pub fn hex(bytes: &[u8]) -> (text: String)
    ensures
        text@ == hex_text(bytes@),
{
    let mut text = String::new();
    for i in 0..bytes.len()
        invariant
            text@ == hex_text(bytes@.take(i as int)),
    {
        let byte: u8 = bytes[i];
        text.push(hex_digit(byte / 16));
        text.push(hex_digit(byte % 16));
        assert(text@ =~= hex_text(bytes@.take(i + 1)));
    }
    assert(bytes@.take(bytes.len() as int) =~= bytes@);
    text
}

/// The characters of the general category Cc: U+0000 to U+001F and U+007F to U+009F.
pub open spec fn is_control_char(c: char) -> bool {
    (c as int) < 0x20 || 0x7f <= (c as int) < 0xa0
}

/// `\u{..}` with the code point in hexadecimal, without leading zeros. Every control character
/// has at most two digits.
pub open spec fn escape_control(c: char) -> Seq<char> {
    let code = c as int;
    let digits = if code < 16 {
        seq![digit_char(code)]
    } else {
        seq![digit_char(code / 16), digit_char(code % 16)]
    };
    seq!['\\', 'u', '{'] + digits + seq!['}']
}

/// The text with every control character escaped.
pub open spec fn escape_text(text: Seq<char>) -> Seq<char>
    decreases text.len(),
{
    if text.len() == 0 {
        seq![]
    } else if is_control_char(text.last()) {
        escape_text(text.drop_last()) + escape_control(text.last())
    } else {
        escape_text(text.drop_last()).push(text.last())
    }
}

/// The text shown for a raw byte string.
pub open spec fn display_text(bytes: Seq<u8>) -> Seq<char> {
    escape_text(lossy_text(bytes))
}

/// Appends `c`, escaped where it is a control character.
fn push_shown(text: &mut String, c: char)
    ensures
        final(text)@ == old(text)@ + (if is_control_char(c) {
            escape_control(c)
        } else {
            seq![c]
        }),
{
    let code: u32 = c as u32;
    if code < 0x20 || (0x7f <= code && code < 0xa0) {
        let high: u8 = (code / 16) as u8;
        let low: u8 = (code % 16) as u8;
        text.push('\\');
        text.push('u');
        text.push('{');
        if high > 0 {
            text.push(hex_digit(high));
        }
        text.push(hex_digit(low));
        text.push('}');
        assert(text@ =~= old(text)@ + escape_control(c));
    } else {
        text.push(c);
        assert(text@ =~= old(text)@ + seq![c]);
    }
}

/// Whether no character of a text is a control character.
pub open spec fn is_plain(text: Seq<char>) -> bool {
    forall|i: int| 0 <= i < text.len() ==> !is_control_char(#[trigger] text[i])
}

/// A text without control characters is shown as it is.
pub proof fn lemma_plain_unchanged(text: Seq<char>)
    requires
        is_plain(text),
    ensures
        escape_text(text) == text,
    decreases text.len(),
{
    if text.len() > 0 {
        let rest = text.drop_last();
        assert forall|i: int| 0 <= i < rest.len() implies !is_control_char(#[trigger] rest[i]) by {
            assert(rest[i] == text[i]);
        }
        lemma_plain_unchanged(rest);
        assert(!is_control_char(text[text.len() - 1]));
        assert(rest.push(text.last()) =~= text);
    } else {
        assert(escape_text(text) =~= text);
    }
}

/// A hexadecimal digit is no control character.
proof fn lemma_digit_is_plain(n: int)
    requires
        0 <= n < 16,
    ensures
        !is_control_char(digit_char(n)),
{
}

/// A control character is escaped by characters that are none.
proof fn lemma_escape_is_plain(c: char)
    requires
        is_control_char(c),
    ensures
        is_plain(escape_control(c)),
{
    let code = c as int;
    let shown = escape_control(c);
    if code < 16 {
        lemma_digit_is_plain(code);
        assert(shown =~= seq!['\\', 'u', '{', digit_char(code), '}']);
    } else {
        lemma_digit_is_plain(code / 16);
        lemma_digit_is_plain(code % 16);
        assert(shown =~= seq![
            '\\',
            'u',
            '{',
            digit_char(code / 16),
            digit_char(code % 16),
            '}',
        ]);
    }
}

/// No control character is left in an escaped text.
pub proof fn lemma_escaped_is_plain(text: Seq<char>)
    ensures
        is_plain(escape_text(text)),
    decreases text.len(),
{
    if text.len() > 0 {
        let before = escape_text(text.drop_last());
        let last = text.last();
        lemma_escaped_is_plain(text.drop_last());
        let tail = if is_control_char(last) {
            escape_control(last)
        } else {
            seq![last]
        };
        assert(escape_text(text) =~= before + tail);
        if is_control_char(last) {
            lemma_escape_is_plain(last);
        }
        assert forall|i: int| 0 <= i < (before + tail).len() implies !is_control_char(
            #[trigger] (before + tail)[i],
        ) by {
            if i < before.len() {
                assert((before + tail)[i] == before[i]);
            } else {
                assert((before + tail)[i] == tail[i - before.len()]);
            }
        }
    }
}

/// The text with every control character escaped.
pub fn escape(text: &str) -> (shown: String)
    ensures
        shown@ == escape_text(text@),
{
    let mut shown = String::new();
    for c in it: text.chars()
        invariant
            it.seq() == text@,
            shown@ == escape_text(text@.take(it.index() as int)),
    {
        let ghost before = shown@;
        proof {
            let next = text@.take(it.index() + 1);
            assert(next.drop_last() =~= text@.take(it.index() as int));
            assert(next.last() == c);
        }
        push_shown(&mut shown, c);
        assert(before + seq![c] =~= before.push(c));
    }
    assert(text@.take(text@.len() as int) =~= text@);
    shown
}

/// Shows a raw byte string: invalid UTF-8 is replaced, which the flag reports, and control
/// characters are escaped. Valid UTF-8 without control characters is shown as it is.
pub fn display(bytes: &[u8]) -> (shown: (String, bool))
    ensures
        shown.0@ == display_text(bytes@),
        shown.1 == !vstd::utf8::valid_utf8(bytes@),
        vstd::utf8::valid_utf8(bytes@) ==> shown.0@ == escape_text(
            vstd::utf8::decode_utf8(bytes@),
        ),
        vstd::utf8::valid_utf8(bytes@) && is_plain(vstd::utf8::decode_utf8(bytes@)) ==> shown.0@
            == vstd::utf8::decode_utf8(bytes@),
        is_plain(shown.0@),
{
    let lossy = !is_utf8(bytes);
    let raw = decode_lossy(bytes);
    let text = escape(raw.as_str());
    proof {
        lemma_escaped_is_plain(raw@);
        if is_plain(raw@) {
            lemma_plain_unchanged(raw@);
        }
    }
    (text, lossy)
}

/// The parts shown one after the other, with a slash between two.
pub open spec fn joined_text(parts: Seq<Seq<u8>>) -> Seq<char>
    decreases parts.len(),
{
    if parts.len() == 0 {
        seq![]
    } else if parts.len() == 1 {
        display_text(parts[0])
    } else {
        joined_text(parts.drop_last()).push('/') + display_text(parts.last())
    }
}

/// The text of parts that are valid UTF-8, with a slash between two.
pub open spec fn joined_utf8(parts: Seq<Seq<u8>>) -> Seq<char>
    decreases parts.len(),
{
    if parts.len() == 0 {
        seq![]
    } else if parts.len() == 1 {
        escape_text(vstd::utf8::decode_utf8(parts[0]))
    } else {
        joined_utf8(parts.drop_last()).push('/') + escape_text(
            vstd::utf8::decode_utf8(parts.last()),
        )
    }
}

/// Whether some part is not valid UTF-8.
pub open spec fn any_lossy(parts: Seq<Seq<u8>>) -> bool {
    exists|i: int| 0 <= i < parts.len() && !vstd::utf8::valid_utf8(#[trigger] parts[i])
}

/// The raw parts of a path, without their containers.
pub open spec fn parts_view(parts: Seq<Vec<u8>>) -> Seq<Seq<u8>> {
    parts.map_values(|part: Vec<u8>| part@)
}

/// Shows a path: its parts joined by slashes, and whether any of them was lossy.
pub fn display_path(parts: &[Vec<u8>]) -> (shown: (String, bool))
    ensures
        shown.0@ == joined_text(parts_view(parts@)),
        shown.1 == any_lossy(parts_view(parts@)),
        !any_lossy(parts_view(parts@)) ==> shown.0@ == joined_utf8(parts_view(parts@)),
{
    let mut text = String::new();
    let mut lossy = false;
    let ghost all = parts_view(parts@);
    for i in 0..parts.len()
        invariant
            all == parts_view(parts@),
            text@ == joined_text(all.take(i as int)),
            lossy == any_lossy(all.take(i as int)),
            !lossy ==> text@ == joined_utf8(all.take(i as int)),
    {
        let ghost next = all.take(i + 1);
        proof {
            assert(next.drop_last() =~= all.take(i as int));
            assert(next.last() == parts@[i as int]@);
        }
        if i > 0 {
            text.push('/');
        }
        let (shown, bad) = display(parts[i].as_slice());
        let ghost before = text@;
        text.push_str(shown.as_str());
        proof {
            if i == 0 {
                assert(text@ =~= display_text(next[0]));
                assert(text@ =~= shown@);
            }
            assert(forall|k: int| 0 <= k < i ==> all.take(i as int)[k] == #[trigger] next[k]);
            if any_lossy(next) && !bad {
                let k = choose|k: int| 0 <= k < next.len() && !vstd::utf8::valid_utf8(#[trigger] next[k]);
                assert(!vstd::utf8::valid_utf8(all.take(i as int)[k]));
            }
            if bad {
                assert(!vstd::utf8::valid_utf8(next[i as int]));
            }
        }
        lossy = lossy || bad;
    }
    assert(all.take(all.len() as int) =~= all);
    (text, lossy)
}

/// A text of bytes in hexadecimal spells each byte by two digits of the lower case alphabet, the
/// higher one first, and two byte strings share it only where they are equal.
pub proof fn lemma_hex_spells(bytes: Seq<u8>, other: Seq<u8>)
    ensures
        hex_text(bytes).len() == 2 * bytes.len(),
        forall|i: int|
            0 <= i < bytes.len() ==> {
                &&& hex_text(bytes)[2 * i] == "0123456789abcdef"@[(#[trigger] bytes[i]) as int / 16]
                &&& hex_text(bytes)[2 * i + 1] == "0123456789abcdef"@[bytes[i] as int % 16]
            },
        hex_text(bytes) == hex_text(other) ==> bytes == other,
{
    reveal_strlit("0123456789abcdef");
    let text = hex_text(bytes);
    let twin = hex_text(other);
    assert forall|i: int| 0 <= i < bytes.len() implies {
        &&& text[2 * i] == "0123456789abcdef"@[(#[trigger] bytes[i]) as int / 16]
        &&& text[2 * i + 1] == "0123456789abcdef"@[bytes[i] as int % 16]
    } by {
        assert((2 * i) / 2 == i && (2 * i + 1) / 2 == i);
        assert((2 * i) % 2 == 0 && (2 * i + 1) % 2 == 1);
    }
    if text == twin {
        assert(text.len() == twin.len());
        assert forall|i: int| 0 <= i < bytes.len() implies bytes[i] == other[i] by {
            let (a, b) = (bytes[i] as int, other[i] as int);
            assert((2 * i) / 2 == i && (2 * i + 1) / 2 == i);
            assert((2 * i) % 2 == 0 && (2 * i + 1) % 2 == 1);
            assert(twin[2 * i] == digit_char(b / 16) && twin[2 * i + 1] == digit_char(b % 16));
            assert(text[2 * i] == digit_char(a / 16) && text[2 * i + 1] == digit_char(a % 16));
            assert(a / 16 == b / 16 && a % 16 == b % 16);
        }
        assert(bytes =~= other);
    }
}

/// A text is escaped character by character. A control character, below a space or from the
/// delete character to before the no-break space, becomes its number in hexadecimal between
/// `\u{` and `}`, without leading zeros; any other character stands as it is.
pub proof fn lemma_escaped(text: Seq<char>, c: char)
    ensures
        escape_text(Seq::empty()).len() == 0,
        (c as int) < 0x10 ==> escape_text(text.push(c)) == escape_text(text) + seq![
            '\\',
            'u',
            '{',
            "0123456789abcdef"@[c as int],
            '}',
        ],
        (0x10 <= c as int) && ((c as int) < ' ' as int || (0x7f <= c as int && (c as int) < 0xa0))
            ==> escape_text(text.push(c)) == escape_text(text) + seq![
            '\\',
            'u',
            '{',
            "0123456789abcdef"@[c as int / 16],
            "0123456789abcdef"@[c as int % 16],
            '}',
        ],
        (c as int) >= 0xa0 || (' ' as int <= c as int && (c as int) < 0x7f) ==> escape_text(
            text.push(c),
        ) == escape_text(text).push(c),
{
    reveal_strlit("0123456789abcdef");
    assert(text.push(c).drop_last() =~= text);
    let code = c as int;
    if code < 16 {
        assert(escape_control(c) =~= seq!['\\', 'u', '{', digit_char(code), '}']);
    } else if code < 256 {
        assert(escape_control(c) =~= seq![
            '\\',
            'u',
            '{',
            digit_char(code / 16),
            digit_char(code % 16),
            '}',
        ]);
    }
}

/// The parts of a path are shown one after the other with a slash between two of them, and a path
/// is lossy where one of its parts is not valid UTF-8.
pub proof fn lemma_joined(parts: Seq<Seq<u8>>, part: Seq<u8>)
    ensures
        joined_text(Seq::empty()).len() == 0,
        joined_text(seq![part]) == escape_text(lossy_text(part)),
        parts.len() > 0 ==> joined_text(parts.push(part)) == joined_text(parts).push('/')
            + escape_text(lossy_text(part)),
        joined_utf8(Seq::empty()).len() == 0,
        joined_utf8(seq![part]) == escape_text(vstd::utf8::decode_utf8(part)),
        parts.len() > 0 ==> joined_utf8(parts.push(part)) == joined_utf8(parts).push('/')
            + escape_text(vstd::utf8::decode_utf8(part)),
        !any_lossy(Seq::empty()),
        any_lossy(parts.push(part)) == (any_lossy(parts) || !vstd::utf8::valid_utf8(part)),
{
    let all = parts.push(part);
    assert(all.drop_last() =~= parts);
    assert(all[parts.len() as int] == part);
    assert forall|i: int| 0 <= i < parts.len() implies parts[i] == #[trigger] all[i] by {}
    if any_lossy(parts) {
        let k = choose|k: int| 0 <= k < parts.len() && !vstd::utf8::valid_utf8(#[trigger] parts[k]);
        assert(!vstd::utf8::valid_utf8(all[k]));
    }
    if any_lossy(all) {
        let k = choose|k: int| 0 <= k < all.len() && !vstd::utf8::valid_utf8(#[trigger] all[k]);
        if k < parts.len() {
            assert(!vstd::utf8::valid_utf8(parts[k]));
        }
    }
}

/// The parts of a path are taken over one by one.
pub proof fn lemma_parts(parts: Seq<Vec<u8>>)
    ensures
        parts_view(parts).len() == parts.len(),
        forall|i: int| 0 <= i < parts.len() ==> parts_view(parts)[i] == (#[trigger] parts[i])@,
{
}

} // verus!

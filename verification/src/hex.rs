//! Hexadecimal notation of bytes.

use vstd::prelude::*;

use crate::text::chars_of;

verus! {

/// The lower-case hexadecimal digit of value `nibble`.
pub open spec fn hex_digit(nibble: int) -> char {
    if nibble < 10 {
        (48 + nibble) as char
    } else {
        (87 + nibble) as char
    }
}

/// The value of a hexadecimal digit, in either case.
pub open spec fn hex_value(c: char) -> Option<int> {
    if '0' <= c <= '9' {
        Some(c as int - 48)
    } else if 'a' <= c <= 'f' {
        Some(c as int - 87)
    } else if 'A' <= c <= 'F' {
        Some(c as int - 55)
    } else {
        None
    }
}

/// Two lower-case hexadecimal digits for each byte.
pub open spec fn hex_text(bytes: Seq<u8>) -> Seq<char> {
    Seq::new(
        2 * bytes.len(),
        |i: int|
            if i % 2 == 0 {
                hex_digit(bytes[i / 2] as int / 16)
            } else {
                hex_digit(bytes[i / 2] as int % 16)
            },
    )
}

/// Whether `text` consists of pairs of hexadecimal digits.
pub open spec fn is_hex(text: Seq<char>) -> bool {
    text.len() % 2 == 0 && forall|i: int|
        0 <= i < text.len() ==> hex_value(#[trigger] text[i]) is Some
}

/// The bytes that pairs of hexadecimal digits write.
pub open spec fn hex_bytes(text: Seq<char>) -> Seq<u8> {
    Seq::new(
        text.len() / 2,
        |i: int| (hex_value(text[2 * i])->0 * 16 + hex_value(text[2 * i + 1])->0) as u8,
    )
}

/// The bytes that `text` writes in hexadecimal, where it does.
pub open spec fn hex_decoded(text: Seq<char>) -> Option<Seq<u8>> {
    if is_hex(text) {
        Some(hex_bytes(text))
    } else {
        None
    }
}

fn digit_for(nibble: u8) -> (c: char)
    requires
        nibble < 16,
    ensures
        c == hex_digit(nibble as int),
{
    if nibble < 10 {
        (48u8 + nibble) as char
    } else {
        (87u8 + nibble) as char
    }
}

fn value_of(c: char) -> (res: Option<u8>)
    ensures
        match res {
            Some(value) => hex_value(c) == Some(value as int) && value < 16,
            None => hex_value(c) is None,
        },
{
    if '0' <= c && c <= '9' {
        Some((c as u32 - 48) as u8)
    } else if 'a' <= c && c <= 'f' {
        Some((c as u32 - 87) as u8)
    } else if 'A' <= c && c <= 'F' {
        Some((c as u32 - 55) as u8)
    } else {
        None
    }
}

/// The bytes in lower-case hexadecimal.
pub fn encode_hex(bytes: &[u8]) -> (res: String)
    ensures
        res@ == hex_text(bytes@),
{
    let mut res: String = String::new();
    let mut i: usize = 0;
    while i < bytes.len()
        invariant
            i <= bytes.len(),
            res@ == hex_text(bytes@).take(2 * i),
        decreases bytes.len() - i,
    {
        let byte: u8 = bytes[i];
        res.push(digit_for(byte / 16));
        res.push(digit_for(byte % 16));
        assert(hex_text(bytes@).take(2 * (i + 1)) =~= hex_text(bytes@).take(2 * i).push(
            hex_digit(byte as int / 16),
        ).push(hex_digit(byte as int % 16)));
        i += 1;
    }
    assert(hex_text(bytes@).take(2 * i) =~= hex_text(bytes@));
    res
}

/// The bytes that `text` writes in hexadecimal; `None` where it holds another
/// character or an odd number of digits.
pub fn decode_hex(text: &str) -> (res: Option<Vec<u8>>)
    ensures
        match res {
            Some(bytes) => hex_decoded(text@) == Some(bytes@),
            None => hex_decoded(text@) is None,
        },
{
    let chars = chars_of(text);
    if chars.len() % 2 != 0 {
        return None;
    }
    let mut bytes: Vec<u8> = Vec::new();
    let mut i: usize = 0;
    while i < chars.len()
        invariant
            chars@ == text@,
            chars.len() % 2 == 0,
            i % 2 == 0,
            i <= chars.len(),
            bytes@ == hex_bytes(text@).take(i as int / 2),
            forall|k: int| 0 <= k < i ==> hex_value(#[trigger] text@[k]) is Some,
        decreases chars.len() - i,
    {
        let high = match value_of(chars[i]) {
            Some(value) => value,
            None => {
                assert(hex_value(text@[i as int]) is None);
                return None;
            },
        };
        let low = match value_of(chars[i + 1]) {
            Some(value) => value,
            None => {
                assert(hex_value(text@[i + 1]) is None);
                return None;
            },
        };
        let byte: u8 = high * 16 + low;
        bytes.push(byte);
        assert(2 * (i as int / 2) == i);
        assert(hex_bytes(text@)[i as int / 2] == byte);
        assert(hex_bytes(text@).take(i as int / 2 + 1) =~= hex_bytes(text@).take(
            i as int / 2,
        ).push(byte));
        i += 2;
    }
    assert(hex_bytes(text@).take(i as int / 2) =~= hex_bytes(text@));
    Some(bytes)
}

/// Encoded bytes decode to the same bytes.
pub proof fn hex_reads_back(bytes: Seq<u8>)
    ensures
        hex_decoded(hex_text(bytes)) == Some(bytes),
{
    let text = hex_text(bytes);
    assert forall|i: int| 0 <= i < text.len() implies hex_value(#[trigger] text[i]) is Some by {
        assert(0 <= bytes[i / 2] as int / 16 < 16);
    }
    assert forall|i: int| 0 <= i < bytes.len() implies hex_bytes(text)[i] == bytes[i] by {
        assert((2 * i) / 2 == i && (2 * i) % 2 == 0);
        assert((2 * i + 1) / 2 == i && (2 * i + 1) % 2 == 1);
        let b = bytes[i] as int;
        assert(b / 16 * 16 + b % 16 == b);
    }
    assert(hex_bytes(text) =~= bytes);
}

/// Hexadecimal text holds neither white space nor a tab nor a line feed.
pub proof fn hex_is_plain(text: Seq<char>)
    requires
        is_hex(text),
    ensures
        forall|i: int| 0 <= i < text.len() ==> !crate::text::white_space(#[trigger] text[i]),
{
}

/// Upper case and lower case are read alike.
pub proof fn hex_is_read_in_either_case(left: Seq<char>, right: Seq<char>)
    requires
        left.len() == right.len(),
        forall|i: int|
            0 <= i < left.len() ==> #[trigger] left[i] == right[i] || 'a' <= left[i] <= 'f'
                && right[i] as int == left[i] as int - 32,
    ensures
        hex_decoded(left) == hex_decoded(right),
{
    assert forall|i: int| 0 <= i < left.len() implies hex_value(#[trigger] left[i]) == hex_value(
        right[i],
    ) by {}
    if is_hex(left) {
        assert forall|i: int| 0 <= i < right.len() implies hex_value(
            #[trigger] right[i],
        ) is Some by {
            assert(hex_value(left[i]) is Some);
        }
        assert(hex_bytes(left) =~= hex_bytes(right)) by {
            assert forall|i: int| 0 <= i < left.len() / 2 implies hex_bytes(left)[i] == hex_bytes(
                right,
            )[i] by {
                assert(hex_value(left[2 * i]) == hex_value(right[2 * i]));
                assert(hex_value(left[2 * i + 1]) == hex_value(right[2 * i + 1]));
            }
        }
    } else if is_hex(right) {
        assert forall|i: int| 0 <= i < left.len() implies hex_value(
            #[trigger] left[i],
        ) is Some by {
            assert(hex_value(right[i]) is Some);
        }
    }
}

/// Each byte is two digits, the higher one first; text that goes on after
/// hexadecimal text is hexadecimal where what follows is, and then has the bytes
/// of both.
pub proof fn hex_goes_by_part(left: Seq<char>, right: Seq<char>, digit: char)
    requires
        left.len() % 2 == 0,
    ensures
        hex_decoded(left + right) == match (hex_decoded(left), hex_decoded(right)) {
            (Some(first), Some(second)) => Some(first + second),
            _ => None,
        },
        hex_decoded(seq![digit]) is None,
        hex_decoded(Seq::empty()) == Some(Seq::<u8>::empty()),
{
    let whole = left + right;
    assert forall|i: int| 0 <= i < left.len() implies whole[i] == left[i] by {}
    assert forall|i: int| 0 <= i < right.len() implies whole[left.len() + i] == right[i] by {}
    if is_hex(left) && is_hex(right) {
        assert forall|i: int| 0 <= i < whole.len() implies hex_value(
            #[trigger] whole[i],
        ) is Some by {
            if i < left.len() {
                assert(hex_value(left[i]) is Some);
            } else {
                assert(hex_value(right[i - left.len()]) is Some);
            }
        }
        assert(hex_bytes(whole) =~= hex_bytes(left) + hex_bytes(right)) by {
            assert forall|i: int| 0 <= i < whole.len() / 2 implies hex_bytes(whole)[i] == (
            hex_bytes(left) + hex_bytes(right))[i] by {
                if i < left.len() / 2 {
                    assert(whole[2 * i] == left[2 * i] && whole[2 * i + 1] == left[2 * i + 1]);
                } else {
                    let k = i - left.len() / 2;
                    assert(2 * i == left.len() + 2 * k);
                    assert(whole[2 * i] == right[2 * k] && whole[2 * i + 1] == right[2 * k + 1]);
                }
            }
        }
    } else if is_hex(whole) {
        assert forall|i: int| 0 <= i < left.len() implies hex_value(
            #[trigger] left[i],
        ) is Some by {
            assert(hex_value(whole[i]) is Some);
        }
        assert forall|i: int| 0 <= i < right.len() implies hex_value(
            #[trigger] right[i],
        ) is Some by {
            assert(hex_value(whole[left.len() + i]) is Some);
        }
    }
    assert(hex_bytes(Seq::empty()) =~= Seq::<u8>::empty());
}

} // verus!

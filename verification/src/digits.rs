//! Numbers that are written as pairs of hexadecimal digits.
use crate::outside;
use crate::wire;
use crate::wire::read_array;
use vstd::prelude::*;

verus! {

/// The byte that a pair stands for: two hexadecimal digits, in either case.
pub open spec fn pair_value(a: u8, b: u8) -> Option<u8> {
    match (outside::hex_value(a), outside::hex_value(b)) {
        (Some(high), Some(low)) => Some((16 * high + low) as u8),
        _ => None,
    }
}

/// The byte that a pair stands for as a number: one digit may have a plus sign before it.
pub open spec fn number_value(a: u8, b: u8) -> Option<u8> {
    if a == 43 {
        match outside::hex_value(b) {
            Some(low) => Some(low as u8),
            None => None,
        }
    } else {
        pair_value(a, b)
    }
}

/// The bytes that a text of pairs spells; `signs` tells whether plus signs are taken.
pub open spec fn pairs_bytes(text: Seq<u8>, signs: bool) -> Option<Seq<u8>>
    decreases text.len(),
{
    if text.len() == 0 {
        Some(Seq::empty())
    } else if text.len() == 1 {
        None
    } else {
        let (a, b) = (text[text.len() - 2], text[text.len() - 1]);
        let last = if signs {
            number_value(a, b)
        } else {
            pair_value(a, b)
        };
        match (pairs_bytes(text.take(text.len() - 2), signs), last) {
            (Some(front), Some(last)) => Some(front.push(last)),
            _ => None,
        }
    }
}

fn digit(c: u8) -> (value: Option<u8>)
    ensures
        value == outside::hex_value(c),
        value matches Some(x) ==> x < 16,
{
    if 48 <= c && c <= 57 {
        Some(c - 48)
    } else if 65 <= c && c <= 70 {
        Some(c - 55)
    } else if 97 <= c && c <= 102 {
        Some(c - 87)
    } else {
        None
    }
}

fn pair(a: u8, b: u8, signs: bool) -> (value: Option<u8>)
    ensures
        value == (if signs {
            number_value(a, b)
        } else {
            pair_value(a, b)
        }),
{
    if signs && a == 43 {
        return digit(b);
    }
    match (digit(a), digit(b)) {
        (Some(high), Some(low)) => Some(16 * high + low),
        _ => None,
    }
}

/// A text that begins with no pairs spells nothing, however it goes on.
proof fn lemma_pairs_broken(text: Seq<u8>, signs: bool, n: int)
    requires
        0 <= n,
        2 * n <= text.len(),
        text.len() % 2 == 0,
        pairs_bytes(text.take(2 * n), signs) is None,
    ensures
        pairs_bytes(text, signs) is None,
    decreases text.len() - 2 * n,
{
    if 2 * n < text.len() {
        let next = text.take(2 * n + 2);
        assert(next.take(next.len() - 2) =~= text.take(2 * n));
        lemma_pairs_broken(text, signs, n + 1);
    } else {
        assert(text.take(2 * n) =~= text);
    }
}

/// Reads `2 * N` bytes as `N` pairs; `signs` tells whether plus signs are taken.
pub fn read_pairs<const N: usize>(text: &[u8], signs: bool) -> (bytes: Option<[u8; N]>)
    requires
        text@.len() == 2 * N,
    ensures
        match pairs_bytes(text@, signs) {
            Some(value) => bytes matches Some(bytes) && bytes@ == value,
            None => bytes is None,
        },
{
    let mut out: Vec<u8> = Vec::new();
    let mut i: usize = 0;
    assert(text@.take(0) =~= Seq::<u8>::empty());
    assert(out@ =~= Seq::<u8>::empty());
    while i < N
        invariant
            i <= N,
            text.len() == 2 * N,
            out@.len() == i,
            pairs_bytes(text@.take(2 * i), signs) == Some(out@),
        decreases N - i,
    {
        let ghost next = text@.take(2 * i + 2);
        proof {
            assert(next.take(next.len() - 2) =~= text@.take(2 * i as int));
            if pairs_bytes(next, signs) is None {
                lemma_pairs_broken(text@, signs, i + 1);
            }
        }
        match pair(text[2 * i], text[2 * i + 1], signs) {
            Some(value) => out.push(value),
            None => return None,
        }
        i = i + 1;
    }
    proof {
        assert(text@.take(2 * i as int) =~= text@);
        assert(out@.subrange(0, N as int) =~= out@);
        wire::lemma_array_exists::<N>(out@);
    }
    Some(read_array::<N>(out.as_slice(), 0))
}

/// Digits in lower case spell the bytes that they print.
pub proof fn lemma_pairs_of_hex(bytes: Seq<u8>, signs: bool)
    ensures
        pairs_bytes(wire::utf8(outside::hex_text(bytes)), signs) == Some(bytes),
        wire::utf8(outside::hex_text(bytes)).len() == 2 * bytes.len(),
    decreases bytes.len(),
{
    let text = outside::hex_text(bytes);
    assert forall|i: int| 0 <= i < text.len() implies (text[i] as u32) < 128 by {
        let n = if i % 2 == 0 {
            bytes[i / 2] / 16
        } else {
            bytes[i / 2] % 16
        };
        assert(n < 16);
    }
    assert(vstd::utf8::is_ascii_chars(text));
    vstd::utf8::is_ascii_chars_encode_utf8(text);
    let encoded = wire::utf8(text);
    assert(encoded =~= Seq::new(text.len(), |i: int| text[i] as u8));
    if bytes.len() > 0 {
        let front = bytes.drop_last();
        lemma_pairs_of_hex(front, signs);
        let before = outside::hex_text(front);
        assert(text.take(text.len() - 2) =~= before);
        assert(vstd::utf8::is_ascii_chars(before));
        vstd::utf8::is_ascii_chars_encode_utf8(before);
        assert(encoded.take(encoded.len() - 2) =~= wire::utf8(before));
        let n = bytes.len() - 1;
        assert(text[2 * n] == outside::hex_digit((bytes[n] / 16) as int));
        assert(text[2 * n + 1] == outside::hex_digit((bytes[n] % 16) as int));
        assert(front.push(bytes[n]) =~= bytes);
    } else {
        assert(encoded =~= Seq::<u8>::empty());
        assert(bytes =~= Seq::<u8>::empty());
    }
}

/// A text spells bytes exactly where it is made of pairs that each stand for a byte: the bytes that
/// its pairs stand for, in their order.
pub proof fn law_what_a_text_spells(text: Seq<u8>, signs: bool, bytes: Seq<u8>)
    ensures
        pairs_bytes(text, signs) == Some(bytes) <==> {
            &&& text.len() == 2 * bytes.len()
            &&& forall|i: int|
                0 <= i < bytes.len() ==> Some(#[trigger] bytes[i]) == (if signs && text[2 * i] == 43 {
                    outside::hex_value(text[2 * i + 1])
                } else {
                    pair_value(text[2 * i], text[2 * i + 1])
                })
        },
    decreases text.len(),
{
    if text.len() >= 2 {
        let n = text.len();
        let front = text.take(n - 2);
        let right = {
            &&& text.len() == 2 * bytes.len()
            &&& forall|i: int|
                0 <= i < bytes.len() ==> Some(#[trigger] bytes[i]) == (if signs && text[2 * i] == 43 {
                    outside::hex_value(text[2 * i + 1])
                } else {
                    pair_value(text[2 * i], text[2 * i + 1])
                })
        };
        if bytes.len() > 0 {
            law_what_a_text_spells(front, signs, bytes.drop_last());
        }
        if right {
            let last = bytes.len() - 1;
            assert forall|i: int| 0 <= i < last implies Some(#[trigger] bytes.drop_last()[i]) == (
            if signs && front[2 * i] == 43 {
                outside::hex_value(front[2 * i + 1])
            } else {
                pair_value(front[2 * i], front[2 * i + 1])
            }) by {
                assert(bytes[i] == bytes.drop_last()[i]);
            }
            assert(Some(bytes[last]) == Some(bytes[last]));
            assert(bytes =~= bytes.drop_last().push(bytes[last]));
        }
        if pairs_bytes(text, signs) == Some(bytes) {
            assert(bytes.drop_last() =~= pairs_bytes(front, signs)->Some_0);
            assert forall|i: int| 0 <= i < bytes.len() implies Some(#[trigger] bytes[i]) == (if signs
                && text[2 * i] == 43 {
                outside::hex_value(text[2 * i + 1])
            } else {
                pair_value(text[2 * i], text[2 * i + 1])
            }) by {
                if i < bytes.len() - 1 {
                    assert(bytes.drop_last()[i] == bytes[i]);
                    assert(front[2 * i] == text[2 * i]);
                    assert(front[2 * i + 1] == text[2 * i + 1]);
                }
            }
        }
    } else if text.len() == 0 && bytes.len() == 0 {
        assert(bytes =~= Seq::empty());
    }
}

} // verus!

//! What numerals, hashes and digests in text form stand for: read back digit by digit, they give
//! the number or the bytes that they were made from.

use vstd::prelude::*;

use crate::digest::{digest_text, hash_text, hex_text, is_sha256_text, DigestV};
use crate::text::{decimal_text, digit_char};

verus! {

/// The number that a decimal numeral stands for.
pub open spec fn decimal_value(text: Seq<char>) -> int
    decreases text.len(),
{
    if text.len() == 0 {
        0
    } else {
        10 * decimal_value(text.drop_last()) + (text.last() as int - '0' as int)
    }
}

/// The text consists of decimal digits.
pub open spec fn is_decimal(text: Seq<char>) -> bool {
    forall|i: int| 0 <= i < text.len() ==> '0' <= #[trigger] text[i] && text[i] <= '9'
}

/// A numeral stands for its number: it consists of decimal digits, has no leading zero, and gives
/// the number when it is read.
pub proof fn numerals_stand_for_their_numbers(n: nat)
    ensures
        decimal_text(n).len() > 0,
        is_decimal(decimal_text(n)),
        decimal_value(decimal_text(n)) == n,
        decimal_text(n).len() > 1 ==> decimal_text(n)[0] != '0',
    decreases n,
{
    if n < 10 {
        let text = decimal_text(n);
        assert(text.drop_last() =~= seq![]);
        assert(decimal_value(text.drop_last()) == 0);
    } else {
        numerals_stand_for_their_numbers(n / 10);
        let short = decimal_text(n / 10);
        let text = decimal_text(n);
        assert(text.drop_last() =~= short);
        assert(text[0] == short[0]);
        if short.len() == 1 && short[0] == '0' {
            assert(short.drop_last() =~= seq![]);
            assert(decimal_value(short.drop_last()) == 0);
            assert(short.last() == '0');
            assert(decimal_value(short) == 0);
        }
    }
}

/// The number that a hexadecimal digit in lower case stands for, or 16.
pub open spec fn hex_value(c: char) -> int {
    if '0' <= c && c <= '9' {
        c as int - '0' as int
    } else if 'a' <= c && c <= 'f' {
        c as int - 'a' as int + 10
    } else {
        16
    }
}

/// The number that two hexadecimal digits in lower case stand for, the higher one first, or -1.
pub open spec fn hex_pair(high: char, low: char) -> int {
    if hex_value(high) < 16 && hex_value(low) < 16 {
        16 * hex_value(high) + hex_value(low)
    } else {
        -1
    }
}

/// Hexadecimal text gives its bytes back: each byte stands there as two digits in lower case, the
/// higher one first.
pub proof fn hex_text_gives_the_bytes_back(bytes: Seq<u8>)
    ensures
        hex_text(bytes).len() == 2 * bytes.len(),
        forall|i: int|
            0 <= i < bytes.len() ==> hex_pair(hex_text(bytes)[2 * i], hex_text(bytes)[2 * i + 1])
                == #[trigger] bytes[i],
    decreases bytes.len(),
{
    if bytes.len() > 0 {
        let short = bytes.drop_last();
        hex_text_gives_the_bytes_back(short);
        let text = hex_text(bytes);
        let before = hex_text(short);
        assert forall|i: int| 0 <= i < bytes.len() implies hex_pair(text[2 * i], text[2 * i + 1])
            == #[trigger] bytes[i] by {
            if i < short.len() {
                assert(bytes[i] == short[i]);
                assert(text[2 * i] == before[2 * i]);
                assert(text[2 * i + 1] == before[2 * i + 1]);
            } else {
                let b = bytes.last();
                assert(text[2 * i] == digit_char((b / 16) as int));
                assert(text[2 * i + 1] == digit_char((b % 16) as int));
            }
        }
    }
}

/// A hash in text form is `sha256:` and two digits for each byte, and gives the bytes back.
pub proof fn hash_text_gives_the_hash_back(hash: Seq<u8>)
    ensures
        hash_text(hash).len() == 7 + 2 * hash.len(),
        hash_text(hash).take(7) == seq!['s', 'h', 'a', '2', '5', '6', ':'],
        forall|i: int|
            0 <= i < hash.len() ==> hex_pair(hash_text(hash)[7 + 2 * i], hash_text(hash)[8 + 2 * i])
                == #[trigger] hash[i],
        hash.len() == 32 ==> is_sha256_text(hash_text(hash)),
{
    reveal_strlit("sha256:");
    hex_text_gives_the_bytes_back(hash);
    let text = hash_text(hash);
    let hex = hex_text(hash);
    assert(text.take(7) =~= seq!['s', 'h', 'a', '2', '5', '6', ':']);
    assert(text.take(7) =~= "sha256:"@);
    assert forall|i: int| 0 <= i < hash.len() implies hex_pair(text[7 + 2 * i], text[8 + 2 * i])
        == #[trigger] hash[i] by {
        assert(text[7 + 2 * i] == hex[2 * i]);
        assert(text[8 + 2 * i] == hex[2 * i + 1]);
    }
    if hash.len() == 32 {
        assert forall|j: int| 7 <= j < 71 implies crate::digest::is_hex_digit(
            #[trigger] text[j],
        ) by {
            let i = (j - 7) / 2;
            assert(0 <= i < hash.len());
            assert(hex_pair(text[7 + 2 * i], text[8 + 2 * i]) == hash[i]);
            assert(j == 7 + 2 * i || j == 8 + 2 * i);
        }
    }
}

/// A text has the form of a canonical tree hash exactly if it is `sha256:` and 64 hexadecimal
/// digits of either case.
pub proof fn hash_form_is_exact(text: Seq<char>)
    ensures
        is_sha256_text(text) <==> {
            &&& text.len() == 7 + 64
            &&& text[0] == 's'
            &&& text[1] == 'h'
            &&& text[2] == 'a'
            &&& text[3] == '2'
            &&& text[4] == '5'
            &&& text[5] == '6'
            &&& text[6] == ':'
            &&& forall|i: int|
                7 <= i < text.len() ==> ('0' <= #[trigger] text[i] && text[i] <= '9') || ('a'
                    <= text[i] && text[i] <= 'f') || ('A' <= text[i] && text[i] <= 'F')
        },
{
    reveal_strlit("sha256:");
    if text.len() == 71 {
        assert("sha256:"@ =~= seq!['s', 'h', 'a', '2', '5', '6', ':']);
        let head = text.take(7);
        assert(head[0] == text[0] && head[1] == text[1] && head[2] == text[2] && head[3] == text[3]
            && head[4] == text[4] && head[5] == text[5] && head[6] == text[6]);
        if text[0] == 's' && text[1] == 'h' && text[2] == 'a' && text[3] == '2' && text[4] == '5'
            && text[5] == '6' && text[6] == ':' {
            assert(head =~= "sha256:"@);
        }
        if is_sha256_text(text) {
            assert forall|i: int| 7 <= i < text.len() implies ('0' <= #[trigger] text[i] && text[i]
                <= '9') || ('a' <= text[i] && text[i] <= 'f') || ('A' <= text[i] && text[i]
                <= 'F') by {
                assert(crate::digest::is_hex_digit(text[i]));
            }
        }
    }
}

/// A digest in text form is its hash, a colon, and the numeral of its size.
pub proof fn digest_text_holds_hash_and_size(d: DigestV)
    ensures
        digest_text(d).len() > d.raw.len() + 1,
        digest_text(d).take(d.raw.len() as int) == d.raw,
        digest_text(d)[d.raw.len() as int] == ':',
        is_decimal(digest_text(d).skip(d.raw.len() as int + 1)),
        decimal_value(digest_text(d).skip(d.raw.len() as int + 1)) == d.size,
        digest_text(d).len() > d.raw.len() + 2 ==> digest_text(d)[d.raw.len() as int + 1] != '0',
{
    reveal_strlit(":");
    let n = d.raw.len() as int;
    let text = digest_text(d);
    numerals_stand_for_their_numbers(d.size as nat);
    assert(text.take(n) =~= d.raw);
    assert(text.skip(n + 1) =~= decimal_text(d.size as nat));
    assert(text.skip(n + 1)[0] == text[n + 1]);
}

} // verus!

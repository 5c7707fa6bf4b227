//! Text forms of the values that a commitment tag carries: digests as
//! sixty-four hexadecimal digits, positions as decimal numbers.

use vstd::prelude::*;
use vstd::string::StringExecFns;

verus! {

/// The value of a hexadecimal digit, in either case.
pub open spec fn hex_value(c: char) -> Option<u8> {
    let v = c as u32;
    if 48 <= v <= 57 {
        Some((v - 48) as u8)
    } else if 97 <= v <= 102 {
        Some((v - 87) as u8)
    } else if 65 <= v <= 70 {
        Some((v - 55) as u8)
    } else {
        None
    }
}

/// The lower-case hexadecimal digit of a value below sixteen.
pub open spec fn hex_char(n: u8) -> char {
    if n < 10 {
        (48 + n) as char
    } else {
        (87 + n) as char
    }
}

/// The text of a byte string: two lower-case digits for each byte, the high
/// half first.
pub open spec fn hex_encode(bytes: Seq<u8>) -> Seq<char> {
    Seq::new(
        2 * bytes.len(),
        |i: int|
            hex_char(
                if i % 2 == 0 {
                    (bytes[i / 2] / 16) as u8
                } else {
                    (bytes[i / 2] % 16) as u8
                },
            ),
    )
}

/// The byte string that a text of hexadecimal digits stands for. A text of odd
/// length, or one that holds anything but hexadecimal digits, stands for none.
pub open spec fn hex_decode(text: Seq<char>) -> Option<Seq<u8>> {
    if text.len() % 2 == 0 && (forall|i: int|
        0 <= i < text.len() ==> hex_value(#[trigger] text[i]) is Some) {
        Some(
            Seq::new(
                text.len() / 2,
                |i: int|
                    (hex_value(text[2 * i]).unwrap() * 16 + hex_value(
                        text[2 * i + 1],
                    ).unwrap()) as u8,
            ),
        )
    } else {
        None
    }
}

/// The digest that a text stands for: exactly sixty-four hexadecimal digits.
pub open spec fn hash_decode(text: Seq<char>) -> Option<Seq<u8>> {
    if text.len() == 64 {
        hex_decode(text)
    } else {
        None
    }
}

/// Decoding the text of a byte string gives the byte string back.
pub proof fn lemma_hex_round_trip(bytes: Seq<u8>)
    ensures
        hex_decode(hex_encode(bytes)) == Some(bytes),
{
    let text = hex_encode(bytes);
    assert forall|i: int| 0 <= i < text.len() implies hex_value(#[trigger] text[i]) is Some by {
        let b = bytes[i / 2];
        assert(0 <= b / 16 < 16 && 0 <= b % 16 < 16);
    }
    let back = hex_decode(text).unwrap();
    assert forall|k: int| 0 <= k < bytes.len() implies back[k] == bytes[k] by {
        let b = bytes[k];
        assert((2 * k) % 2 == 0 && (2 * k) / 2 == k);
        assert((2 * k + 1) % 2 == 1 && (2 * k + 1) / 2 == k);
        assert(text[2 * k] == hex_char((b / 16) as u8));
        assert(text[2 * k + 1] == hex_char((b % 16) as u8));
        assert(hex_value(hex_char((b / 16) as u8)) == Some((b / 16) as u8));
        assert(hex_value(hex_char((b % 16) as u8)) == Some((b % 16) as u8));
    }
    assert(back =~= bytes);
}

/// A digest's text decodes to the digest.
pub proof fn lemma_hash_round_trip(bytes: Seq<u8>)
    requires
        bytes.len() == 32,
    ensures
        hash_decode(hex_encode(bytes)) == Some(bytes),
{
    lemma_hex_round_trip(bytes);
}

fn nibble(c: char) -> (r: Option<u8>)
    ensures
        r == hex_value(c),
        r matches Some(v) ==> v < 16,
{
    let v: u32 = c as u32;
    if 48 <= v && v <= 57 {
        Some((v - 48) as u8)
    } else if 97 <= v && v <= 102 {
        Some((v - 87) as u8)
    } else if 65 <= v && v <= 70 {
        Some((v - 55) as u8)
    } else {
        None
    }
}

fn digit_str(n: u8) -> (digit: &'static str)
    requires
        n < 16,
    ensures
        digit@ == seq![hex_char(n)],
{
    proof {
        reveal_strlit("0");
        reveal_strlit("1");
        reveal_strlit("2");
        reveal_strlit("3");
        reveal_strlit("4");
        reveal_strlit("5");
        reveal_strlit("6");
        reveal_strlit("7");
        reveal_strlit("8");
        reveal_strlit("9");
        reveal_strlit("a");
        reveal_strlit("b");
        reveal_strlit("c");
        reveal_strlit("d");
        reveal_strlit("e");
        reveal_strlit("f");
    }
    let digit: &'static str = match n {
        0 => "0",
        1 => "1",
        2 => "2",
        3 => "3",
        4 => "4",
        5 => "5",
        6 => "6",
        7 => "7",
        8 => "8",
        9 => "9",
        10 => "a",
        11 => "b",
        12 => "c",
        13 => "d",
        14 => "e",
        _ => "f",
    };
    assert(digit@ =~= seq![hex_char(n)]);
    digit
}

/// Writes a digest as sixty-four lower-case hexadecimal digits.
pub fn hash_to_hex(hash: &[u8; 32]) -> (text: String)
    ensures
        text@ == hex_encode(hash@),
{
    let mut text = String::new();
    let mut i: usize = 0;
    while i < 32
        invariant
            i <= 32,
            text@ == hex_encode(hash@).take(2 * i),
        decreases 32 - i,
    {
        let b: u8 = hash[i];
        text.append(digit_str(b / 16));
        text.append(digit_str(b % 16));
        proof {
            assert((2 * i) % 2 == 0 && (2 * i) / 2 == i);
            assert((2 * i + 1) % 2 == 1 && (2 * i + 1) / 2 == i);
            assert(text@ =~= hex_encode(hash@).take(2 * (i + 1)));
        }
        i += 1;
    }
    assert(text@ =~= hex_encode(hash@));
    text
}

/// Reads a digest from its text. The text must be exactly sixty-four
/// hexadecimal digits; upper and lower case are both read.
pub fn hash_from_hex(text: &str) -> (hash: Option<[u8; 32]>)
    ensures
        match hash {
            Some(h) => hash_decode(text@) == Some(h@),
            None => hash_decode(text@) is None,
        },
{
    let n = text.unicode_len();
    if n != 64 {
        return None;
    }
    let mut out: [u8; 32] = [0u8; 32];
    let mut i: usize = 0;
    while i < 32
        invariant
            i <= 32,
            text@.len() == 64,
            forall|j: int| 0 <= j < 2 * i ==> hex_value(#[trigger] text@[j]) is Some,
            forall|k: int|
                0 <= k < i ==> #[trigger] out[k] == hex_value(text@[2 * k]).unwrap() * 16
                    + hex_value(text@[2 * k + 1]).unwrap(),
        decreases 32 - i,
    {
        let hi = match nibble(text.get_char(2 * i)) {
            Some(v) => v,
            None => {
                return None;
            },
        };
        let lo = match nibble(text.get_char(2 * i + 1)) {
            Some(v) => v,
            None => {
                return None;
            },
        };
        out[i] = hi * 16 + lo;
        i += 1;
    }
    assert(hex_decode(text@).unwrap() =~= out@);
    Some(out)
}

/// The value of a decimal digit.
pub open spec fn digit_value(c: char) -> Option<nat> {
    let v = c as u32;
    if 48 <= v <= 57 {
        Some((v - 48) as nat)
    } else {
        None
    }
}

/// The decimal digit of a value below ten.
pub open spec fn digit_char(d: nat) -> char {
    (48 + d) as char
}

/// The decimal digits of a number, without leading zeros.
pub open spec fn dec_digits(n: nat) -> Seq<char>
    decreases n,
{
    if n < 10 {
        seq![digit_char(n)]
    } else {
        dec_digits(n / 10).push(digit_char(n % 10))
    }
}

/// The number that a run of decimal digits stands for.
pub open spec fn dec_value(digits: Seq<char>) -> nat
    decreases digits.len(),
{
    if digits.len() == 0 {
        0
    } else {
        dec_value(digits.drop_last()) * 10 + match digit_value(digits.last()) {
            Some(d) => d,
            None => 0,
        }
    }
}

/// A run of characters that are all decimal digits.
pub open spec fn all_digits(digits: Seq<char>) -> bool {
    forall|i: int| 0 <= i < digits.len() ==> digit_value(#[trigger] digits[i]) is Some
}

/// The one way to write a number: at least one digit, and no leading zero
/// before another digit.
pub open spec fn canonical_digits(digits: Seq<char>) -> bool {
    &&& digits.len() >= 1
    &&& all_digits(digits)
    &&& digits.len() > 1 ==> digits[0] != '0'
}

/// The text of a position: its decimal digits, after a minus sign where it is
/// negative.
pub open spec fn pos_encode(pos: int) -> Seq<char> {
    if pos < 0 {
        seq!['-'] + dec_digits((-pos) as nat)
    } else {
        dec_digits(pos as nat)
    }
}

/// The position that a text stands for. Only the one text that
/// [`pos_encode`] gives a position is read: no plus sign, no leading zeros, no
/// minus zero, nothing outside the range of `i64`.
pub open spec fn pos_decode(text: Seq<char>) -> Option<int> {
    if text.len() > 0 && text[0] == '-' {
        let digits = text.skip(1);
        if canonical_digits(digits) && 0 < dec_value(digits) <= 0x8000_0000_0000_0000 {
            Some(-(dec_value(digits) as int))
        } else {
            None
        }
    } else if canonical_digits(text) && dec_value(text) <= 0x7fff_ffff_ffff_ffff {
        Some(dec_value(text) as int)
    } else {
        None
    }
}

/// The digits of a number are canonical and stand for that number.
pub proof fn lemma_dec_digits(n: nat)
    ensures
        canonical_digits(dec_digits(n)),
        dec_value(dec_digits(n)) == n,
        n > 0 ==> dec_digits(n)[0] != '0',
        dec_digits(n)[0] != '-',
    decreases n,
{
    if n < 10 {
        let s = dec_digits(n);
        assert(s.drop_last() =~= Seq::<char>::empty());
        assert(dec_value(s.drop_last()) == 0);
        assert(digit_value(s.last()) == Some(n));
    } else {
        lemma_dec_digits(n / 10);
        let t = dec_digits(n / 10);
        let s = dec_digits(n);
        assert(s.drop_last() =~= t);
        assert(digit_value(s.last()) == Some(n % 10));
        assert(s[0] == t[0]);
        assert forall|i: int| 0 <= i < s.len() implies digit_value(#[trigger] s[i]) is Some by {
            if i < t.len() {
                assert(s[i] == t[i]);
            }
        }
    }
}

/// Canonical digits are the digits of the number they stand for.
pub proof fn lemma_canonical_digits(digits: Seq<char>)
    requires
        canonical_digits(digits),
    ensures
        dec_digits(dec_value(digits)) == digits,
        digits[0] != '0' ==> dec_value(digits) > 0,
    decreases digits.len(),
{
    let t = digits.drop_last();
    let c = digits.last();
    let d = digit_value(c).unwrap();
    assert(digit_value(digits[digits.len() - 1]) is Some);
    assert(digit_char(d) == c) by {
        vstd::utf8::char_u32_cast(c, c as u32);
    }
    if digits.len() == 1 {
        assert(t =~= Seq::<char>::empty());
        assert(dec_value(t) == 0);
        assert(dec_digits(d) =~= digits);
    } else {
        assert(t[0] == digits[0]);
        assert forall|i: int| 0 <= i < t.len() implies digit_value(#[trigger] t[i]) is Some by {
            assert(t[i] == digits[i]);
        }
        lemma_canonical_digits(t);
        let n = dec_value(digits);
        assert(n == dec_value(t) * 10 + d);
        assert(n / 10 == dec_value(t) && n % 10 == d);
        assert(dec_digits(n) =~= digits);
    }
}

/// Decoding the text of a position gives the position back.
pub proof fn lemma_pos_round_trip(pos: int)
    requires
        i64::MIN <= pos <= i64::MAX,
    ensures
        pos_decode(pos_encode(pos)) == Some(pos),
{
    if pos < 0 {
        let m = (-pos) as nat;
        lemma_dec_digits(m);
        assert(pos_encode(pos).skip(1) =~= dec_digits(m));
    } else {
        lemma_dec_digits(pos as nat);
    }
}

/// A text is read as a position only if it is the text of that position.
pub proof fn lemma_pos_decode_exact(text: Seq<char>)
    ensures
        pos_decode(text) matches Some(pos) ==> i64::MIN <= pos <= i64::MAX && pos_encode(pos)
            == text,
{
    if text.len() > 0 && text[0] == '-' {
        let digits = text.skip(1);
        if canonical_digits(digits) {
            lemma_canonical_digits(digits);
            assert(seq!['-'] + digits =~= text);
        }
    } else if canonical_digits(text) {
        lemma_canonical_digits(text);
    }
}

/// A run of digits stands for at least as much as any run it starts with.
proof fn lemma_dec_value_prefix(digits: Seq<char>, k: int)
    requires
        0 <= k <= digits.len(),
    ensures
        dec_value(digits.take(k)) <= dec_value(digits),
    decreases digits.len(),
{
    if k == digits.len() {
        assert(digits.take(k) =~= digits);
    } else {
        assert(digits.drop_last().take(k) =~= digits.take(k));
        lemma_dec_value_prefix(digits.drop_last(), k);
    }
}

/// Reading one more digit multiplies by ten and adds the digit.
proof fn lemma_dec_value_step(digits: Seq<char>, k: int)
    requires
        0 <= k < digits.len(),
        digit_value(digits[k]) is Some,
        all_digits(digits.take(k)),
    ensures
        dec_value(digits.take(k + 1)) == dec_value(digits.take(k)) * 10 + digit_value(
            digits[k],
        ).unwrap(),
        all_digits(digits.take(k + 1)),
        dec_value(digits.take(k + 1)) <= dec_value(digits),
{
    let prefix = digits.take(k + 1);
    assert(prefix.drop_last() =~= digits.take(k));
    assert(prefix.last() == digits[k]);
    lemma_dec_value_prefix(digits, k + 1);
    assert forall|j: int| 0 <= j < prefix.len() implies digit_value(#[trigger] prefix[j]) is Some by {
        if j < k {
            assert(digits.take(k)[j] == prefix[j]);
        }
    }
}

fn push_decimal(out: &mut String, n: u64)
    ensures
        final(out)@ == old(out)@ + dec_digits(n as nat),
    decreases n,
{
    if n >= 10 {
        push_decimal(out, n / 10);
    }
    out.append(digit_str((n % 10) as u8));
    proof {
        assert(hex_char((n % 10) as u8) == digit_char((n % 10) as nat));
        assert(out@ =~= old(out)@ + dec_digits(n as nat));
    }
}

/// Writes a position in decimal.
pub fn pos_to_text(pos: i64) -> (text: String)
    ensures
        text@ == pos_encode(pos as int),
{
    let mut text = String::new();
    if pos < 0 {
        proof {
            reveal_strlit("-");
        }
        text.append("-");
        let magnitude: u64 = ((-(pos + 1)) as u64) + 1;
        push_decimal(&mut text, magnitude);
        assert(text@ =~= pos_encode(pos as int));
    } else {
        push_decimal(&mut text, pos as u64);
        assert(text@ =~= pos_encode(pos as int));
    }
    text
}

/// Reads a position from its decimal text.
pub fn pos_from_text(text: &str) -> (pos: Option<i64>)
    ensures
        match pos {
            Some(p) => pos_decode(text@) == Some(p as int),
            None => pos_decode(text@) is None,
        },
{
    let n = text.unicode_len();
    if n == 0 {
        return None;
    }
    let negative = text.get_char(0) == '-';
    let start: usize = if negative { 1 } else { 0 };
    let ghost digits = if negative { text@.skip(1) } else { text@ };
    if n == start {
        return None;
    }
    if n - start > 1 && text.get_char(start) == '0' {
        return None;
    }
    let mut acc: u64 = 0;
    let mut i: usize = start;
    proof {
        assert(digits.take(0) =~= Seq::<char>::empty());
    }
    while i < n
        invariant
            start <= i <= n,
            n == text@.len(),
            start == if negative {
                1usize
            } else {
                0usize
            },
            negative == (text@[0] == '-'),
            digits == if negative {
                text@.skip(1)
            } else {
                text@
            },
            digits.len() > 1 ==> digits[0] != '0',
            all_digits(digits.take(i - start)),
            acc == dec_value(digits.take(i - start)),
        decreases n - i,
    {
        let c = text.get_char(i);
        let v: u32 = c as u32;
        assert(digits[i - start] == c);
        if v < 48 || v > 57 {
            assert(digit_value(digits[i - start]) is None);
            return None;
        }
        let d: u64 = (v - 48) as u64;
        proof {
            lemma_dec_value_step(digits, i - start);
        }
        if acc > (u64::MAX - d) / 10 {
            return None;
        }
        acc = acc * 10 + d;
        i += 1;
    }
    proof {
        assert(digits.take(n - start) =~= digits);
    }
    if negative {
        if acc == 0 || acc > 0x8000_0000_0000_0000 {
            None
        } else if acc == 0x8000_0000_0000_0000 {
            Some(i64::MIN)
        } else {
            Some(-(acc as i64))
        }
    } else if acc > 0x7fff_ffff_ffff_ffff {
        None
    } else {
        Some(acc as i64)
    }
}

} // verus!

//! Text for the display: numbers in decimal, octets as binary digits, runs of
//! spaces, and the three places where the standard library's own text
//! handling is called.

use vstd::prelude::*;
use vstd::utf8::decode_utf8;
use vstd::utf8::valid_utf8;

verus! {

/// The text that the standard library's `Debug` formatting gives for a
/// string: the string between double quotes, with the characters escaped that
/// it escapes.
pub uninterp spec fn debug_text(text: Seq<char>) -> Seq<char>;

/// The octets that `String::from_utf8_lossy` makes of a buffer.
pub uninterp spec fn lossy_utf8(bytes: Seq<u8>) -> Seq<u8>;

/// Formats the string with `{:?}`.
#[verifier::external_body]
pub(crate) fn debug_quoted(text: &str) -> (r: String)
    ensures
        r@ == debug_text(text@),
{
    format!("{:?}", text)
}

/// Calls `String::from_utf8_lossy` and hands back the octets of its result,
/// which are valid UTF-8, and are the given octets where those were valid.
#[verifier::external_body]
pub(crate) fn repair_utf8(bytes: &[u8]) -> (r: Vec<u8>)
    ensures
        r@ == lossy_utf8(bytes@),
        valid_utf8(r@),
        valid_utf8(bytes@) ==> r@ == bytes@,
{
    String::from_utf8_lossy(bytes).to_string().into()
}

/// Calls `String::from_utf8` on a copy of the octets: the text they encode,
/// or nothing where they are not valid UTF-8.
#[verifier::external_body]
pub(crate) fn utf8_text(bytes: &[u8]) -> (r: Option<String>)
    ensures
        match r {
            Some(text) => valid_utf8(bytes@) && text@ == decode_utf8(bytes@),
            None => !valid_utf8(bytes@),
        },
{
    String::from_utf8(bytes.to_vec()).ok()
}

/// The character of a decimal digit.
pub open spec fn digit_char(d: nat) -> char {
    if d == 0 {
        '0'
    } else if d == 1 {
        '1'
    } else if d == 2 {
        '2'
    } else if d == 3 {
        '3'
    } else if d == 4 {
        '4'
    } else if d == 5 {
        '5'
    } else if d == 6 {
        '6'
    } else if d == 7 {
        '7'
    } else if d == 8 {
        '8'
    } else {
        '9'
    }
}

/// A number in decimal, without leading zeros.
pub open spec fn decimal_text(n: nat) -> Seq<char>
    decreases n,
{
    if n < 10 {
        seq![digit_char(n)]
    } else {
        decimal_text(n / 10).push(digit_char(n % 10))
    }
}

/// The weight of bit `k` of an octet, counted from the most significant.
pub open spec fn bit_weight(k: int) -> int {
    if k == 0 {
        128
    } else if k == 1 {
        64
    } else if k == 2 {
        32
    } else if k == 3 {
        16
    } else if k == 4 {
        8
    } else if k == 5 {
        4
    } else if k == 6 {
        2
    } else {
        1
    }
}

/// The digit of bit `k` of an octet, counted from the most significant.
pub open spec fn bit_char(byte: u8, k: int) -> char {
    if (byte as int / bit_weight(k)) % 2 == 1 {
        '1'
    } else {
        '0'
    }
}

/// Octets as binary digits, eight for each octet, most significant first.
pub open spec fn binary_text(bytes: Seq<u8>) -> Seq<char> {
    Seq::new(8 * bytes.len(), |i: int| bit_char(bytes[i / 8], i % 8))
}

/// A run of `n` spaces.
pub open spec fn spaces_text(n: nat) -> Seq<char> {
    Seq::new(n, |i: int| ' ')
}

/// The text of a truth value.
pub open spec fn bool_text(b: bool) -> Seq<char> {
    if b {
        "true"@
    } else {
        "false"@
    }
}

fn digit_str(d: u128) -> (s: &'static str)
    requires
        d < 10,
    ensures
        s@ == seq![digit_char(d as nat)],
{
    proof {
        reveal_strlit("0");
        reveal_strlit("1");
        reveal_strlit("2");
        reveal_strlit("3");
        reveal_strlit("4");
        reveal_strlit("5");
        reveal_strlit("6");
        reveal_strlit("7");
        reveal_strlit("8");
        reveal_strlit("9");
    }
    let s = if d == 0 {
        "0"
    } else if d == 1 {
        "1"
    } else if d == 2 {
        "2"
    } else if d == 3 {
        "3"
    } else if d == 4 {
        "4"
    } else if d == 5 {
        "5"
    } else if d == 6 {
        "6"
    } else if d == 7 {
        "7"
    } else if d == 8 {
        "8"
    } else {
        "9"
    };
    assert(s@ =~= seq![digit_char(d as nat)]);
    s
}

/// The number in decimal.
pub fn decimal(n: u128) -> (text: String)
    ensures
        text@ == decimal_text(n as nat),
{
    let mut rest: u128 = n;
    let mut text = String::new();
    loop
        invariant_except_break
            decimal_text(n as nat) == decimal_text(rest as nat) + text@,
        ensures
            text@ == decimal_text(n as nat),
        decreases rest,
    {
        let digit = digit_str(rest % 10);
        let ghost low = text@;
        text = String::from_str(digit).concat(text.as_str());
        if rest < 10 {
            assert(text@ =~= decimal_text(rest as nat) + low);
            break ;
        }
        assert(decimal_text(rest as nat) + low =~= decimal_text((rest / 10) as nat) + text@);
        rest = rest / 10;
    }
    text
}

/// The octets as binary digits.
pub fn binary(bytes: &[u8]) -> (text: String)
    ensures
        text@ == binary_text(bytes@),
{
    let mut text = String::new();
    let mut i: usize = 0;
    while i < bytes.len()
        invariant
            i <= bytes.len(),
            text@.len() == 8 * i,
            forall|j: int| 0 <= j < text@.len() ==> text@[j] == bit_char(bytes@[j / 8], j % 8),
        decreases bytes.len() - i,
    {
        let byte = bytes[i];
        let mut k: u8 = 0;
        let mut weight: u8 = 128;
        while k < 8
            invariant
                i < bytes.len(),
                byte == bytes@[i as int],
                k <= 8,
                k < 8 ==> weight == bit_weight(k as int),
                text@.len() == 8 * i + k,
                forall|j: int| 0 <= j < text@.len() ==> text@[j] == bit_char(bytes@[j / 8], j % 8),
            decreases 8 - k,
        {
            proof {
                reveal_strlit("0");
                reveal_strlit("1");
            }
            let ghost before = text@;
            if (byte / weight) % 2 == 1 {
                text.append("1");
            } else {
                text.append("0");
            }
            assert(text@.len() == before.len() + 1);
            assert(text@[before.len() as int] == bit_char(byte, k as int));
            assert forall|j: int| 0 <= j < text@.len() implies text@[j] == bit_char(
                bytes@[j / 8],
                j % 8,
            ) by {
                if j < before.len() {
                    assert(text@[j] == before[j]);
                }
            }
            k = k + 1;
            weight = weight / 2;
        }
        i = i + 1;
    }
    assert(text@ =~= binary_text(bytes@));
    text
}

/// A run of `n` spaces.
pub fn spaces(n: u64) -> (text: String)
    ensures
        text@ == spaces_text(n as nat),
{
    let mut text = String::new();
    let mut i: u64 = 0;
    while i < n
        invariant
            i <= n,
            text@ == spaces_text(i as nat),
        decreases n - i,
    {
        proof {
            reveal_strlit(" ");
        }
        text.append(" ");
        i = i + 1;
        assert(text@ =~= spaces_text(i as nat));
    }
    text
}

} // verus!

//! Validation of the caller-supplied target hash: a scan only ever starts
//! with a trimmed, lowercase string of exactly forty hexadecimal digits.

use vstd::prelude::*;
use vstd::string::StringExecFns;
use crate::text::is_hex_digit;
use crate::text::is_hex_digit_char;
use crate::text::lower_hex_char;
use crate::text::lower_hex_seq;
use crate::text::trim;
use crate::text::trim_seq;

verus! {

/// A well-formed target input: exactly forty hexadecimal digits, in either
/// letter case.
pub open spec fn is_valid_target_input(s: Seq<char>) -> bool {
    s.len() == 40 && (forall|i: int| 0 <= i < s.len() ==> is_hex_digit_char(#[trigger] s[i]))
}

/// A normalized target: exactly forty lowercase hexadecimal digits.
pub open spec fn is_normalized_target(s: Seq<char>) -> bool {
    s.len() == 40 && (forall|i: int|
        0 <= i < s.len() ==> is_hex_digit_char(#[trigger] s[i]) && lower_hex_char(s[i]) == s[i])
}

/// The single-character string holding the lowercase form of a hexadecimal
/// digit.
fn lower_hex_str(c: char) -> (r: &'static str)
    requires
        is_hex_digit_char(c),
    ensures
        r@ == seq![lower_hex_char(c)],
{
    let r: &'static str = match c {
        '0' => "0",
        '1' => "1",
        '2' => "2",
        '3' => "3",
        '4' => "4",
        '5' => "5",
        '6' => "6",
        '7' => "7",
        '8' => "8",
        '9' => "9",
        'a' => "a",
        'b' => "b",
        'c' => "c",
        'd' => "d",
        'e' => "e",
        'f' => "f",
        'A' => "a",
        'B' => "b",
        'C' => "c",
        'D' => "d",
        'E' => "e",
        _ => "f",
    };
    proof {
        reveal_strlit("0");
        reveal_strlit("1");
        reveal_strlit("2");
        reveal_strlit("3");
        reveal_strlit("4");
        reveal_strlit("5");
        reveal_strlit("6");
        reveal_strlit("7");
        reveal_strlit("8");
        reveal_strlit("9");
        reveal_strlit("a");
        reveal_strlit("b");
        reveal_strlit("c");
        reveal_strlit("d");
        reveal_strlit("e");
        reveal_strlit("f");
        assert(r@ =~= seq![lower_hex_char(c)]);
    }
    r
}

/// Validates and normalizes a target hash input: trims surrounding
/// whitespace, requires exactly forty hexadecimal digits, and case-folds
/// letters to lowercase. Returns nothing exactly when the trimmed input has
/// the wrong length or holds a character that is no hexadecimal digit.
pub fn normalize_target(input: &str) -> (r: Option<String>)
    ensures
        r is Some <==> is_valid_target_input(trim_seq(input@)),
        r matches Some(t) ==> t@ == lower_hex_seq(trim_seq(input@)) && is_normalized_target(t@),
{
    let trimmed = trim(input);
    let len = trimmed.as_str().unicode_len();
    if len != 40 {
        return None;
    }
    let mut out = String::new();
    let mut i: usize = 0;
    while i < 40
        invariant
            i <= 40,
            trimmed@ == trim_seq(input@),
            trimmed@.len() == 40,
            forall|j: int| 0 <= j < i ==> is_hex_digit_char(#[trigger] trimmed@[j]),
            out@ == lower_hex_seq(trimmed@).subrange(0, i as int),
        decreases 40 - i,
    {
        let c = trimmed.as_str().get_char(i);
        if !is_hex_digit(c) {
            return None;
        }
        let piece = lower_hex_str(c);
        out.append(piece);
        proof {
            assert(out@ =~= lower_hex_seq(trimmed@).subrange(0, i as int + 1));
        }
        i = i + 1;
    }
    proof {
        assert(out@ =~= lower_hex_seq(trimmed@));
        assert forall|j: int| 0 <= j < out@.len() implies is_hex_digit_char(#[trigger] out@[j])
            && lower_hex_char(out@[j]) == out@[j] by {
            assert(out@[j] == lower_hex_char(trimmed@[j]));
            assert(is_hex_digit_char(trimmed@[j]));
        }
    }
    Some(out)
}

/// Whether two texts agree up to hexadecimal letter case.
pub open spec fn same_up_to_hex_case(a: Seq<char>, b: Seq<char>) -> bool {
    a.len() == b.len() && (forall|i: int|
        0 <= i < a.len() ==> lower_hex_char(#[trigger] a[i]) == lower_hex_char(b[i]))
}

/// Case-insensitivity of target handling: two target inputs that differ only
/// in hexadecimal letter case normalize to the same lowercase target, and so
/// match exactly the same candidate digests.
pub proof fn lemma_normalize_case_insensitive(a: Seq<char>, b: Seq<char>)
    requires
        same_up_to_hex_case(a, b),
    ensures
        lower_hex_seq(a) == lower_hex_seq(b),
{
    assert(lower_hex_seq(a) =~= lower_hex_seq(b));
}

} // verus!

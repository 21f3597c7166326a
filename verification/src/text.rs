//! Plain-text helpers the scan relies on: trimming whitespace from candidate
//! lines, rendering counters as decimal text for log messages, and
//! classifying / case-folding hexadecimal digits for target validation.

use vstd::prelude::*;

verus! {

/// The whitespace characters that trimming removes from the ends of a line.
pub open spec fn is_space_char(c: char) -> bool {
    c == ' ' || c == '\t' || c == '\n' || c == '\r' || c == '\u{b}' || c == '\u{c}'
}

/// Runtime test for [`is_space_char`].
pub fn is_space(c: char) -> (r: bool)
    ensures
        r == is_space_char(c),
{
    c == ' ' || c == '\t' || c == '\n' || c == '\r' || c == '\u{b}' || c == '\u{c}'
}

/// The sequence with leading whitespace removed.
pub open spec fn trim_front(s: Seq<char>) -> Seq<char>
    decreases s.len(),
{
    if s.len() > 0 && is_space_char(s[0]) {
        trim_front(s.drop_first())
    } else {
        s
    }
}

/// The sequence with trailing whitespace removed.
pub open spec fn trim_back(s: Seq<char>) -> Seq<char>
    decreases s.len(),
{
    if s.len() > 0 && is_space_char(s.last()) {
        trim_back(s.drop_last())
    } else {
        s
    }
}

/// The sequence with whitespace removed from both ends.
pub open spec fn trim_seq(s: Seq<char>) -> Seq<char> {
    trim_back(trim_front(s))
}

/// Removes leading and trailing whitespace from a line of text.
pub fn trim(s: &str) -> (r: String)
    ensures
        r@ == trim_seq(s@),
{
    let len: usize = s.unicode_len();
    proof {
        assert(s@.subrange(0, len as int) =~= s@);
    }
    let mut front: usize = 0;
    while front < len && is_space(s.get_char(front))
        invariant
            0 <= front <= len,
            len == s@.len(),
            trim_front(s@) == trim_front(s@.subrange(front as int, len as int)),
        decreases len - front,
    {
        proof {
            let tail = s@.subrange(front as int, len as int);
            assert(tail[0] == s@[front as int]);
            assert(tail.drop_first() =~= s@.subrange(front as int + 1, len as int));
        }
        front = front + 1;
    }
    proof {
        let tail = s@.subrange(front as int, len as int);
        if front < len {
            assert(tail[0] == s@[front as int]);
        }
        assert(trim_front(tail) == tail);
    }
    let mut back: usize = len;
    while back > front && is_space(s.get_char(back - 1))
        invariant
            front <= back <= len,
            len == s@.len(),
            front < len ==> !is_space_char(s@[front as int]),
            trim_back(s@.subrange(front as int, len as int)) == trim_back(
                s@.subrange(front as int, back as int),
            ),
        decreases back,
    {
        proof {
            let cur = s@.subrange(front as int, back as int);
            assert(cur.last() == s@[back as int - 1]);
            assert(cur.drop_last() =~= s@.subrange(front as int, back as int - 1));
        }
        back = back - 1;
    }
    proof {
        let cur = s@.subrange(front as int, back as int);
        if back > front {
            assert(cur.last() == s@[back as int - 1]);
        }
        assert(trim_back(cur) == cur);
    }
    let piece = s.substring_char(front, back);
    piece.to_owned()
}

/// The decimal digit character for a value below ten.
pub open spec fn digit_char(d: nat) -> char {
    if d == 0 {
        '0'
    } else if d == 1 {
        '1'
    } else if d == 2 {
        '2'
    } else if d == 3 {
        '3'
    } else if d == 4 {
        '4'
    } else if d == 5 {
        '5'
    } else if d == 6 {
        '6'
    } else if d == 7 {
        '7'
    } else if d == 8 {
        '8'
    } else {
        '9'
    }
}

/// The usual decimal rendering of a number, most significant digit first,
/// with no leading zeros (a single `'0'` for zero).
pub open spec fn dec_rep(n: nat) -> Seq<char>
    decreases n,
{
    if n < 10 {
        seq![digit_char(n)]
    } else {
        dec_rep(n / 10).push(digit_char(n % 10))
    }
}

/// The characters of a digit buffer read back-to-front (the buffer stores the
/// least significant digit first).
pub open spec fn rev_digit_chars(ds: Seq<u8>) -> Seq<char> {
    Seq::new(ds.len(), |i: int| digit_char(ds[ds.len() - 1 - i] as nat))
}

/// The single-character string for a decimal digit value.
pub fn digit_str(d: u8) -> (r: &'static str)
    requires
        d < 10,
    ensures
        r@ == seq![digit_char(d as nat)],
{
    let r: &'static str = match d {
        0 => "0",
        1 => "1",
        2 => "2",
        3 => "3",
        4 => "4",
        5 => "5",
        6 => "6",
        7 => "7",
        8 => "8",
        _ => "9",
    };
    proof {
        reveal_strlit("0");
        reveal_strlit("1");
        reveal_strlit("2");
        reveal_strlit("3");
        reveal_strlit("4");
        reveal_strlit("5");
        reveal_strlit("6");
        reveal_strlit("7");
        reveal_strlit("8");
        reveal_strlit("9");
        assert(r@ =~= seq![digit_char(d as nat)]);
    }
    r
}

/// Renders a counter as decimal text.
pub fn usize_to_string(n: usize) -> (r: String)
    ensures
        r@ == dec_rep(n as nat),
{
    let mut digits: Vec<u8> = Vec::new();
    let mut m: usize = n;
    while m >= 10
        invariant
            dec_rep(n as nat) == dec_rep(m as nat) + rev_digit_chars(digits@),
            forall|j: int| 0 <= j < digits@.len() ==> digits@[j] < 10,
        decreases m,
    {
        let d: u8 = (m % 10) as u8;
        proof {
            let ds = digits@;
            assert(rev_digit_chars(ds.push(d)) =~= seq![digit_char(d as nat)] + rev_digit_chars(
                ds,
            ));
            assert(dec_rep(m as nat) == dec_rep((m as nat) / 10).push(
                digit_char((m as nat) % 10),
            ));
            assert(dec_rep(m as nat) =~= dec_rep((m as nat) / 10) + seq![digit_char(d as nat)]);
            assert(dec_rep((m as nat) / 10) + (seq![digit_char(d as nat)] + rev_digit_chars(ds))
                =~= (dec_rep((m as nat) / 10) + seq![digit_char(d as nat)]) + rev_digit_chars(ds));
        }
        digits.push(d);
        m = m / 10;
    }
    let last: u8 = m as u8;
    proof {
        let ds = digits@;
        assert(rev_digit_chars(ds.push(last)) =~= seq![digit_char(last as nat)] + rev_digit_chars(
            ds,
        ));
        assert(dec_rep(m as nat) =~= seq![digit_char(last as nat)]);
    }
    digits.push(last);
    let ghost rev = rev_digit_chars(digits@);
    proof {
        assert(dec_rep(n as nat) == rev);
    }
    let mut r = String::new();
    let count: usize = digits.len();
    let mut i: usize = count;
    while i > 0
        invariant
            i <= count,
            count == digits@.len(),
            rev == rev_digit_chars(digits@),
            rev.len() == count,
            forall|j: int| 0 <= j < digits@.len() ==> digits@[j] < 10,
            r@ == rev.subrange(0, count - i),
        decreases i,
    {
        i = i - 1;
        let ds = digit_str(digits[i]);
        proof {
            assert(rev[count - 1 - i] == digit_char(digits@[i as int] as nat));
            assert(rev.subrange(0, count - i) =~= rev.subrange(0, count - i - 1) + seq![
                rev[count - 1 - i],
            ]);
        }
        r.append(ds);
    }
    proof {
        assert(r@ =~= rev);
    }
    r
}

/// Whether a character is a hexadecimal digit, in either letter case.
pub open spec fn is_hex_digit_char(c: char) -> bool {
    (48 <= c as u32 && c as u32 <= 57)  // '0' ..= '9'
    || (97 <= c as u32 && c as u32 <= 102)  // 'a' ..= 'f'
    || (65 <= c as u32 && c as u32 <= 70)  // 'A' ..= 'F'

}

/// Runtime test for [`is_hex_digit_char`].
pub fn is_hex_digit(c: char) -> (r: bool)
    ensures
        r == is_hex_digit_char(c),
{
    let u = c as u32;
    (48 <= u && u <= 57) || (97 <= u && u <= 102) || (65 <= u && u <= 70)
}

/// Case-folds an upper-case hexadecimal letter; leaves every other character
/// unchanged.
pub open spec fn lower_hex_char(c: char) -> char {
    if c == 'A' {
        'a'
    } else if c == 'B' {
        'b'
    } else if c == 'C' {
        'c'
    } else if c == 'D' {
        'd'
    } else if c == 'E' {
        'e'
    } else if c == 'F' {
        'f'
    } else {
        c
    }
}

/// Character-wise case folding of hexadecimal text.
pub open spec fn lower_hex_seq(s: Seq<char>) -> Seq<char> {
    s.map_values(|c: char| lower_hex_char(c))
}

/// Runtime twin of [`lower_hex_char`].
pub fn to_lower_hex(c: char) -> (r: char)
    ensures
        r == lower_hex_char(c),
{
    match c {
        'A' => 'a',
        'B' => 'b',
        'C' => 'c',
        'D' => 'd',
        'E' => 'e',
        'F' => 'f',
        _ => c,
    }
}

} // verus!

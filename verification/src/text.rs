//! Character sequences: decimal numerals, blank labels and placeholder names.

use vstd::prelude::*;

verus! {

/// White space as Unicode defines it (the property `White_Space`).
pub open spec fn is_space(c: char) -> bool {
    let u = c as u32;
    ||| 0x09 <= u <= 0x0d
    ||| u == 0x20
    ||| u == 0x85
    ||| u == 0xa0
    ||| u == 0x1680
    ||| 0x2000 <= u <= 0x200a
    ||| u == 0x2028
    ||| u == 0x2029
    ||| u == 0x202f
    ||| u == 0x205f
    ||| u == 0x3000
}

/// A label is blank when nothing but white space stands in it.
pub open spec fn blank(s: Seq<char>) -> bool {
    forall|i: int| 0 <= i < s.len() ==> is_space(#[trigger] s[i])
}

/// The decimal digit that stands for `d`, for `d` below ten.
pub open spec fn digit_char(d: nat) -> char {
    if d == 0 {
        '0'
    } else if d == 1 {
        '1'
    } else if d == 2 {
        '2'
    } else if d == 3 {
        '3'
    } else if d == 4 {
        '4'
    } else if d == 5 {
        '5'
    } else if d == 6 {
        '6'
    } else if d == 7 {
        '7'
    } else if d == 8 {
        '8'
    } else {
        '9'
    }
}

/// The decimal numeral of `n`, without sign and without leading zeros.
pub open spec fn digits(n: nat) -> Seq<char>
    decreases n,
{
    if n < 10 {
        seq![digit_char(n)]
    } else {
        digits(n / 10).push(digit_char(n % 10))
    }
}

/// The decimal numeral of an integer: a minus sign before the digits of a
/// negative number.
pub open spec fn int_text(i: int) -> Seq<char> {
    if i < 0 {
        seq!['-'] + digits((-i) as nat)
    } else {
        digits(i as nat)
    }
}

/// The prefix that marks a generated column name.
pub open spec fn placeholder_prefix() -> Seq<char> {
    seq!['U', 'n', 'n', 'a', 'm', 'e', 'd', '_']
}

/// The generated name of the column at `index`.
pub open spec fn placeholder(index: nat) -> Seq<char> {
    placeholder_prefix() + digits(index)
}

/// Whether `s` begins with the placeholder prefix.
pub open spec fn is_placeholder(s: Seq<char>) -> bool {
    placeholder_prefix().is_prefix_of(s)
}

/// Tells whether `c` is white space.
pub fn is_whitespace_char(c: char) -> (b: bool)
    ensures
        b == is_space(c),
{
    let u: u32 = c as u32;
    (0x09 <= u && u <= 0x0d) || u == 0x20 || u == 0x85 || u == 0xa0 || u == 0x1680 || (0x2000 <= u
        && u <= 0x200a) || u == 0x2028 || u == 0x2029 || u == 0x202f || u == 0x205f || u == 0x3000
}

/// Tells whether `s` is blank: empty, or white space throughout.
pub fn is_blank(s: &str) -> (b: bool)
    ensures
        b == blank(s@),
{
    let n: usize = s.unicode_len();
    let mut i: usize = 0;
    while i < n
        invariant
            n == s@.len(),
            i <= n,
            forall|j: int| 0 <= j < i ==> is_space(#[trigger] s@[j]),
        decreases n - i,
    {
        if !is_whitespace_char(s.get_char(i)) {
            return false;
        }
        i += 1;
    }
    true
}

/// Tells whether `s` begins with the placeholder prefix.
pub fn has_placeholder_prefix(s: &str) -> (b: bool)
    ensures
        b == is_placeholder(s@),
{
    let prefix: &str = "Unnamed_";
    proof {
        reveal_strlit("Unnamed_");
        assert(prefix@ =~= placeholder_prefix());
    }
    let n: usize = s.unicode_len();
    if n < 8 {
        return false;
    }
    let mut i: usize = 0;
    while i < 8
        invariant
            prefix@ == placeholder_prefix(),
            n == s@.len(),
            8 <= n,
            i <= 8,
            forall|j: int| 0 <= j < i ==> s@[j] == #[trigger] placeholder_prefix()[j],
        decreases 8 - i,
    {
        if s.get_char(i) != prefix.get_char(i) {
            return false;
        }
        i += 1;
    }
    proof {
        assert(s@.subrange(0, 8) =~= placeholder_prefix());
    }
    true
}

/// The one-character string of the digit `d`.
fn digit_str(d: u64) -> (s: &'static str)
    requires
        d < 10,
    ensures
        s@ == seq![digit_char(d as nat)],
{
    proof {
        reveal_strlit("0");
        reveal_strlit("1");
        reveal_strlit("2");
        reveal_strlit("3");
        reveal_strlit("4");
        reveal_strlit("5");
        reveal_strlit("6");
        reveal_strlit("7");
        reveal_strlit("8");
        reveal_strlit("9");
    }
    let s: &'static str = if d == 0 {
        "0"
    } else if d == 1 {
        "1"
    } else if d == 2 {
        "2"
    } else if d == 3 {
        "3"
    } else if d == 4 {
        "4"
    } else if d == 5 {
        "5"
    } else if d == 6 {
        "6"
    } else if d == 7 {
        "7"
    } else if d == 8 {
        "8"
    } else {
        "9"
    };
    assert(s@ =~= seq![digit_char(d as nat)]);
    s
}

/// Writes `n` in decimal.
pub fn decimal_text(n: u64) -> (s: String)
    ensures
        s@ == digits(n as nat),
    decreases n,
{
    if n < 10 {
        String::from_str(digit_str(n))
    } else {
        let mut s: String = decimal_text(n / 10);
        s.append(digit_str(n % 10));
        assert(s@ =~= digits(n as nat));
        s
    }
}

/// Writes a signed integer in decimal.
pub fn signed_text(i: i64) -> (s: String)
    ensures
        s@ == int_text(i as int),
{
    if i >= 0 {
        decimal_text(i as u64)
    } else {
        let magnitude: u64 = ((-(i + 1)) as u64) + 1;
        let mut s: String = String::from_str("-");
        proof {
            reveal_strlit("-");
        }
        let body: String = decimal_text(magnitude);
        s.append(body.as_str());
        assert(s@ =~= int_text(i as int));
        s
    }
}

/// The generated name of the column at `index`.
pub fn placeholder_name(index: usize) -> (s: String)
    ensures
        s@ == placeholder(index as nat),
{
    let mut s: String = String::from_str("Unnamed_");
    proof {
        reveal_strlit("Unnamed_");
        assert(s@ =~= placeholder_prefix());
    }
    let number: String = decimal_text(index as u64);
    s.append(number.as_str());
    s
}

} // verus!

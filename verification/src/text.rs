use vstd::prelude::*;
use vstd::string::StringExecFns;

verus! {

/// Appends one character to a string (`String::push`).
#[verifier::external_body]
pub(crate) fn push_char(s: &mut String, c: char)
    ensures
        final(s)@ == old(s)@.push(c),
{
    s.push(c);
}

pub open spec fn digit_char(d: nat) -> char {
    ((48 + d) as u32) as char
}

/// Decimal digits of `n`, most significant first, without leading zeros.
pub open spec fn decimal_chars(n: nat) -> Seq<char>
    decreases n,
{
    if n < 10 {
        seq![digit_char(n)]
    } else {
        decimal_chars(n / 10).push(digit_char(n % 10))
    }
}

fn digit(d: u64) -> (c: char)
    requires
        d < 10,
    ensures
        c == digit_char(d as nat),
{
    match d {
        0 => '0',
        1 => '1',
        2 => '2',
        3 => '3',
        4 => '4',
        5 => '5',
        6 => '6',
        7 => '7',
        8 => '8',
        _ => '9',
    }
}

/// Appends the decimal digits of `n` to `s`.
pub fn push_decimal(s: &mut String, n: u64)
    ensures
        final(s)@ == old(s)@ + decimal_chars(n as nat),
    decreases n,
{
    if n < 10 {
        push_char(s, digit(n));
        assert(decimal_chars(n as nat) =~= seq![digit_char(n as nat)]);
    } else {
        push_decimal(s, n / 10);
        push_char(s, digit(n % 10));
    }
}

/// A string holding the literal text.
pub fn string_of(text: &str) -> (s: String)
    ensures
        s@ == text@,
{
    String::from_str(text)
}

/// Characters `str::trim` removes: those with the Unicode `White_Space` property.
pub open spec fn is_white_space(c: char) -> bool {
    let u = c as u32;
    (0x09 <= u && u <= 0x0d) || u == 0x20 || u == 0x85 || u == 0xa0 || u == 0x1680 || (0x2000
        <= u && u <= 0x200a) || u == 0x2028 || u == 0x2029 || u == 0x202f || u == 0x205f || u
        == 0x3000
}

pub fn white_space(c: char) -> (r: bool)
    ensures
        r == is_white_space(c),
{
    let u = c as u32;
    (0x09 <= u && u <= 0x0d) || u == 0x20 || u == 0x85 || u == 0xa0 || u == 0x1680 || (0x2000
        <= u && u <= 0x200a) || u == 0x2028 || u == 0x2029 || u == 0x202f || u == 0x205f || u
        == 0x3000
}

/// `start..end` is what remains of `s` after removing leading and trailing white space.
pub open spec fn is_trim_range(s: Seq<char>, start: int, end: int) -> bool {
    &&& 0 <= start <= end <= s.len()
    &&& forall|i: int| 0 <= i < start ==> is_white_space(#[trigger] s[i])
    &&& forall|i: int| end <= i < s.len() ==> is_white_space(#[trigger] s[i])
    &&& start < end ==> !is_white_space(s[start]) && !is_white_space(s[end - 1])
}

/// The text without leading and trailing white space.
pub open spec fn trimmed(s: Seq<char>) -> Seq<char> {
    let (start, end) = choose|start: int, end: int| is_trim_range(s, start, end);
    s.subrange(start, end)
}

pub proof fn lemma_trim_range_unique(s: Seq<char>, a: int, b: int, c: int, d: int)
    requires
        is_trim_range(s, a, b),
        is_trim_range(s, c, d),
    ensures
        s.subrange(a, b) == s.subrange(c, d),
{
    if a < b {
        if c < a {
            assert(is_white_space(s[c]));
        }
        if a < c {
            assert(is_white_space(s[a]));
        }
        if d < b {
            assert(is_white_space(s[b - 1]));
        }
        if b < d {
            assert(is_white_space(s[d - 1]));
        }
    } else if c < d {
        if a < d && d <= b {
        }
        assert(c < a || c >= b || c >= a);
        if c < a {
            assert(is_white_space(s[c]));
        } else {
            assert(is_white_space(s[c])) by {
                assert(b <= c || a <= c);
            }
        }
    }
    assert(s.subrange(a, b) =~= s.subrange(c, d));
}

/// Removes leading and trailing white space, as `str::trim` does.
pub fn trim(s: &str) -> (r: String)
    ensures
        r@ == trimmed(s@),
{
    let len = s.unicode_len();
    let mut start: usize = 0;
    while start < len && white_space(s.get_char(start))
        invariant
            len == s@.len(),
            start <= len,
            forall|i: int| 0 <= i < start ==> is_white_space(#[trigger] s@[i]),
        decreases len - start,
    {
        start += 1;
    }
    let mut end: usize = len;
    while end > start && white_space(s.get_char(end - 1))
        invariant
            len == s@.len(),
            start <= end <= len,
            forall|i: int| end <= i < len ==> is_white_space(#[trigger] s@[i]),
            start < len ==> !is_white_space(s@[start as int]),
        decreases end,
    {
        end -= 1;
    }
    assert(is_trim_range(s@, start as int, end as int));
    proof {
        let (a, b) = choose|a: int, b: int| is_trim_range(s@, a, b);
        lemma_trim_range_unique(s@, a, b, start as int, end as int);
    }
    let piece = s.substring_char(start, end);
    piece.to_owned()
}

} // verus!

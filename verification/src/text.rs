use vstd::prelude::*;

verus! {

/// Whether a character has the Unicode `White_Space` property: the controls U+0009 to U+000D,
/// space, next line (U+0085), no-break space (U+00A0), ogham space mark (U+1680), the spaces
/// U+2000 to U+200A, the line and paragraph separators (U+2028, U+2029), narrow no-break space
/// (U+202F), medium mathematical space (U+205F) and ideographic space (U+3000).
pub open spec fn unicode_white_space(c: char) -> bool {
    let n = c as u32;
    ||| 0x09 <= n <= 0x0d
    ||| n == 0x20
    ||| n == 0x85
    ||| n == 0xa0
    ||| n == 0x1680
    ||| 0x2000 <= n <= 0x200a
    ||| n == 0x2028
    ||| n == 0x2029
    ||| n == 0x202f
    ||| n == 0x205f
    ||| n == 0x3000
}

/// Decides whether a character is whitespace: calls `char::is_whitespace`, which answers
/// whether the character has the Unicode `White_Space` property; the contract spells that
/// property out as the characters that `unicode_white_space` lists.
#[verifier::external_body]
pub(crate) fn char_is_whitespace(c: char) -> (white: bool)
    ensures
        white == unicode_white_space(c),
{
    c.is_whitespace()
}

/// Appends a character: calls `String::push`, which adds the character at the end.
#[verifier::external_body]
pub(crate) fn string_push(s: &mut String, c: char)
    ensures
        final(s)@ == old(s)@.push(c),
{
    s.push(c);
}

/// The decimal digit character for a value below ten.
pub open spec fn digit_char(d: int) -> char {
    (48 + d) as char
}

/// The decimal representation of a number, most significant digit first, without leading zeros.
pub open spec fn decimal(n: nat) -> Seq<char>
    decreases n,
{
    if n < 10 {
        seq![digit_char(n as int)]
    } else {
        decimal(n / 10).push(digit_char((n % 10) as int))
    }
}

/// The character of a decimal digit.
fn digit_of(d: usize) -> (c: char)
    requires
        d < 10,
    ensures
        c == digit_char(d as int),
{
    ((48 + d) as u8) as char
}

/// Writes a number in decimal, most significant digit first, with no sign or padding.
pub(crate) fn usize_to_string(n: usize) -> (s: String)
    ensures
        s@ == decimal(n as nat),
{
    let mut digits: Vec<char> = Vec::new();
    let mut m: usize = n;
    proof {
        assert(decimal(n as nat) =~= decimal(m as nat) + digits@.reverse());
    }
    while m >= 10
        invariant
            decimal(n as nat) == decimal(m as nat) + digits@.reverse(),
        decreases m,
    {
        let ghost before = digits@;
        digits.push(digit_of(m % 10));
        proof {
            assert(digits@.reverse() =~= seq![digit_char((m % 10) as int)] + before.reverse());
            assert(decimal(m as nat) == decimal((m / 10) as nat).push(digit_char((m % 10) as int)));
            assert(decimal(n as nat) =~= decimal((m / 10) as nat) + digits@.reverse());
        }
        m = m / 10;
    }
    let ghost before = digits@;
    digits.push(digit_of(m));
    proof {
        assert(digits@.reverse() =~= seq![digit_char(m as int)] + before.reverse());
        assert(decimal(n as nat) =~= digits@.reverse());
    }
    let len = digits.len();
    let ghost all = digits@.reverse();
    let mut out = String::new();
    let mut k: usize = 0;
    while k < len
        invariant
            k <= len,
            len == digits.len(),
            all == digits@.reverse(),
            out@ == all.subrange(0, k as int),
        decreases len - k,
    {
        string_push(&mut out, digits[len - 1 - k]);
        proof {
            assert(all[k as int] == digits@[len - 1 - k]);
            assert(out@ =~= all.subrange(0, k + 1));
        }
        k += 1;
    }
    proof {
        assert(all.subrange(0, len as int) =~= all);
    }
    out
}

/// The characters of `s` without the whitespace at its start and at its end.
pub open spec fn trimmed(s: Seq<char>) -> Seq<char>
    decreases s.len(),
{
    if s.len() > 0 && unicode_white_space(s[0]) {
        trimmed(s.drop_first())
    } else if s.len() > 0 && unicode_white_space(s.last()) {
        trimmed(s.drop_last())
    } else {
        s
    }
}

/// Trimming a string whose whitespace ends are known gives the part between them.
proof fn lemma_trimmed(s: Seq<char>, a: int, b: int)
    requires
        0 <= a <= b <= s.len(),
        forall|k: int| 0 <= k < a ==> unicode_white_space(#[trigger] s[k]),
        forall|k: int| b <= k < s.len() ==> unicode_white_space(#[trigger] s[k]),
        a < b ==> !unicode_white_space(s[a]) && !unicode_white_space(s[b - 1]),
    ensures
        trimmed(s) == s.subrange(a, b),
    decreases s.len(),
{
    if a > 0 {
        lemma_trimmed(s.drop_first(), a - 1, b - 1);
        assert(s.drop_first().subrange(a - 1, b - 1) =~= s.subrange(a, b));
    } else if b < s.len() {
        if s.len() > 0 && unicode_white_space(s[0]) {
            assert(a == b);
            lemma_trimmed(s.drop_first(), 0, 0);
            assert(s.subrange(a, b) =~= Seq::<char>::empty());
            assert(s.drop_first().subrange(0, 0) =~= Seq::<char>::empty());
        } else {
            lemma_trimmed(s.drop_last(), a, b);
            assert(s.drop_last().subrange(a, b) =~= s.subrange(a, b));
        }
    } else {
        assert(s.subrange(a, b) =~= s);
        if a < b {
        } else {
            assert(s.len() == 0);
        }
    }
}

/// Finds where the text of `s` starts and ends once whitespace at both ends is left out.
pub(crate) fn trim_bounds(s: &str) -> (bounds: (usize, usize))
    ensures
        bounds.0 <= bounds.1 <= s@.len(),
        trimmed(s@) == s@.subrange(bounds.0 as int, bounds.1 as int),
{
    let len = s.unicode_len();
    let mut start: usize = 0;
    while start < len && char_is_whitespace(s.get_char(start))
        invariant
            len == s@.len(),
            start <= len,
            forall|k: int| 0 <= k < start ==> unicode_white_space(#[trigger] s@[k]),
        decreases len - start,
    {
        start += 1;
    }
    let mut end: usize = len;
    while end > start && char_is_whitespace(s.get_char(end - 1))
        invariant
            len == s@.len(),
            start <= end <= len,
            forall|k: int| end <= k < len ==> unicode_white_space(#[trigger] s@[k]),
        decreases end,
    {
        end -= 1;
    }
    proof {
        if start < end {
            assert(!unicode_white_space(s@[start as int]));
        }
        lemma_trimmed(s@, start as int, end as int);
    }
    (start, end)
}

/// Whether two strings hold the same characters.
pub(crate) fn text_equals(a: &str, b: &str) -> (same: bool)
    ensures
        same == (a@ == b@),
{
    let len = a.unicode_len();
    if len != b.unicode_len() {
        return false;
    }
    let mut i: usize = 0;
    while i < len
        invariant
            len == a@.len() == b@.len(),
            i <= len,
            forall|k: int| 0 <= k < i ==> a@[k] == b@[k],
        decreases len - i,
    {
        if a.get_char(i) != b.get_char(i) {
            return false;
        }
        i += 1;
    }
    assert(a@ =~= b@);
    true
}

/// Whether a string holds a character.
pub(crate) fn text_contains(s: &str, c: char) -> (found: bool)
    ensures
        found == s@.contains(c),
{
    let len = s.unicode_len();
    let mut i: usize = 0;
    while i < len
        invariant
            len == s@.len(),
            i <= len,
            forall|k: int| 0 <= k < i ==> s@[k] != c,
        decreases len - i,
    {
        if s.get_char(i) == c {
            return true;
        }
        i += 1;
    }
    false
}

} // verus!

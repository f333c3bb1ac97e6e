//! Character classes of the source language.

use vstd::prelude::*;

verus! {

/// The code points that carry the Unicode `White_Space` property.
pub open spec fn is_space_char(c: char) -> bool {
    let n = c as u32;
    ||| 0x09 <= n <= 0x0d
    ||| n == 0x20
    ||| n == 0x85
    ||| n == 0xa0
    ||| n == 0x1680
    ||| 0x2000 <= n <= 0x200a
    ||| n == 0x2028
    ||| n == 0x2029
    ||| n == 0x202f
    ||| n == 0x205f
    ||| n == 0x3000
}

/// Whether `ch` is blank: a space, a tab, a line break or any other
/// character with the `White_Space` property.
pub fn is_space(ch: char) -> (r: bool)
    ensures
        r == is_space_char(ch),
{
    let n: u32 = ch as u32;
    (0x09 <= n && n <= 0x0d) || n == 0x20 || n == 0x85 || n == 0xa0 || n == 0x1680 || (0x2000 <= n
        && n <= 0x200a) || n == 0x2028 || n == 0x2029 || n == 0x202f || n == 0x205f || n == 0x3000
}

/// ASCII letters and the underscore: the characters that may start an
/// identifier.
pub open spec fn is_ident_char(c: char) -> bool {
    ('a' <= c <= 'z') || ('A' <= c <= 'Z') || c == '_'
}

pub fn is_ident(ch: char) -> (r: bool)
    ensures
        r == is_ident_char(ch),
{
    ('a' <= ch && ch <= 'z') || ('A' <= ch && ch <= 'Z') || ch == '_'
}

/// The ASCII decimal digits.
pub open spec fn is_digit_char(c: char) -> bool {
    '0' <= c <= '9'
}

pub fn is_digit(ch: char) -> (r: bool)
    ensures
        r == is_digit_char(ch),
{
    '0' <= ch && ch <= '9'
}

/// The value of a decimal digit.
pub open spec fn digit_value(c: char) -> int {
    c as u32 - '0' as u32
}

pub fn to_digit(ch: char) -> (d: i32)
    requires
        is_digit_char(ch),
    ensures
        d == digit_value(ch),
        0 <= d <= 9,
{
    let n: u32 = ch as u32 - '0' as u32;
    n as i32
}

/// The punctuation and symbol characters.
pub open spec fn is_mark_char(c: char) -> bool {
    ||| c == '='
    ||| c == '~'
    ||| c == '|'
    ||| c == '-'
    ||| c == '^'
    ||| c == '\\'
    ||| c == '!'
    ||| c == '"'
    ||| c == '#'
    ||| c == '$'
    ||| c == '%'
    ||| c == '&'
    ||| c == '\''
    ||| c == '('
    ||| c == ')'
    ||| c == '{'
    ||| c == '}'
    ||| c == '['
    ||| c == ']'
    ||| c == '`'
    ||| c == '@'
    ||| c == '*'
    ||| c == ':'
    ||| c == '/'
    ||| c == '+'
    ||| c == '<'
    ||| c == '>'
    ||| c == ','
    ||| c == '.'
    ||| c == '?'
}

pub fn is_mark(ch: char) -> (r: bool)
    ensures
        r == is_mark_char(ch),
{
    ch == '=' || ch == '~' || ch == '|' || ch == '-' || ch == '^' || ch == '\\' || ch == '!'
        || ch == '"' || ch == '#' || ch == '$' || ch == '%' || ch == '&' || ch == '\'' || ch
        == '(' || ch == ')' || ch == '{' || ch == '}' || ch == '[' || ch == ']' || ch == '`' || ch
        == '@' || ch == '*' || ch == ':' || ch == '/' || ch == '+' || ch == '<' || ch == '>' || ch
        == ',' || ch == '.' || ch == '?'
}

/// Whether two runs of characters are the same text.
pub fn same_text(a: &[char], b: &[char]) -> (r: bool)
    ensures
        r == (a@ == b@),
{
    if a.len() != b.len() {
        return false;
    }
    let mut i: usize = 0;
    while i < a.len()
        invariant
            a@.len() == b@.len(),
            i <= a@.len(),
            forall|k: int| 0 <= k < i ==> a@[k] == b@[k],
        decreases a@.len() - i,
    {
        if a[i] != b[i] {
            return false;
        }
        i += 1;
    }
    assert(a@ =~= b@);
    true
}

/// The characters of a string, in order.
pub fn text_of(s: &str) -> (v: Vec<char>)
    ensures
        v@ == s@,
{
    let n: usize = s.unicode_len();
    let mut v: Vec<char> = Vec::new();
    let mut i: usize = 0;
    while i < n
        invariant
            n == s@.len(),
            i <= n,
            v@ == s@.subrange(0, i as int),
        decreases n - i,
    {
        v.push(s.get_char(i));
        assert(v@ =~= s@.subrange(0, i + 1));
        i += 1;
    }
    assert(v@ =~= s@);
    v
}

/// A copy of a run of characters.
pub fn copy_text(s: &[char]) -> (v: Vec<char>)
    ensures
        v@ == s@,
{
    let mut v: Vec<char> = Vec::new();
    let mut i: usize = 0;
    while i < s.len()
        invariant
            i <= s@.len(),
            v@ == s@.subrange(0, i as int),
        decreases s@.len() - i,
    {
        v.push(s[i]);
        assert(v@ =~= s@.subrange(0, i + 1));
        i += 1;
    }
    assert(v@ =~= s@);
    v
}

/// Appends the characters of `src` from position `from` up to `to`.
pub fn append_text(dst: &mut Vec<char>, src: &[char], from: usize, to: usize)
    requires
        from <= to <= src@.len(),
    ensures
        final(dst)@ == old(dst)@ + src@.subrange(from as int, to as int),
{
    let mut i: usize = from;
    assert(dst@ =~= old(dst)@ + src@.subrange(from as int, from as int));
    while i < to
        invariant
            from <= i <= to <= src@.len(),
            dst@ == old(dst)@ + src@.subrange(from as int, i as int),
        decreases to - i,
    {
        dst.push(src[i]);
        assert(dst@ =~= old(dst)@ + src@.subrange(from as int, i + 1));
        i += 1;
    }
}

} // verus!

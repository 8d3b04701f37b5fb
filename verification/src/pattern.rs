//! From a strftime-style format to the regular expression that finds a
//! timestamp of that shape inside a line.

use vstd::prelude::*;
use crate::text::to_chars;

verus! {

/// The character that opens a directive.
pub const PERCENT: char = '%';

/// The regular-expression fragment that stands for the directive `%c`, for
/// each directive that is recognised.
pub open spec fn directive_fragment(c: char) -> Option<Seq<char>> {
    if c == 'Y' {
        Some("\\d{4}"@)
    } else if c == 'C' || c == 'y' || c == 'm' || c == 'd' || c == 'H' || c == 'I' || c == 'M' || c == 'S' {
        Some("\\d{2}"@)
    } else if c == 'e' || c == 'k' || c == 'l' {
        Some("[ \\d]\\d"@)
    } else if c == 'j' {
        Some("\\d{3}"@)
    } else if c == 'b' || c == 'h' || c == 'a' {
        Some("[A-Za-z]{3}"@)
    } else if c == 'B' || c == 'A' {
        Some("[A-Za-z]+"@)
    } else if c == 'p' || c == 'P' {
        Some("[AaPp][Mm]"@)
    } else if c == 'f' {
        Some("\\d+"@)
    } else if c == 'z' {
        Some("[+-]\\d{2}:?\\d{2}"@)
    } else if c == 'Z' {
        Some("[A-Za-z]+"@)
    } else if c == 't' {
        Some("\\t"@)
    } else if c == 'n' {
        Some("\\n"@)
    } else if c == '%' {
        Some("%"@)
    } else {
        None
    }
}

/// Whether `c` has a meaning of its own in a regular expression.
pub open spec fn is_meta(c: char) -> bool {
    c == '\\' || c == '.' || c == '+' || c == '*' || c == '?' || c == '(' || c == ')' || c == '|'
        || c == '[' || c == ']' || c == '{' || c == '}' || c == '^' || c == '$' || c == '#'
        || c == '&' || c == '-' || c == '~'
}

/// The fragment that matches the character `c` itself.
pub open spec fn literal_fragment(c: char) -> Seq<char> {
    if is_meta(c) {
        seq!['\\', c]
    } else {
        seq![c]
    }
}

/// Whether a recognised directive stands at the head of `format`.
pub open spec fn directive_at_head(format: Seq<char>) -> bool {
    format.len() >= 2 && format[0] == PERCENT && directive_fragment(format[1]) is Some
}

/// The regular expression for `format`: the fragments of its directives and
/// of its other characters, in order.
pub open spec fn pattern_of(format: Seq<char>) -> Seq<char>
    decreases format.len(),
{
    if format.len() == 0 {
        Seq::empty()
    } else if directive_at_head(format) {
        directive_fragment(format[1])->Some_0 + pattern_of(format.skip(2))
    } else {
        literal_fragment(format[0]) + pattern_of(format.skip(1))
    }
}

/// Whether the directive `%c` occurs in `format`.
pub open spec fn has_directive(format: Seq<char>, c: char) -> bool
    decreases format.len(),
{
    if format.len() == 0 {
        false
    } else if directive_at_head(format) {
        format[1] == c || has_directive(format.skip(2), c)
    } else {
        has_directive(format.skip(1), c)
    }
}

/// Looks the directive `%c` up.
pub fn directive(c: char) -> (r: Option<&'static str>)
    ensures
        r is Some <==> directive_fragment(c) is Some,
        r is Some ==> r->Some_0@ == directive_fragment(c)->Some_0,
{
    match c {
        'Y' => Some("\\d{4}"),
        'C' | 'y' | 'm' | 'd' | 'H' | 'I' | 'M' | 'S' => Some("\\d{2}"),
        'e' | 'k' | 'l' => Some("[ \\d]\\d"),
        'j' => Some("\\d{3}"),
        'b' | 'h' | 'a' => Some("[A-Za-z]{3}"),
        'B' | 'A' => Some("[A-Za-z]+"),
        'p' | 'P' => Some("[AaPp][Mm]"),
        'f' => Some("\\d+"),
        'z' => Some("[+-]\\d{2}:?\\d{2}"),
        'Z' => Some("[A-Za-z]+"),
        't' => Some("\\t"),
        'n' => Some("\\n"),
        '%' => Some("%"),
        _ => None,
    }
}

/// Whether `c` must be escaped to stand for itself.
pub fn needs_escape(c: char) -> (r: bool)
    ensures
        r == is_meta(c),
{
    c == '\\' || c == '.' || c == '+' || c == '*' || c == '?' || c == '(' || c == ')' || c == '|'
        || c == '[' || c == ']' || c == '{' || c == '}' || c == '^' || c == '$' || c == '#'
        || c == '&' || c == '-' || c == '~'
}

/// The regular expression for `format`.
pub fn to_pattern(format: &str) -> (r: String)
    ensures
        r@ == pattern_of(format@),
{
    let chars = to_chars(format);
    let mut out = String::new();
    let mut i: usize = 0;
    proof {
        assert(chars@.skip(0) =~= chars@);
        assert(out@ + pattern_of(chars@) =~= pattern_of(chars@));
    }
    while i < chars.len()
        invariant
            i <= chars@.len(),
            out@ + pattern_of(chars@.skip(i as int)) == pattern_of(chars@),
        decreases chars@.len() - i,
    {
        let ghost rest = chars@.skip(i as int);
        let ghost before = out@;
        let c = chars[i];
        let found: Option<&'static str> = if c == PERCENT && i + 1 < chars.len() {
            directive(chars[i + 1])
        } else {
            None
        };
        match found {
            Some(fragment) => {
                out.append(fragment);
                proof {
                    assert(rest[0] == c && rest[1] == chars@[i + 1]);
                    assert(directive_at_head(rest));
                    assert(rest.skip(2) =~= chars@.skip(i + 2));
                    assert(out@ + pattern_of(chars@.skip(i + 2)) =~= before + pattern_of(rest));
                }
                i += 2;
            },
            None => {
                if needs_escape(c) {
                    crate::text::push_char(&mut out, '\\');
                }
                crate::text::push_char(&mut out, c);
                proof {
                    assert(rest[0] == c);
                    if rest.len() >= 2 {
                        assert(rest[1] == chars@[i + 1]);
                    }
                    assert(!directive_at_head(rest));
                    assert(rest.skip(1) =~= chars@.skip(i + 1));
                    assert(out@ =~= before + literal_fragment(c));
                    assert(out@ + pattern_of(chars@.skip(i + 1)) =~= before + pattern_of(rest));
                }
                i += 1;
            },
        }
    }
    proof {
        assert(chars@.skip(i as int) =~= Seq::<char>::empty());
        assert(out@ + Seq::<char>::empty() =~= out@);
    }
    out
}

/// Tells whether the directive `%c` occurs in `format`.
pub fn contains_directive(format: &str, c: char) -> (r: bool)
    ensures
        r == has_directive(format@, c),
{
    let chars = to_chars(format);
    let mut i: usize = 0;
    proof {
        assert(chars@.skip(0) =~= chars@);
    }
    while i < chars.len()
        invariant
            i <= chars@.len(),
            chars@ == format@,
            has_directive(chars@.skip(i as int), c) == has_directive(chars@, c),
        decreases chars@.len() - i,
    {
        let ghost rest = chars@.skip(i as int);
        let head = chars[i];
        let found: Option<&'static str> = if head == PERCENT && i + 1 < chars.len() {
            directive(chars[i + 1])
        } else {
            None
        };
        if found.is_some() {
            proof {
                assert(rest[0] == head && rest[1] == chars@[i + 1]);
                assert(directive_at_head(rest));
                assert(rest.skip(2) =~= chars@.skip(i + 2));
            }
            if chars[i + 1] == c {
                return true;
            }
            i += 2;
        } else {
            proof {
                assert(rest[0] == head);
                if rest.len() >= 2 {
                    assert(rest[1] == chars@[i + 1]);
                }
                assert(!directive_at_head(rest));
                assert(rest.skip(1) =~= chars@.skip(i + 1));
            }
            i += 1;
        }
    }
    false
}

} // verus!

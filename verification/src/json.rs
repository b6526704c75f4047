//! JSON string literals: how text is quoted on the wire, and how a quoted
//! string is read back.

use crate::text::{lemma_occurs_index, occurs_at};
use vstd::prelude::*;

verus! {

/// The lower-case hexadecimal digit for `n`, where `0 <= n < 16`.
pub open spec fn hex_digit(n: int) -> char {
    seq!['0', '1', '2', '3', '4', '5', '6', '7', '8', '9', 'a', 'b', 'c', 'd', 'e', 'f'][n]
}

/// How one character stands inside a JSON string literal: the quote, the
/// backslash and the control characters below U+0020 are escaped, with the
/// short form where JSON has one; every other character stands for itself.
pub open spec fn escape_char(c: char) -> Seq<char> {
    if c == '"' {
        seq!['\\', '"']
    } else if c == '\\' {
        seq!['\\', '\\']
    } else if c == '\u{8}' {
        seq!['\\', 'b']
    } else if c == '\t' {
        seq!['\\', 't']
    } else if c == '\n' {
        seq!['\\', 'n']
    } else if c == '\u{c}' {
        seq!['\\', 'f']
    } else if c == '\r' {
        seq!['\\', 'r']
    } else if (c as int) < 0x20 {
        seq!['\\', 'u', '0', '0', hex_digit(c as int / 16), hex_digit(c as int % 16)]
    } else {
        seq![c]
    }
}

/// The characters of `s`, each escaped, in order.
pub open spec fn escape(s: Seq<char>) -> Seq<char>
    decreases s.len(),
{
    if s.len() == 0 {
        Seq::empty()
    } else {
        escape_char(s[0]) + escape(s.skip(1))
    }
}

/// The JSON string literal for `s`: its escaped characters between two quotes.
pub open spec fn quoted(s: Seq<char>) -> Seq<char> {
    seq!['"'] + escape(s) + seq!['"']
}

/// Calls `rocket::serde::json::to_string` on a string slice, and is believed
/// without proof. That function hands the slice to serde_json, which writes
/// into a byte vector a quote, the slice with each byte that its escape table
/// marks replaced by the escape of `escape_char`, and a quote. The table marks
/// the quote, the backslash and the bytes below 0x20, so the bytes of a
/// character beyond ASCII pass as they are. Writing into a vector does not
/// fail, so the result is always there.
#[verifier::external_body]
fn to_json_text(s: &str) -> (r: Option<String>)
    ensures
        r is Some,
        r matches Some(t) ==> t@ == quoted(s@),
{
    rocket::serde::json::to_string(&s).ok()
}

/// The JSON string literal for `s`.
pub fn quote(s: &str) -> (r: String)
    ensures
        r@ == quoted(s@),
{
    match to_json_text(s) {
        Some(t) => t,
        None => vstd::pervasive::unreached(),
    }
}

/// The value of a lower-case hexadecimal digit.
spec fn hex_value(c: char) -> Option<int> {
    if '0' <= c <= '9' {
        Some(c as int - '0' as int)
    } else if 'a' <= c <= 'f' {
        Some(c as int - 'a' as int + 10)
    } else {
        None
    }
}

/// Whether a control character has a two-character escape of its own.
spec fn has_short_escape(code: int) -> bool {
    code == 8 || code == 9 || code == 10 || code == 12 || code == 13
}

/// The character whose escape stands in `s` at `i`, and the index just behind
/// that escape. `None` where no character's escape stands there, as at a
/// closing quote.
spec fn unescape_char_at(s: Seq<char>, i: int) -> Option<(char, int)> {
    if i < 0 || i >= s.len() {
        None
    } else if s[i] == '"' {
        None
    } else if s[i] != '\\' {
        if s[i] as int >= 0x20 {
            Some((s[i], i + 1))
        } else {
            None
        }
    } else if i + 1 >= s.len() {
        None
    } else if s[i + 1] == '"' {
        Some(('"', i + 2))
    } else if s[i + 1] == '\\' {
        Some(('\\', i + 2))
    } else if s[i + 1] == 'b' {
        Some(('\u{8}', i + 2))
    } else if s[i + 1] == 't' {
        Some(('\t', i + 2))
    } else if s[i + 1] == 'n' {
        Some(('\n', i + 2))
    } else if s[i + 1] == 'f' {
        Some(('\u{c}', i + 2))
    } else if s[i + 1] == 'r' {
        Some(('\r', i + 2))
    } else if s[i + 1] == 'u' && i + 5 < s.len() && s[i + 2] == '0' && s[i + 3] == '0' && (s[i + 4]
        == '0' || s[i + 4] == '1') && hex_value(s[i + 5]) is Some {
        let code = hex_value(s[i + 4])->0 * 16 + hex_value(s[i + 5])->0;
        if has_short_escape(code) {
            None
        } else {
            Some((code as char, i + 6))
        }
    } else {
        None
    }
}

/// The text whose escaped form stands in `s` from `i` up to a closing quote,
/// and the index of that quote.
spec fn unescape_at(s: Seq<char>, i: int) -> Option<(Seq<char>, int)>
    decreases s.len() - i,
{
    if i < 0 || i >= s.len() {
        None
    } else if s[i] == '"' {
        Some((Seq::empty(), i))
    } else {
        match unescape_char_at(s, i) {
            None => None,
            Some((c, j)) => match unescape_at(s, j) {
                None => None,
                Some((t, end)) => Some((seq![c] + t, end)),
            },
        }
    }
}

/// `hex_value` reads back what `hex_digit` writes.
proof fn lemma_hex_round_trip(n: int)
    requires
        0 <= n < 16,
    ensures
        hex_value(hex_digit(n)) == Some(n),
{
}

/// `hex_digit` writes back what `hex_value` reads.
proof fn lemma_hex_digit_of_value(c: char)
    requires
        hex_value(c) is Some,
    ensures
        0 <= hex_value(c)->0 < 16,
        hex_digit(hex_value(c)->0) == c,
{
}

/// What `unescape_char_at` reads is a character whose escape stands there.
proof fn lemma_unescape_char_sound(s: Seq<char>, i: int)
    ensures
        unescape_char_at(s, i) matches Some((c, j)) ==> occurs_at(s, i, escape_char(c)) && j == i
            + escape_char(c).len(),
{
    if let Some((c, j)) = unescape_char_at(s, i) {
        if s[i] != '\\' {
            assert(s.subrange(i, i + 1) =~= seq![c]);
        } else if s[i + 1] == 'u' {
            let high = hex_value(s[i + 4])->0;
            let low = hex_value(s[i + 5])->0;
            lemma_hex_digit_of_value(s[i + 4]);
            lemma_hex_digit_of_value(s[i + 5]);
            assert(c as int == high * 16 + low);
            assert(c as int / 16 == high && c as int % 16 == low);
            assert(s.subrange(i, i + 6) =~= escape_char(c));
        } else {
            assert(s.subrange(i, i + 2) =~= escape_char(c));
        }
    }
}

/// Where the escape of `c` stands, `unescape_char_at` reads `c`.
proof fn lemma_unescape_char_complete(s: Seq<char>, i: int, c: char)
    requires
        occurs_at(s, i, escape_char(c)),
    ensures
        unescape_char_at(s, i) == Some((c, i + escape_char(c).len())),
{
    let e = escape_char(c);
    lemma_occurs_index(s, i, e, 0);
    if e.len() >= 2 {
        lemma_occurs_index(s, i, e, 1);
    }
    if e.len() == 6 {
        lemma_occurs_index(s, i, e, 2);
        lemma_occurs_index(s, i, e, 3);
        lemma_occurs_index(s, i, e, 4);
        lemma_occurs_index(s, i, e, 5);
        lemma_hex_round_trip(c as int / 16);
        lemma_hex_round_trip(c as int % 16);
        assert(hex_value(s[i + 4])->0 * 16 + hex_value(s[i + 5])->0 == c as int);
    }
}

/// What `unescape_at` reads is a text whose escaped form stands there, up to
/// a closing quote.
proof fn lemma_unescape_sound(s: Seq<char>, i: int)
    ensures
        unescape_at(s, i) matches Some((t, end)) ==> {
            &&& occurs_at(s, i, escape(t))
            &&& end == i + escape(t).len()
            &&& end < s.len()
            &&& s[end] == '"'
        },
    decreases s.len() - i,
{
    if let Some((t, end)) = unescape_at(s, i) {
        if s[i] == '"' {
            assert(s.subrange(i, i) =~= escape(t));
        } else {
            let (c, j) = unescape_char_at(s, i)->0;
            let (rest, _) = unescape_at(s, j)->0;
            lemma_unescape_char_sound(s, i);
            lemma_unescape_sound(s, j);
            assert(t.skip(1) =~= rest);
            assert(escape(t) == escape_char(c) + escape(rest));
            assert(s.subrange(i, end) =~= s.subrange(i, j) + s.subrange(j, end));
        }
    }
}

/// Where the escaped form of `t` stands, followed by a quote, `unescape_at`
/// reads `t`.
proof fn lemma_unescape_complete(s: Seq<char>, i: int, t: Seq<char>)
    requires
        occurs_at(s, i, escape(t)),
        i + escape(t).len() < s.len(),
        s[i + escape(t).len()] == '"',
    ensures
        unescape_at(s, i) == Some((t, i + escape(t).len())),
    decreases t.len(),
{
    if t.len() > 0 {
        let head = escape_char(t[0]);
        let rest = escape(t.skip(1));
        let j = i + head.len();
        let whole = s.subrange(i, i + escape(t).len());
        assert(s.subrange(i, j) =~= whole.subrange(0, head.len() as int));
        assert(s.subrange(j, j + rest.len()) =~= whole.subrange(
            head.len() as int,
            escape(t).len() as int,
        ));
        assert((head + rest).subrange(0, head.len() as int) =~= head);
        assert((head + rest).subrange(head.len() as int, escape(t).len() as int) =~= rest);
        lemma_unescape_char_complete(s, i, t[0]);
        lemma_unescape_complete(s, j, t.skip(1));
        assert(seq![t[0]] + t.skip(1) =~= t);
    } else {
        assert(t =~= Seq::empty());
    }
}

/// A closing quote is the one place in a string literal where a raw quote
/// stands: `quoted(t)` occurs at `at` exactly where a quote stands at `at` and
/// the text read behind it is `t`.
proof fn lemma_quoted_occurs(s: Seq<char>, at: int, t: Seq<char>)
    requires
        0 <= at,
    ensures
        occurs_at(s, at, quoted(t)) <==> at < s.len() && s[at] == '"' && unescape_at(s, at + 1)
            == Some((t, at + 1 + escape(t).len())),
{
    let q = quoted(t);
    let n = escape(t).len() as int;
    if occurs_at(s, at, q) {
        lemma_occurs_index(s, at, q, 0);
        lemma_occurs_index(s, at, q, n + 1);
        assert(s.subrange(at + 1, at + 1 + n) =~= q.subrange(1, n + 1));
        assert(q.subrange(1, n + 1) =~= escape(t));
        lemma_unescape_complete(s, at + 1, t);
    }
    if at < s.len() && s[at] == '"' && unescape_at(s, at + 1) == Some((t, at + 1 + n)) {
        lemma_unescape_sound(s, at + 1);
        assert(s.subrange(at, at + q.len()) =~= q);
    }
}

/// No string literal starts where no quote stands, nor where what stands
/// behind the quote cannot be read up to a closing quote.
proof fn lemma_no_literal(s: Seq<char>, at: int)
    requires
        0 <= at,
        at >= s.len() || s[at] != '"' || unescape_at(s, at + 1) is None,
    ensures
        forall|u: Seq<char>| !#[trigger] occurs_at(s, at, quoted(u)),
{
    assert forall|u: Seq<char>| !#[trigger] occurs_at(s, at, quoted(u)) by {
        lemma_quoted_occurs(s, at, u);
    }
}

/// `String::push` of std appends the character to the end of the string;
/// this is believed without proof.
pub assume_specification[ String::push ](s: &mut String, c: char)
    ensures
        final(s)@ == old(s)@.push(c),
;

/// The value of the lower-case hexadecimal digit `c`, if it is one.
fn hex_digit_value(c: char) -> (r: Option<u8>)
    ensures
        match r {
            Some(v) => hex_value(c) == Some(v as int),
            None => hex_value(c) is None,
        },
{
    if c >= '0' && c <= '9' {
        Some(c as u8 - '0' as u8)
    } else if c >= 'a' && c <= 'f' {
        Some(c as u8 - 'a' as u8 + 10)
    } else {
        None
    }
}

/// Reads one escaped character of a string literal at index `i`.
fn read_escaped(text: &Vec<char>, i: usize) -> (r: Option<(char, usize)>)
    ensures
        match r {
            Some((c, j)) => unescape_char_at(text@, i as int) == Some((c, j as int)),
            None => unescape_char_at(text@, i as int) is None,
        },
{
    let n: usize = text.len();
    if i >= n {
        return None;
    }
    let first: char = text[i];
    if first == '"' {
        return None;
    }
    if first != '\\' {
        if first >= ' ' {
            return Some((first, i + 1));
        }
        return None;
    }
    if i + 1 >= n {
        return None;
    }
    let second: char = text[i + 1];
    if second == '"' {
        Some(('"', i + 2))
    } else if second == '\\' {
        Some(('\\', i + 2))
    } else if second == 'b' {
        Some(('\u{8}', i + 2))
    } else if second == 't' {
        Some(('\t', i + 2))
    } else if second == 'n' {
        Some(('\n', i + 2))
    } else if second == 'f' {
        Some(('\u{c}', i + 2))
    } else if second == 'r' {
        Some(('\r', i + 2))
    } else if second == 'u' && n - i > 5 && text[i + 2] == '0' && text[i + 3] == '0' {
        let high: u8 = if text[i + 4] == '0' {
            0
        } else if text[i + 4] == '1' {
            16
        } else {
            return None;
        };
        match hex_digit_value(text[i + 5]) {
            Some(low) => {
                let code: u8 = high + low;
                if code == 8 || code == 9 || code == 10 || code == 12 || code == 13 {
                    None
                } else {
                    Some((code as char, i + 6))
                }
            },
            None => None,
        }
    } else {
        None
    }
}

/// Reads the string literal that starts at index `start` of `text`: the text
/// it stands for, and the index just behind its closing quote. `None` where no
/// string literal starts there. A literal is accepted in the one form that
/// `quoted` gives it, so the text read is the only one whose literal stands
/// there.
pub fn unquote(text: &Vec<char>, start: usize) -> (r: Option<(String, usize)>)
    ensures
        r matches Some((t, end)) ==> occurs_at(text@, start as int, quoted(t@)) && end == start
            + quoted(t@).len(),
        forall|u: Seq<char>| #[trigger]
            occurs_at(text@, start as int, quoted(u)) ==> (r matches Some((t, _)) && t@ == u),
{
    let n: usize = text.len();
    if start >= n || text[start] != '"' {
        proof {
            lemma_no_literal(text@, start as int);
        }
        return None;
    }
    let mut out: String = String::new();
    let mut i: usize = start + 1;
    let ghost whole = unescape_at(text@, start + 1);
    loop
        invariant
            n == text.len(),
            start < i <= n,
            text[start as int] == '"',
            whole == unescape_at(text@, start + 1),
            whole == match unescape_at(text@, i as int) {
                None => None,
                Some((t, end)) => Some((out@ + t, end)),
            },
        decreases n - i,
    {
        if i >= n {
            proof {
                lemma_no_literal(text@, start as int);
            }
            return None;
        }
        if text[i] == '"' {
            proof {
                assert(out@ + Seq::<char>::empty() =~= out@);
                lemma_unescape_sound(text@, start + 1);
                lemma_quoted_occurs(text@, start as int, out@);
                assert forall|u: Seq<char>| #[trigger]
                    occurs_at(text@, start as int, quoted(u)) implies u == out@ by {
                    lemma_quoted_occurs(text@, start as int, u);
                }
            }
            return Some((out, i + 1));
        }
        match read_escaped(text, i) {
            None => {
                proof {
                    lemma_no_literal(text@, start as int);
                }
                return None;
            },
            Some((c, j)) => {
                proof {
                    lemma_unescape_char_sound(text@, i as int);
                    match unescape_at(text@, j as int) {
                        None => {},
                        Some((t, end)) => {
                            assert(out@ + (seq![c] + t) =~= out@.push(c) + t);
                        },
                    }
                }
                out.push(c);
                i = j;
            },
        }
    }
}

/// At one index at most one text has its string literal: a literal ends at
/// its first raw quote, so none is the beginning of another.
pub proof fn lemma_quoted_unique(text: Seq<char>, at: int, t: Seq<char>, u: Seq<char>)
    requires
        occurs_at(text, at, quoted(t)),
        occurs_at(text, at, quoted(u)),
    ensures
        t == u,
{
    lemma_quoted_occurs(text, at, t);
    lemma_quoted_occurs(text, at, u);
}

} // verus!

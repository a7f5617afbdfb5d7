//! Escaping: texts that keep their meaning inside other texts.
use vstd::prelude::*;

use crate::text::{chars_of, text_of};

verus! {

/// How one character is written in a `LIKE` pattern whose escape character is the backslash.
pub open spec fn like_char(c: char) -> Seq<char> {
    if c == '\\' || c == '%' || c == '_' {
        seq!['\\', c]
    } else {
        seq![c]
    }
}

/// `s` as a `LIKE` pattern that matches `s` itself.
pub open spec fn like_text(s: Seq<char>) -> Seq<char>
    decreases s.len(),
{
    if s.len() == 0 {
        Seq::empty()
    } else {
        like_char(s[0]) + like_text(s.drop_first())
    }
}

/// The text that an escaped `LIKE` pattern stands for.
pub open spec fn like_meaning(p: Seq<char>) -> Seq<char>
    decreases p.len(),
{
    if p.len() == 0 {
        Seq::empty()
    } else if p[0] == '\\' && p.len() > 1 {
        seq![p[1]] + like_meaning(p.skip(2))
    } else {
        seq![p[0]] + like_meaning(p.drop_first())
    }
}

/// How one character is written in a TOML basic string.
pub open spec fn toml_char(c: char) -> Seq<char> {
    if c == '\\' {
        seq!['\\', '\\']
    } else if c == '"' {
        seq!['\\', '"']
    } else if c == '\n' {
        seq!['\\', 'n']
    } else if c == '\r' {
        seq!['\\', 'r']
    } else if c == '\t' {
        seq!['\\', 't']
    } else {
        seq![c]
    }
}

/// `s` as the inside of a TOML basic string.
pub open spec fn toml_text(s: Seq<char>) -> Seq<char>
    decreases s.len(),
{
    if s.len() == 0 {
        Seq::empty()
    } else {
        toml_char(s[0]) + toml_text(s.drop_first())
    }
}

/// The character that a backslash and `c` stand for in a TOML basic string.
pub open spec fn toml_named(c: char) -> char {
    if c == 'n' {
        '\n'
    } else if c == 'r' {
        '\r'
    } else if c == 't' {
        '\t'
    } else {
        c
    }
}

/// The text that the inside of a TOML basic string stands for.
pub open spec fn toml_meaning(p: Seq<char>) -> Seq<char>
    decreases p.len(),
{
    if p.len() == 0 {
        Seq::empty()
    } else if p[0] == '\\' && p.len() > 1 {
        seq![toml_named(p[1])] + toml_meaning(p.skip(2))
    } else {
        seq![p[0]] + toml_meaning(p.drop_first())
    }
}

/// An escaped `LIKE` pattern stands for the text that was escaped, so two texts never share one.
pub proof fn like_escape_keeps_meaning(s: Seq<char>)
    ensures
        like_meaning(like_text(s)) == s,
    decreases s.len(),
{
    if s.len() > 0 {
        let rest = s.drop_first();
        like_escape_keeps_meaning(rest);
        let p = like_text(s);
        if s[0] == '\\' || s[0] == '%' || s[0] == '_' {
            assert(p.skip(2) =~= like_text(rest));
        } else {
            assert(p.drop_first() =~= like_text(rest));
        }
        assert(seq![s[0]] + rest =~= s);
    }
}

/// An escaped TOML string stands for the text that was escaped, so two texts never share one.
pub proof fn toml_escape_keeps_meaning(s: Seq<char>)
    ensures
        toml_meaning(toml_text(s)) == s,
    decreases s.len(),
{
    if s.len() > 0 {
        let rest = s.drop_first();
        toml_escape_keeps_meaning(rest);
        let p = toml_text(s);
        if toml_char(s[0]).len() == 2 {
            assert(p.skip(2) =~= toml_text(rest));
        } else {
            assert(p.drop_first() =~= toml_text(rest));
        }
        assert(seq![s[0]] + rest =~= s);
    }
}

/// `input` as a `LIKE` pattern that matches `input` itself.
pub fn escape_like(input: &str) -> (r: String)
    ensures
        r@ == like_text(input@),
{
    let v = chars_of(input);
    let mut out: Vec<char> = Vec::new();
    let mut i: usize = 0;
    assert(input@.skip(0) =~= input@);
    assert(out@ + like_text(input@.skip(0)) =~= like_text(input@));
    while i < v.len()
        invariant
            0 <= i <= v@.len(),
            v@ == input@,
            out@ + like_text(input@.skip(i as int)) == like_text(input@),
        decreases v@.len() - i,
    {
        let c = v[i];
        let ghost before = out@;
        let ghost rest = input@.skip(i as int);
        if c == '\\' || c == '%' || c == '_' {
            out.push('\\');
        }
        out.push(c);
        proof {
            assert(rest[0] == c);
            assert(rest.drop_first() =~= input@.skip(i + 1));
            assert(out@ =~= before + like_char(c));
            assert(before + (like_char(c) + like_text(input@.skip(i + 1))) =~= out@ + like_text(
                input@.skip(i + 1),
            ));
        }
        i += 1;
    }
    assert(input@.skip(i as int).len() == 0);
    assert(out@ =~= like_text(input@));
    text_of(&out)
}

/// `s` as the inside of a TOML basic string.
pub fn toml_escape(s: &str) -> (r: String)
    ensures
        r@ == toml_text(s@),
{
    let v = chars_of(s);
    let mut out: Vec<char> = Vec::new();
    let mut i: usize = 0;
    assert(s@.skip(0) =~= s@);
    assert(out@ + toml_text(s@.skip(0)) =~= toml_text(s@));
    while i < v.len()
        invariant
            0 <= i <= v@.len(),
            v@ == s@,
            out@ + toml_text(s@.skip(i as int)) == toml_text(s@),
        decreases v@.len() - i,
    {
        let c = v[i];
        let ghost before = out@;
        let ghost rest = s@.skip(i as int);
        if c == '\\' || c == '"' {
            out.push('\\');
            out.push(c);
        } else if c == '\n' {
            out.push('\\');
            out.push('n');
        } else if c == '\r' {
            out.push('\\');
            out.push('r');
        } else if c == '\t' {
            out.push('\\');
            out.push('t');
        } else {
            out.push(c);
        }
        proof {
            assert(rest[0] == c);
            assert(rest.drop_first() =~= s@.skip(i + 1));
            assert(out@ =~= before + toml_char(c));
            assert(before + (toml_char(c) + toml_text(s@.skip(i + 1))) =~= out@ + toml_text(
                s@.skip(i + 1),
            ));
        }
        i += 1;
    }
    assert(s@.skip(i as int).len() == 0);
    assert(out@ =~= toml_text(s@));
    text_of(&out)
}

} // verus!

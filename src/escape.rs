//! The escapes of PO string literals: `\n`, `\t`, `\r`, `\"` and `\\`.

use vstd::prelude::*;

verus! {

use vstd::std_specs::iter::IteratorSpec;

broadcast use {vstd::string::axiom_spec_iter, vstd::string::next_postcondition};

/// `c` completes one of the five escapes after a backslash.
pub open spec fn is_escape_code(c: char) -> bool {
    c == 'n' || c == 't' || c == 'r' || c == '"' || c == '\\'
}

/// The character that the escape `\c` stands for.
pub open spec fn decoded(c: char) -> char {
    if c == 'n' {
        '\n'
    } else if c == 't' {
        '\t'
    } else if c == 'r' {
        '\r'
    } else {
        c
    }
}

/// The text of a literal body: each escape, read left to right, replaced by its character; every
/// other character, a lone backslash included, kept.
pub open spec fn unescaped(s: Seq<char>) -> Seq<char>
    decreases s.len(),
{
    if s.len() == 0 {
        Seq::empty()
    } else if s.len() >= 2 && s[0] == '\\' && is_escape_code(s[1]) {
        seq![decoded(s[1])] + unescaped(s.subrange(2, s.len() as int))
    } else {
        seq![s[0]] + unescaped(s.subrange(1, s.len() as int))
    }
}

/// How a character is written inside a literal body.
pub open spec fn escaped_char(c: char) -> Seq<char> {
    if c == '\n' {
        seq!['\\', 'n']
    } else if c == '\t' {
        seq!['\\', 't']
    } else if c == '\r' {
        seq!['\\', 'r']
    } else if c == '"' {
        seq!['\\', '"']
    } else if c == '\\' {
        seq!['\\', '\\']
    } else {
        seq![c]
    }
}

/// A text written as a literal body, with the five escapes.
pub open spec fn escaped(t: Seq<char>) -> Seq<char>
    decreases t.len(),
{
    if t.len() == 0 {
        Seq::empty()
    } else {
        escaped_char(t[0]) + escaped(t.subrange(1, t.len() as int))
    }
}

/// Decoding a text written with the five escapes gives the text back.
pub proof fn lemma_unescape_escaped(t: Seq<char>)
    ensures
        unescaped(escaped(t)) == t,
    decreases t.len(),
{
    if t.len() > 0 {
        let rest = t.subrange(1, t.len() as int);
        let e = escaped_char(t[0]);
        let s = e + escaped(rest);
        lemma_unescape_escaped(rest);
        assert(escaped(t) == s);
        if e.len() == 2 {
            assert(s.subrange(2, s.len() as int) =~= escaped(rest));
        } else {
            assert(s.subrange(1, s.len() as int) =~= escaped(rest));
        }
        assert(t =~= seq![t[0]] + rest);
    }
}

/// A backslash followed by anything but an escape code stays as it is.
pub proof fn lemma_unknown_escape_kept(c: char, rest: Seq<char>)
    requires
        !is_escape_code(c),
    ensures
        unescaped(seq!['\\', c] + rest) == seq!['\\', c] + unescaped(rest),
{
    let s = seq!['\\', c] + rest;
    let s1 = s.subrange(1, s.len() as int);
    assert(s1 =~= seq![c] + rest);
    assert(s1.subrange(1, s1.len() as int) =~= rest);
    assert(unescaped(s1) == seq![c] + unescaped(rest));
    assert(seq!['\\'] + (seq![c] + unescaped(rest)) =~= seq!['\\', c] + unescaped(rest));
}

/// A piece of a literal body: one of the five escapes, or one character other than a backslash.
pub open spec fn is_piece(q: Seq<char>) -> bool {
    (q.len() == 2 && q[0] == '\\' && is_escape_code(q[1])) || (q.len() == 1 && q[0] != '\\')
}

/// The pieces written one after the other.
pub open spec fn joined(p: Seq<Seq<char>>) -> Seq<char>
    decreases p.len(),
{
    if p.len() == 0 {
        Seq::empty()
    } else {
        p[0] + joined(p.subrange(1, p.len() as int))
    }
}

/// What a piece stands for: the character of an escape, or the character itself.
pub open spec fn piece_text(q: Seq<char>) -> Seq<char> {
    if q.len() == 2 {
        seq![decoded(q[1])]
    } else {
        q
    }
}

/// The texts of the pieces, one after the other.
pub open spec fn pieces_text(p: Seq<Seq<char>>) -> Seq<char>
    decreases p.len(),
{
    if p.len() == 0 {
        Seq::empty()
    } else {
        piece_text(p[0]) + pieces_text(p.subrange(1, p.len() as int))
    }
}

/// A body made of escapes and plain characters decodes piece by piece, left to right: every
/// escape is decoded, none overlaps the next.
pub proof fn lemma_unescape_pieces(p: Seq<Seq<char>>)
    requires
        forall|i: int| 0 <= i < p.len() ==> is_piece(#[trigger] p[i]),
    ensures
        unescaped(joined(p)) == pieces_text(p),
    decreases p.len(),
{
    if p.len() > 0 {
        let rest = p.subrange(1, p.len() as int);
        assert forall|i: int| 0 <= i < rest.len() implies is_piece(#[trigger] rest[i]) by {
            assert(rest[i] == p[i + 1]);
        }
        lemma_unescape_pieces(rest);
        let q = p[0];
        assert(is_piece(q));
        let s = q + joined(rest);
        assert(joined(p) == s);
        if q.len() == 2 {
            assert(s.subrange(2, s.len() as int) =~= joined(rest));
        } else {
            assert(s.subrange(1, s.len() as int) =~= joined(rest));
            assert(seq![s[0]] =~= q);
        }
    }
}

/// Copies the characters of `s` into a vector.
pub(crate) fn chars_of(s: &str) -> (v: Vec<char>)
    ensures
        v@ == s@,
{
    let mut v: Vec<char> = Vec::new();
    let n = s.unicode_len();
    let mut it = s.chars();
    let mut i: usize = 0;
    while i < n
        invariant
            n == s@.len(),
            i <= n,
            v@ == s@.subrange(0, i as int),
            it.obeys_prophetic_iter_laws(),
            it.remaining() == s@.subrange(i as int, n as int),
        decreases n - i,
    {
        let c = it.next();
        match c {
            Some(c) => {
                v.push(c);
            },
            None => {
                assert(false);
            },
        }
        assert(v@ =~= s@.subrange(0, i + 1));
        i = i + 1;
        assert(it.remaining() =~= s@.subrange(i as int, n as int));
    }
    assert(v@ =~= s@);
    v
}

/// Relies on `String::push`: it appends the character to the string.
pub assume_specification[ String::push ](s: &mut String, ch: char)
    ensures
        final(s)@ == old(s)@.push(ch),
;

/// Decodes the escapes of `s[lo..hi]`.
pub(crate) fn unescape_range(s: &Vec<char>, lo: usize, hi: usize) -> (r: String)
    requires
        lo <= hi <= s@.len(),
    ensures
        r@ == unescaped(s@.subrange(lo as int, hi as int)),
{
    let mut r = String::new();
    let mut i: usize = lo;
    while i < hi
        invariant
            lo <= i <= hi <= s@.len(),
            r@ + unescaped(s@.subrange(i as int, hi as int)) == unescaped(
                s@.subrange(lo as int, hi as int),
            ),
        decreases hi - i,
    {
        let ghost rest = s@.subrange(i as int, hi as int);
        let c = s[i];
        if c == '\\' && i + 1 < hi && (s[i + 1] == 'n' || s[i + 1] == 't' || s[i + 1] == 'r'
            || s[i + 1] == '"' || s[i + 1] == '\\') {
            let d = s[i + 1];
            let out = if d == 'n' {
                '\n'
            } else if d == 't' {
                '\t'
            } else if d == 'r' {
                '\r'
            } else {
                d
            };
            assert(rest.subrange(2, rest.len() as int) =~= s@.subrange(i + 2, hi as int));
            r.push(out);
            i = i + 2;
            assert(r@ + unescaped(s@.subrange(i as int, hi as int)) =~= unescaped(
                s@.subrange(lo as int, hi as int),
            ));
        } else {
            assert(rest.subrange(1, rest.len() as int) =~= s@.subrange(i + 1, hi as int));
            r.push(c);
            i = i + 1;
            assert(r@ + unescaped(s@.subrange(i as int, hi as int)) =~= unescaped(
                s@.subrange(lo as int, hi as int),
            ));
        }
    }
    assert(s@.subrange(i as int, hi as int) =~= Seq::<char>::empty());
    assert(r@ + Seq::<char>::empty() =~= r@);
    r
}

/// Decodes the five escapes of a literal body; any other backslash stays as it is.
pub fn unescape(s: &str) -> (r: String)
    ensures
        r@ == unescaped(s@),
{
    let v = chars_of(s);
    let r = unescape_range(&v, 0, v.len());
    assert(v@.subrange(0, v@.len() as int) =~= s@);
    r
}

} // verus!

//! Reading of Uniforum Portable Object (`.po`) catalogues, the format of GNU gettext.
//!
//! Lines are classified one at a time ([`crate::line`]); the assembler folds the classified lines
//! of one entry into a [`Unit`], looking at most one line ahead.

use vstd::prelude::*;
use crate::{variants_ordered, Count, Error, Message, Origin, State, Unit};
use crate::escape::chars_of;
use crate::language::{language_for, resolve_language};
use crate::line::{
    classify, is_ws, is_ws_exec, parse_po_line, skip_ws, skip_ws_exec, substring, tag_words,
    tag_words_exec, trim_end,
    trim_end_exec, LineModel, PoLine,
};

verus! {

/// A non-blank line as the assembler sees it.
pub enum Tok {
    /// A well-formed line: its number and content.
    Line(nat, LineModel),
    /// A malformed line: its number and raw text.
    Bad(nat, Seq<char>),
    /// A read failure of the text source, at the line it would have had.
    Fault(nat),
}

/// The non-blank lines of `ls[pos..]`, classified, then the read failure if there is one.
pub open spec fn toks_from(ls: Seq<Seq<char>>, pos: int, fault: bool) -> Seq<Tok>
    decreases ls.len() - pos,
{
    if pos < 0 {
        Seq::empty()
    } else if pos >= ls.len() {
        if fault {
            seq![Tok::Fault((ls.len() + 1) as nat)]
        } else {
            Seq::empty()
        }
    } else {
        match classify(ls[pos]) {
            None => seq![Tok::Bad((pos + 1) as nat, ls[pos])] + toks_from(ls, pos + 1, fault),
            Some(LineModel::Blank) => toks_from(ls, pos + 1, fault),
            Some(m) => seq![Tok::Line((pos + 1) as nat, m)] + toks_from(ls, pos + 1, fault),
        }
    }
}

/// The first `\n` at or after `i`, or the end.
pub open spec fn next_newline(s: Seq<char>, i: int) -> int
    decreases s.len() - i,
{
    if 0 <= i < s.len() && s[i] != '\n' {
        next_newline(s, i + 1)
    } else {
        i
    }
}

/// The lines of `s[i..]`: each ends before a `\n`, without a `\r` that stands just before it;
/// after a final `\n` no empty line follows.
pub open spec fn text_lines_from(s: Seq<char>, i: int) -> Seq<Seq<char>>
    decreases s.len() - i,
{
    let j = next_newline(s, i);
    if i < 0 || i >= s.len() || j < i {
        Seq::empty()
    } else {
        let end = if j > i && s[j - 1] == '\r' {
            j - 1
        } else {
            j
        };
        if j >= s.len() {
            seq![s.subrange(i, end)]
        } else {
            seq![s.subrange(i, end)] + text_lines_from(s, j + 1)
        }
    }
}

pub open spec fn text_lines(s: Seq<char>) -> Seq<Seq<char>> {
    text_lines_from(s, 0)
}

proof fn lemma_next_newline(s: Seq<char>, i: int)
    requires
        0 <= i <= s.len(),
    ensures
        i <= next_newline(s, i) <= s.len(),
    decreases s.len() - i,
{
    if i < s.len() && s[i] != '\n' {
        lemma_next_newline(s, i + 1);
    }
}

/// The views of a sequence of strings.
pub open spec fn views(v: Seq<String>) -> Seq<Seq<char>> {
    v.map_values(|s: String| s@)
}

/// The source of lines: the lines of a text, then possibly the failure that ended reading.
pub struct LineIter {
    lines: Vec<String>,
    fault: Option<std::io::Error>,
    pos: usize,
}

impl LineIter {
    pub closed spec fn wf(&self) -> bool {
        &&& self.fault is Some ==> self.lines@.len() < usize::MAX
        &&& self.pos <= self.lines@.len()
    }

    /// The tokens not yet consumed.
    pub closed spec fn toks(&self) -> Seq<Tok> {
        toks_from(views(self.lines@), self.pos as int, self.fault is Some)
    }

    /// All lines of `lines` in order, then `fault` if reading stopped on a failure.
    pub fn new(lines: Vec<String>, fault: Option<std::io::Error>) -> (r: LineIter)
        requires
            lines@.len() < usize::MAX,
        ensures
            r.wf(),
            r.toks() == toks_from(views(lines@), 0, fault is Some),
    {
        LineIter { lines, fault, pos: 0 }
    }

    /// The lines of `text`: split at `\n`, a `\r` before it dropped, no line after a final `\n`.
    pub fn from_text(text: &str) -> (r: LineIter)
        ensures
            r.wf(),
            r.toks() == toks_from(text_lines(text@), 0, false),
    {
        let s = chars_of(text);
        let mut lines: Vec<String> = Vec::new();
        let mut i: usize = 0;
        while i < s.len()
            invariant
                i <= s@.len(),
                lines@.len() <= i,
                views(lines@) + text_lines_from(s@, i as int) == text_lines_from(s@, 0),
            decreases s@.len() - i,
        {
            let mut j: usize = i;
            while j < s.len() && s[j] != '\n'
                invariant
                    i <= j <= s@.len(),
                    next_newline(s@, j as int) == next_newline(s@, i as int),
                decreases s@.len() - j,
            {
                j = j + 1;
            }
            proof {
                lemma_next_newline(s@, i as int);
            }
            let end = if j > i && s[j - 1] == '\r' {
                j - 1
            } else {
                j
            };
            let mut line = String::new();
            let mut k: usize = i;
            while k < end
                invariant
                    i <= k <= end <= s@.len(),
                    line@ == s@.subrange(i as int, k as int),
                decreases end - k,
            {
                line.push(s[k]);
                k = k + 1;
                assert(line@ =~= s@.subrange(i as int, k as int));
            }
            let ghost before = lines@;
            let ghost i0 = i as int;
            assert(text_lines_from(s@, i0) == seq![line@] + text_lines_from(s@, if j < s@.len() {
                j + 1
            } else {
                j as int
            }));
            lines.push(line);
            assert(views(lines@) =~= views(before).push(line@));
            i = if j < s.len() {
                j + 1
            } else {
                j
            };
            assert(views(lines@) + text_lines_from(s@, i as int) =~= views(before) + (seq![line@]
                + text_lines_from(s@, i as int)));
        }
        LineIter { lines, fault: None, pos: 0 }
    }

    /// The index of the next non-blank line, or the end, and the class of that line.
    fn scan(&self) -> (r: (usize, Option<PoLine>))
        requires
            self.wf(),
        ensures
            self.pos <= r.0 <= self.lines@.len(),
            toks_from(views(self.lines@), r.0 as int, self.fault is Some) == self.toks(),
            r.0 < self.lines@.len() ==> match classify(self.lines@[r.0 as int]@) {
                Some(m) => !(m is Blank) && r.1 is Some && r.1->Some_0.model() == m
                    && r.1->Some_0.number() == r.0 + 1,
                None => r.1 is None,
            },
    {
        let mut i = self.pos;
        let n = self.lines.len();
        while i < n
            invariant
                self.wf(),
                n == self.lines@.len(),
                self.pos <= i <= n,
                toks_from(views(self.lines@), i as int, self.fault is Some) == self.toks(),
            decreases n - i,
        {
            assert(views(self.lines@)[i as int] == self.lines@[i as int]@);
            match parse_po_line(self.lines[i].as_str(), i + 1) {
                Some(PoLine::Blank) => {
                    i = i + 1;
                },
                r => {
                    return (i, r);
                },
            }
        }
        (i, None)
    }

    /// The next token, left in place.
    pub fn peek(&self) -> (r: Peek)
        requires
            self.wf(),
        ensures
            peek_is(r, self.toks()),
            r is Line ==> !(r->Line_0 is Blank),
    {
        let (i, l) = self.scan();
        if i < self.lines.len() {
            match l {
                Some(l) => Peek::Line(l),
                None => Peek::Bad,
            }
        } else if self.fault.is_some() {
            Peek::Fault
        } else {
            Peek::End
        }
    }

    /// Drops the next token.
    pub fn advance(&mut self)
        requires
            old(self).wf(),
            old(self).toks().len() > 0,
        ensures
            final(self).wf(),
            final(self).toks() == old(self).toks().drop_first(),
    {
        let (i, _) = self.scan();
        if i < self.lines.len() {
            self.pos = i + 1;
        } else {
            self.pos = i;
            self.fault = None;
        }
    }

    /// Takes the next token, a malformed line or a read failure, as an error.
    pub fn take_error(&mut self) -> (e: Error)
        requires
            old(self).wf(),
            old(self).toks().len() > 0,
            old(self).toks()[0] is Bad || old(self).toks()[0] is Fault,
        ensures
            final(self).wf(),
            final(self).toks() == old(self).toks().drop_first(),
            error_for(e, old(self).toks()[0]),
    {
        let (i, _) = self.scan();
        if i < self.lines.len() {
            let raw = self.lines[i].clone();
            self.pos = i + 1;
            Error::Parse(i + 1, Some(raw), Vec::new())
        } else {
            self.pos = i;
            let n = self.lines.len() + 1;
            match self.fault.take() {
                Some(f) => Error::Io(n, f),
                None => Error::Parse(n, None, Vec::new()),
            }
        }
    }
}

/// The next token as the assembler sees it, without the payload of an error.
pub enum Peek {
    Line(PoLine),
    Bad,
    Fault,
    End,
}

/// `p` shows the first of `ts`.
pub open spec fn peek_is(p: Peek, ts: Seq<Tok>) -> bool {
    match p {
        Peek::End => ts.len() == 0,
        Peek::Bad => ts.len() > 0 && ts[0] is Bad,
        Peek::Fault => ts.len() > 0 && ts[0] is Fault,
        Peek::Line(l) => ts.len() > 0 && ts[0] == Tok::Line(l.number() as nat, l.model()),
    }
}

/// `e` is the error that token `t` stands for.
pub open spec fn error_for(e: Error, t: Tok) -> bool {
    match t {
        Tok::Bad(n, raw) => e matches Error::Parse(m, Some(g), exp) && m == n && g@ == raw
            && exp@.len() == 0,
        Tok::Fault(n) => e matches Error::Io(m, _) && m == n,
        Tok::Line(_, _) => false,
    }
}


/// The marker makes a line obsolete: it starts with `#~`.
pub open spec fn is_obsolete_marker(p: Seq<char>) -> bool {
    p.len() >= 2 && p[0] == '#' && p[1] == '~'
}

/// `t` is the message tag `tag`, obsolete exactly when `obsolete` is.
pub open spec fn tag_fits(t: Tok, tag: Seq<char>, obsolete: bool) -> bool {
    t matches Tok::Line(_, LineModel::Message(p, g, _)) && g == tag && is_obsolete_marker(p)
        == obsolete
}

/// `t` continues a tag written with marker `p`.
pub open spec fn cont_fits(t: Tok, p: Seq<char>) -> bool {
    t matches Tok::Line(_, LineModel::Continuation(q, _)) && q == p
}

pub open spec fn tok_text(t: Tok) -> Seq<char> {
    match t {
        Tok::Line(_, LineModel::Message(_, _, x)) => x,
        Tok::Line(_, LineModel::Continuation(_, x)) => x,
        _ => Seq::empty(),
    }
}

pub open spec fn tok_marker(t: Tok) -> Seq<char> {
    match t {
        Tok::Line(_, LineModel::Message(p, _, _)) => p,
        Tok::Line(_, LineModel::Continuation(p, _)) => p,
        _ => Seq::empty(),
    }
}

pub open spec fn is_error_tok(t: Tok) -> bool {
    t is Bad || t is Fault
}

/// The end of the run of continuations with marker `p` that starts at `i`.
pub open spec fn cont_end(ts: Seq<Tok>, i: int, p: Seq<char>) -> int
    decreases ts.len() - i,
{
    if 0 <= i < ts.len() && cont_fits(ts[i], p) {
        cont_end(ts, i + 1, p)
    } else {
        i
    }
}

/// The texts of `ts[i..j]`, concatenated.
pub open spec fn texts(ts: Seq<Tok>, i: int, j: int) -> Seq<char>
    decreases j - i,
{
    if j <= i {
        Seq::empty()
    } else {
        texts(ts, i, j - 1) + tok_text(ts[j - 1])
    }
}

/// What reading one tag off the front of a token sequence gives.
pub enum Taken {
    /// The tag is not next; nothing is consumed.
    Absent,
    /// The text of the tag and its continuations, and the number of tokens they take.
    Text(Seq<char>, nat),
    /// An error token, and the number of tokens consumed up to and including it.
    Failed(Tok, nat),
}

/// Reading tag `tag` off the front of `ts`: an error comes out at once; otherwise, where the
/// first token is the tag with the right obsolete marker, its text and that of the continuations
/// that follow with the very same marker.
#[verifier::opaque]
pub open spec fn take_msg(ts: Seq<Tok>, tag: Seq<char>, obsolete: bool) -> Taken {
    if ts.len() == 0 {
        Taken::Absent
    } else if is_error_tok(ts[0]) {
        Taken::Failed(ts[0], 1)
    } else if !tag_fits(ts[0], tag, obsolete) {
        Taken::Absent
    } else {
        let j = cont_end(ts, 1, tok_marker(ts[0]));
        if j < ts.len() && is_error_tok(ts[j]) {
            Taken::Failed(ts[j], (j + 1) as nat)
        } else {
            Taken::Text(tok_text(ts[0]) + texts(ts, 1, j), j as nat)
        }
    }
}

/// What [`parse_msg`] did to `before`, giving `r` and leaving `after`.
pub open spec fn msg_result(
    before: Seq<Tok>,
    tag: Seq<char>,
    obsolete: bool,
    r: Result<Option<String>, Error>,
    after: Seq<Tok>,
) -> bool {
    match take_msg(before, tag, obsolete) {
        Taken::Absent => r matches Ok(None) && after == before,
        Taken::Text(t, k) => r matches Ok(Some(s)) && s@ == t && after == before.skip(k as int),
        Taken::Failed(tok, k) => r matches Err(e) && error_for(e, tok) && after == before.skip(
            k as int,
        ),
    }
}

/// `a` and `b` hold the same characters.
pub fn same_text(a: &str, b: &str) -> (r: bool)
    ensures
        r == (a@ == b@),
{
    let x = chars_of(a);
    let y = chars_of(b);
    if x.len() != y.len() {
        return false;
    }
    let mut i: usize = 0;
    while i < x.len()
        invariant
            x@ == a@,
            y@ == b@,
            x@.len() == y@.len(),
            i <= x@.len(),
            forall|k: int| 0 <= k < i ==> x@[k] == y@[k],
        decreases x@.len() - i,
    {
        if x[i] != y[i] {
            assert(x@[i as int] != y@[i as int]);
            return false;
        }
        i = i + 1;
    }
    assert(x@ =~= y@);
    true
}

fn has_obsolete_marker(p: &String) -> (r: bool)
    ensures
        r == is_obsolete_marker(p@),
{
    let v = chars_of(p.as_str());
    v.len() >= 2 && v[0] == '#' && v[1] == '~'
}

/// Reads tag `tag` and its continuation lines, if the tag is next and its obsolete marker is
/// `obsolete`; a malformed line or read failure met on the way is returned as the error.
pub fn parse_msg(lines: &mut LineIter, tag: &str, obsolete: bool) -> (r: Result<
    Option<String>,
    Error,
>)
    requires
        old(lines).wf(),
    ensures
        final(lines).wf(),
        msg_result(old(lines).toks(), tag@, obsolete, r, final(lines).toks()),
{
    reveal(take_msg);
    let ghost ts = lines.toks();
    let (prefix, mut text) = match lines.peek() {
        Peek::Bad => {
            let e = lines.take_error();
            assert(ts.skip(1) =~= ts.drop_first());
            return Err(e);
        },
        Peek::Fault => {
            let e = lines.take_error();
            assert(ts.skip(1) =~= ts.drop_first());
            return Err(e);
        },
        Peek::End => {
            return Ok(None);
        },
        Peek::Line(PoLine::Message(_, p, g, s)) => {
            if same_text(g.as_str(), tag) && has_obsolete_marker(&p) == obsolete {
                (p, s)
            } else {
                return Ok(None);
            }
        },
        Peek::Line(_) => {
            return Ok(None);
        },
    };
    lines.advance();
    let ghost p = prefix@;
    let ghost mut k: int = 1;
    assert(ts.skip(1) =~= ts.drop_first());
    assert(texts(ts, 1, 1) =~= Seq::<char>::empty());
    assert(text@ =~= tok_text(ts[0]) + texts(ts, 1, 1));
    loop
        invariant
            lines.wf(),
            ts == old(lines).toks(),
            ts.len() > 0,
            tag_fits(ts[0], tag@, obsolete),
            p == tok_marker(ts[0]),
            prefix@ == p,
            1 <= k <= ts.len(),
            cont_end(ts, k, p) == cont_end(ts, 1, p),
            lines.toks() == ts.skip(k),
            text@ == tok_text(ts[0]) + texts(ts, 1, k),
        ensures
            lines.wf(),
            lines.toks() == ts.skip(k),
            text@ == tok_text(ts[0]) + texts(ts, 1, k),
            cont_end(ts, 1, p) == k,
            k == ts.len() || !is_error_tok(ts[k]),
        decreases ts.len() - k,
    {
        let pk = lines.peek();
        proof {
            reveal(take_msg);
            if k < ts.len() {
                assert(ts.skip(k)[0] == ts[k]);
            }
        }
        match pk {
            Peek::Bad => {
                assert(!cont_fits(ts[k], p) && cont_end(ts, k, p) == k);
                assert(take_msg(ts, tag@, obsolete) == Taken::Failed(ts[k], (k + 1) as nat));
                let e = lines.take_error();
                assert(ts.skip(k).drop_first() =~= ts.skip(k + 1));
                return Err(e);
            },
            Peek::Fault => {
                assert(!cont_fits(ts[k], p) && cont_end(ts, k, p) == k);
                assert(take_msg(ts, tag@, obsolete) == Taken::Failed(ts[k], (k + 1) as nat));
                let e = lines.take_error();
                assert(ts.skip(k).drop_first() =~= ts.skip(k + 1));
                return Err(e);
            },
            Peek::Line(PoLine::Continuation(n, q, s)) => {
                if same_text(q.as_str(), prefix.as_str()) {
                    assert(cont_fits(ts[k], p));
                    lines.advance();
                    text.append(s.as_str());
                    proof {
                        assert(ts.skip(k).drop_first() =~= ts.skip(k + 1));
                        k = k + 1;
                    }
                } else {
                    assert(!cont_fits(ts[k], p) && cont_end(ts, k, p) == k);
                    break ;
                }
            },
            Peek::Line(_) => {
                assert(!cont_fits(ts[k], p) && cont_end(ts, k, p) == k);
                break ;
            },
            Peek::End => {
                assert(cont_end(ts, k, p) == k);
                break ;
            },
        }
    }
    Ok(Some(text))
}


/// `s` without leading and trailing whitespace.
pub open spec fn trimmed(s: Seq<char>) -> Seq<char> {
    let a = skip_ws(s, 0);
    let e = trim_end(s, s.len() as int);
    if a < e {
        s.subrange(a, e)
    } else {
        Seq::empty()
    }
}

/// The first `,` at or after `i`, or the end.
pub open spec fn next_comma(t: Seq<char>, i: int) -> int
    decreases t.len() - i,
{
    if 0 <= i < t.len() && t[i] != ',' {
        next_comma(t, i + 1)
    } else {
        i
    }
}

proof fn lemma_next_comma(t: Seq<char>, i: int)
    requires
        0 <= i <= t.len(),
    ensures
        i <= next_comma(t, i) <= t.len(),
        forall|k: int| i <= k < next_comma(t, i) ==> t[k] != ',',
        next_comma(t, i) < t.len() ==> t[next_comma(t, i)] == ',',
    decreases t.len() - i,
{
    if i < t.len() && t[i] != ',' {
        lemma_next_comma(t, i + 1);
    }
}

/// Some comma-separated item of `t[i..]`, trimmed, is `fuzzy`.
pub open spec fn fuzzy_from(t: Seq<char>, i: int) -> bool
    decreases t.len() - i,
{
    let j = next_comma(t, i);
    if i < 0 || i > t.len() || j < i {
        false
    } else {
        trimmed(t.subrange(i, j)) == seq!['f', 'u', 'z', 'z', 'y'] || (j < t.len() && fuzzy_from(
            t,
            j + 1,
        ))
    }
}

/// The first whitespace at or after `i`, or the end.
pub open spec fn next_ws(t: Seq<char>, i: int) -> int
    decreases t.len() - i,
{
    if 0 <= i < t.len() && !is_ws(t[i]) {
        next_ws(t, i + 1)
    } else {
        i
    }
}

proof fn lemma_next_ws(t: Seq<char>, i: int)
    requires
        0 <= i <= t.len(),
    ensures
        i <= next_ws(t, i) <= t.len(),
        i < t.len() && !is_ws(t[i]) ==> i < next_ws(t, i),
    decreases t.len() - i,
{
    if i < t.len() && !is_ws(t[i]) {
        lemma_next_ws(t, i + 1);
    }
}

proof fn lemma_skip_ws(t: Seq<char>, i: int)
    requires
        0 <= i <= t.len(),
    ensures
        i <= skip_ws(t, i) <= t.len(),
        skip_ws(t, i) < t.len() ==> !is_ws(t[skip_ws(t, i)]),
    decreases t.len() - i,
{
    if i < t.len() && is_ws(t[i]) {
        lemma_skip_ws(t, i + 1);
    }
}

/// The whitespace-separated words of `t[i..]`.
pub open spec fn words_from(t: Seq<char>, i: int) -> Seq<Seq<char>>
    decreases t.len() - i,
{
    let a = skip_ws(t, i);
    let b = next_ws(t, a);
    if i < 0 || a < i || a >= t.len() || b <= a || b > t.len() {
        Seq::empty()
    } else {
        seq![t.subrange(a, b)] + words_from(t, b)
    }
}

/// Whether a flags comment holds the flag `fuzzy`.
pub fn has_fuzzy_flag(t: &str) -> (r: bool)
    ensures
        r == fuzzy_from(t@, 0),
{
    let v = chars_of(t);
    let n = v.len();
    let mut i: usize = 0;
    loop
        invariant
            v@ == t@,
            n == v@.len(),
            i <= n,
            fuzzy_from(v@, i as int) == fuzzy_from(v@, 0),
        decreases n - i,
    {
        let mut j = i;
        while j < n && v[j] != ','
            invariant
                n == v@.len(),
                i <= j <= n,
                next_comma(v@, j as int) == next_comma(v@, i as int),
            decreases n - j,
        {
            j = j + 1;
        }
        proof {
            lemma_next_comma(v@, i as int);
        }
        let seg = substring(&v, i, j);
        let sv = chars_of(seg.as_str());
        let a = skip_ws_exec(&sv, 0);
        let e = trim_end_exec(&sv);
        let hit = a < e && e - a == 5 && sv[a] == 'f' && sv[a + 1] == 'u' && sv[a + 2] == 'z'
            && sv[a + 3] == 'z' && sv[a + 4] == 'y';
        proof {
            let w = seq!['f', 'u', 'z', 'z', 'y'];
            let tr = trimmed(sv@);
            assert(sv@ == v@.subrange(i as int, j as int));
            if hit {
                assert(tr =~= w);
            } else if tr == w {
                assert(tr.len() == 5);
                assert(a < e);
                assert(tr[0] == sv@[a as int] && tr[1] == sv@[a + 1] && tr[2] == sv@[a + 2] && tr[3]
                    == sv@[a + 3] && tr[4] == sv@[a + 4]);
            }
            assert(fuzzy_from(v@, i as int) == (trimmed(v@.subrange(i as int, j as int)) == w || (j
                < n && fuzzy_from(v@, j + 1))));
        }
        if hit {
            return true;
        }
        if j == n {
            return false;
        }
        i = j + 1;
    }
}

/// The whitespace-separated words of a locations comment.
pub fn split_words(t: &str) -> (r: Vec<String>)
    ensures
        views(r@) == words_from(t@, 0),
{
    let v = chars_of(t);
    let n = v.len();
    let mut out: Vec<String> = Vec::new();
    let mut i: usize = 0;
    loop
        invariant
            v@ == t@,
            n == v@.len(),
            i <= n,
            views(out@) + words_from(v@, i as int) == words_from(v@, 0),
        decreases n - i,
    {
        let a = skip_ws_exec(&v, i);
        proof {
            lemma_skip_ws(v@, i as int);
        }
        if a == n {
            assert(words_from(v@, i as int) =~= Seq::<Seq<char>>::empty());
            assert(views(out@) =~= views(out@) + Seq::<Seq<char>>::empty());
            return out;
        }
        let mut b = a;
        while b < n && !is_ws_exec(v[b])
            invariant
                n == v@.len(),
                a <= b <= n,
                next_ws(v@, b as int) == next_ws(v@, a as int),
            decreases n - b,
        {
            b = b + 1;
        }
        proof {
            lemma_next_ws(v@, a as int);
        }
        let w = substring(&v, a, b);
        let ghost before = out@;
        out.push(w);
        assert(views(out@) =~= views(before).push(w@));
        assert(views(out@) + words_from(v@, b as int) =~= views(before) + words_from(v@, i as int));
        i = b;
    }
}


pub open spec fn is_comment_tok(t: Tok) -> bool {
    t matches Tok::Line(_, LineModel::Comment(_, _))
}

/// The end of the run of comments that starts at `i`.
pub open spec fn comment_end(ts: Seq<Tok>, i: int) -> int
    decreases ts.len() - i,
{
    if 0 <= i < ts.len() && is_comment_tok(ts[i]) {
        comment_end(ts, i + 1)
    } else {
        i
    }
}

/// The notes that the comments of `ts` give, in order: `.` from the developer, plain ones from
/// the translator.
pub open spec fn comment_notes(ts: Seq<Tok>) -> Seq<(Origin, Seq<char>)>
    decreases ts.len(),
{
    if ts.len() == 0 {
        Seq::empty()
    } else {
        let r = comment_notes(ts.drop_last());
        match ts.last() {
            Tok::Line(_, LineModel::Comment(k, t)) => if k == '.' {
                r.push((Origin::Developer, t))
            } else if k == ' ' {
                r.push((Origin::Translator, t))
            } else {
                r
            },
            _ => r,
        }
    }
}

/// The locations that the `:` comments of `ts` give, word by word, in order.
pub open spec fn comment_locations(ts: Seq<Tok>) -> Seq<Seq<char>>
    decreases ts.len(),
{
    if ts.len() == 0 {
        Seq::empty()
    } else {
        let r = comment_locations(ts.drop_last());
        match ts.last() {
            Tok::Line(_, LineModel::Comment(k, t)) => if k == ':' {
                r + words_from(t, 0)
            } else {
                r
            },
            _ => r,
        }
    }
}

/// Some `,` comment of `ts` holds the flag `fuzzy`.
pub open spec fn comment_fuzzy(ts: Seq<Tok>) -> bool
    decreases ts.len(),
{
    if ts.len() == 0 {
        false
    } else {
        comment_fuzzy(ts.drop_last()) || match ts.last() {
            Tok::Line(_, LineModel::Comment(k, t)) => k == ',' && fuzzy_from(t, 0),
            _ => false,
        }
    }
}

pub open spec fn note_views(v: Seq<(Origin, String)>) -> Seq<(Origin, Seq<char>)> {
    v.map_values(|p: (Origin, String)| (p.0, p.1@))
}

/// Reading the comments at the front of `before` took `u0` to `u1` and left `after`.
pub open spec fn comments_read(before: Seq<Tok>, after: Seq<Tok>, u0: Unit, u1: Unit) -> bool {
    let j = comment_end(before, 0);
    let c = before.take(j);
    &&& after == before.skip(j)
    &&& note_views(u1.notes@) == note_views(u0.notes@) + comment_notes(c)
    &&& views(u1.locations@) == views(u0.locations@) + comment_locations(c)
    &&& u1.state == if comment_fuzzy(c) {
        State::NeedsWork
    } else {
        u0.state
    }
    &&& u1.context == u0.context
    &&& u1.source == u0.source
    &&& u1.target == u0.target
    &&& u1.prev_context == u0.prev_context
    &&& u1.prev_source == u0.prev_source
    &&& u1.obsolete == u0.obsolete
}

/// Reads the comments that come next into `unit`.
pub fn parse_comments(lines: &mut LineIter, unit: &mut Unit)
    requires
        old(lines).wf(),
    ensures
        final(lines).wf(),
        comments_read(old(lines).toks(), final(lines).toks(), *old(unit), *final(unit)),
{
    let ghost ts = lines.toks();
    let ghost u0 = *unit;
    let ghost mut k: int = 0;
    assert(ts.skip(0) =~= ts);
    assert(ts.take(0) =~= Seq::<Tok>::empty());
    assert(note_views(unit.notes@) =~= note_views(u0.notes@) + Seq::<(Origin, Seq<char>)>::empty());
    assert(views(unit.locations@) =~= views(u0.locations@) + Seq::<Seq<char>>::empty());
    loop
        invariant
            lines.wf(),
            ts == old(lines).toks(),
            u0 == *old(unit),
            0 <= k <= ts.len(),
            comment_end(ts, k) == comment_end(ts, 0),
            lines.toks() == ts.skip(k),
            note_views(unit.notes@) == note_views(u0.notes@) + comment_notes(ts.take(k)),
            views(unit.locations@) == views(u0.locations@) + comment_locations(ts.take(k)),
            unit.state == if comment_fuzzy(ts.take(k)) {
                State::NeedsWork
            } else {
                u0.state
            },
            unit.context == u0.context,
            unit.source == u0.source,
            unit.target == u0.target,
            unit.prev_context == u0.prev_context,
            unit.prev_source == u0.prev_source,
            unit.obsolete == u0.obsolete,
        ensures
            lines.wf(),
            comments_read(ts, lines.toks(), u0, *unit),
        decreases ts.len() - k,
    {
        let pk = lines.peek();
        proof {
            if k < ts.len() {
                assert(ts.skip(k)[0] == ts[k]);
                assert(ts.take(k + 1).drop_last() =~= ts.take(k));
                assert(ts.take(k + 1).last() == ts[k]);
            }
        }
        match pk {
            Peek::Line(PoLine::Comment(n, kind, text)) => {
                assert(is_comment_tok(ts[k]));
                lines.advance();
                let ghost notes0 = unit.notes@;
                let ghost locs0 = unit.locations@;
                if kind == ',' {
                    if has_fuzzy_flag(text.as_str()) {
                        unit.state = State::NeedsWork;
                    }
                } else if kind == ':' {
                    let mut words = split_words(text.as_str());
                    let ghost w = words@;
                    unit.locations.append(&mut words);
                    assert(views(unit.locations@) =~= views(locs0) + views(w));
                } else if kind == '.' {
                    unit.notes.push((Origin::Developer, text));
                    assert(note_views(unit.notes@) =~= note_views(notes0).push(
                        (Origin::Developer, ts[k]->Line_1->Comment_1),
                    ));
                } else if kind == ' ' {
                    unit.notes.push((Origin::Translator, text));
                    assert(note_views(unit.notes@) =~= note_views(notes0).push(
                        (Origin::Translator, ts[k]->Line_1->Comment_1),
                    ));
                }
                proof {
                    assert(ts.skip(k).drop_first() =~= ts.skip(k + 1));
                    k = k + 1;
                }
            },
            _ => {
                assert(comment_end(ts, k) == k);
                break ;
            },
        }
    }
}

/// The error for a missing tag: what stands next, and the tags `exp` that were acceptable; no
/// error where the input has ended.
/// The names of a list of tags.
pub open spec fn names(e: Seq<&'static str>) -> Seq<Seq<char>> {
    e.map_values(|s: &'static str| s@)
}

pub open spec fn expectation(ts: Seq<Tok>, exp: Seq<Seq<char>>, r: Result<Option<Unit>, Error>) -> bool {
    if ts.len() == 0 {
        r matches Ok(None)
    } else {
        match ts[0] {
            Tok::Line(n, LineModel::Message(_, g, _)) => r matches Err(Error::Parse(m, Some(got), e))
                && m == n && got@ == g && names(e@) == exp,
            Tok::Line(n, LineModel::Continuation(_, _)) => r matches Err(Error::Parse(m, Some(got), e))
                && m == n && got@ == seq!['"'] && names(e@) == exp,
            Tok::Line(n, LineModel::Comment(c, _)) => r matches Err(Error::Parse(m, Some(got), e))
                && m == n && got@ == seq!['#', c] && names(e@) == exp,
            _ => false,
        }
    }
}

/// The error that reports that one of `exp` was expected where the next token stands.
pub fn expected(lines: &LineIter, exp: Vec<&'static str>) -> (r: Result<Option<Unit>, Error>)
    requires
        lines.wf(),
        lines.toks().len() == 0 || !is_error_tok(lines.toks()[0]),
    ensures
        expectation(lines.toks(), names(exp@), r),
{
    match lines.peek() {
        Peek::Line(PoLine::Message(n, _, g, _)) => Err(Error::Parse(n, Some(g), exp)),
        Peek::Line(PoLine::Continuation(n, _, _)) => {
            let mut got = String::new();
            got.push('"');
            assert(got@ =~= seq!['"']);
            Err(Error::Parse(n, Some(got), exp))
        },
        Peek::Line(PoLine::Comment(n, c, _)) => {
            let mut got = String::new();
            got.push('#');
            got.push(c);
            assert(got@ =~= seq!['#', c]);
            Err(Error::Parse(n, Some(got), exp))
        },
        _ => Ok(None),
    }
}

/// The message of a `msgid` and an optional `msgid_plural`: none without the first, singular
/// without the second, else plural with the first for One and the second for Other.
pub fn make_source(msgid: Option<String>, plural: Option<String>) -> (r: Message)
    ensures
        r.wf(),
        msgid is None ==> r is Empty,
        msgid is Some && plural is None ==> r == Message::Singular(msgid->Some_0),
        msgid is Some && plural is Some ==> r is Plural && r->Plural_0@ == seq![
            (Count::One, msgid->Some_0),
            (Count::Other, plural->Some_0),
        ],
{
    match msgid {
        None => Message::Empty,
        Some(s) => match plural {
            None => Message::Singular(s),
            Some(p) => {
                let mut v: Vec<(Count, String)> = Vec::new();
                v.push((Count::One, s));
                v.push((Count::Other, p));
                assert(v@ =~= seq![(Count::One, s), (Count::Other, p)]);
                Message::Plural(v)
            },
        },
    }
}


/// A tag or continuation line carries the obsolete marker exactly when `obsolete`; other tokens
/// carry no marker.
pub open spec fn marked(t: Tok, obsolete: bool) -> bool {
    match t {
        Tok::Line(_, LineModel::Message(p, _, _)) => is_obsolete_marker(p) == obsolete,
        Tok::Line(_, LineModel::Continuation(p, _)) => is_obsolete_marker(p) == obsolete,
        _ => true,
    }
}

pub open spec fn tags_marked(ts: Seq<Tok>, i: int, j: int, obsolete: bool) -> bool {
    forall|x: int| i <= x < j ==> #[trigger] marked(ts[x], obsolete)
}

/// The first token is a tag with the obsolete marker.
pub open spec fn first_obsolete(ts: Seq<Tok>) -> bool {
    ts.len() > 0 && (ts[0] matches Tok::Line(_, LineModel::Message(p, _, _))
        && is_obsolete_marker(p))
}

/// The state of a unit: needs work when flagged fuzzy, else final when its target holds text,
/// else empty.
pub open spec fn derived_state(fuzzy: bool, target: Message) -> State {
    if fuzzy {
        State::NeedsWork
    } else if target.blank() {
        State::Empty
    } else {
        State::Final
    }
}

pub open spec fn taken_len(t: Taken) -> nat {
    match t {
        Taken::Absent => 0,
        Taken::Text(_, k) => k,
        Taken::Failed(_, k) => k,
    }
}

/// Unit `u` is what the tokens of `before` that come before `after` describe.
pub open spec fn unit_fits(before: Seq<Tok>, u: Unit, after: Seq<Tok>) -> bool {
    let j = comment_end(before, 0);
    let c = before.take(j);
    &&& !(u.source is Empty)
    &&& u.source.wf()
    &&& u.target.wf()
    &&& u.source is Singular ==> u.target is Singular
    &&& u.obsolete == first_obsolete(before.skip(j))
    &&& tags_marked(before, j, before.len() - after.len(), u.obsolete)
    &&& note_views(u.notes@) == comment_notes(c)
    &&& views(u.locations@) == comment_locations(c)
    &&& u.state == derived_state(comment_fuzzy(c), u.target)
}

/// Reading one unit off the front of `before` gave `r` and left `after`.
pub open spec fn unit_read(before: Seq<Tok>, r: Result<Option<Unit>, Error>, after: Seq<Tok>) -> bool {
    let j = comment_end(before, 0);
    &&& after.len() <= before.len()
    &&& after == before.skip(before.len() - after.len())
    &&& before.skip(j).len() == 0 ==> (r is Ok && r->Ok_0 is None)
    &&& (r is Ok && r->Ok_0 is Some) ==> unit_fits(before, r->Ok_0->Some_0, after)
}


pub open spec fn opt_text(t: Taken) -> Option<Seq<char>> {
    match t {
        Taken::Text(x, _) => Some(x),
        _ => None,
    }
}

pub open spec fn text_of(t: Taken) -> Seq<char> {
    match t {
        Taken::Text(x, _) => x,
        _ => Seq::empty(),
    }
}

pub open spec fn opt_view(o: Option<String>) -> Option<Seq<char>> {
    match o {
        Some(s) => Some(s@),
        None => None,
    }
}

pub open spec fn variant_views(v: Seq<(Count, String)>) -> Seq<(Count, Seq<char>)> {
    v.map_values(|p: (Count, String)| (p.0, p.1@))
}

/// `msg` is the message of a `msgid` read as `id` and a `msgid_plural` read as `plural`.
pub open spec fn message_is(msg: Message, id: Taken, plural: Taken) -> bool {
    match id {
        Taken::Text(a, _) => match plural {
            Taken::Text(b, _) => msg is Plural && variant_views(msg->Plural_0@) == seq![
                (Count::One, a),
                (Count::Other, b),
            ],
            _ => msg is Singular && msg->Singular_0@ == a,
        },
        _ => msg is Empty,
    }
}

/// The failed read `t`, started at `m`, gave error `r` and left `after`.
pub open spec fn failed_as(
    t: Taken,
    before: Seq<Tok>,
    m: int,
    r: Result<Option<Unit>, Error>,
    after: Seq<Tok>,
) -> bool {
    &&& t is Failed
    &&& r is Err
    &&& error_for(r->Err_0, t->Failed_0)
    &&& after == before.skip(m + t->Failed_1)
}

/// The tag of the `i`-th plural variant of a target: `msgstr[i]`.
pub open spec fn plural_tag(i: int) -> Seq<char> {
    tag_words()[4 + i]
}

/// What reading the plural variants `i..n` from position `m` gives.
pub enum PluralTaken {
    /// The texts of the variants, and the position after them.
    Read(Seq<Seq<char>>, int),
    /// An error token, and the position after it.
    Failed(Tok, int),
    /// The variant whose tag is missing, and the position where it was looked for.
    Missing(int, int),
}

pub open spec fn plurals_from(before: Seq<Tok>, m: int, i: int, n: int, ob: bool) -> PluralTaken
    decreases n - i,
{
    if i < 0 || i >= n {
        PluralTaken::Read(Seq::empty(), m)
    } else {
        match take_msg(before.skip(m), plural_tag(i), ob) {
            Taken::Failed(tok, k) => PluralTaken::Failed(tok, m + k),
            Taken::Absent => PluralTaken::Missing(i, m),
            Taken::Text(x, k) => prepend(seq![x], plurals_from(before, m + k, i + 1, n, ob)),
        }
    }
}

pub open spec fn prepend(xs: Seq<Seq<char>>, p: PluralTaken) -> PluralTaken {
    match p {
        PluralTaken::Read(ys, e) => PluralTaken::Read(xs + ys, e),
        _ => p,
    }
}

/// The fields of `u` that every successfully read unit has, given the reads of its tags.
pub open spec fn unit_fields(
    u: Unit,
    before: Seq<Tok>,
    ob: bool,
    t1: Taken,
    t2: Taken,
    t3: Taken,
    t4: Taken,
    t5: Taken,
    t6: Taken,
) -> bool {
    let c = before.take(comment_end(before, 0));
    &&& unit_head(u, before, ob, t1, t2, t3, t4, t5, t6)
    &&& u.state == derived_state(comment_fuzzy(c), u.target)
}

/// The fields of `u` that its comments and tags other than `msgstr` give.
pub open spec fn unit_head(
    u: Unit,
    before: Seq<Tok>,
    ob: bool,
    t1: Taken,
    t2: Taken,
    t3: Taken,
    t4: Taken,
    t5: Taken,
    t6: Taken,
) -> bool {
    let c = before.take(comment_end(before, 0));
    &&& opt_view(u.prev_context) == opt_text(t1)
    &&& message_is(u.prev_source, t2, t3)
    &&& opt_view(u.context) == opt_text(t4)
    &&& message_is(u.source, t5, t6)
    &&& u.obsolete == ob
    &&& note_views(u.notes@) == comment_notes(c)
    &&& views(u.locations@) == comment_locations(c)
}

/// What reading one unit off `before` gives, with plural categories `plurals`: after the
/// comments, the optional `|msgctxt`, `|msgid` and (after `|msgid`) `|msgid_plural`, the
/// optional `msgctxt`, the required `msgid`, the optional `msgid_plural`, then the required
/// `msgstr`, or for a plural source one `msgstr[i]` for each of the first six categories. All
/// tags are read with the obsolete marker of the first one. The first error token met is the
/// error; a missing required tag is reported by [`expectation`].
pub open spec fn unit_result(
    before: Seq<Tok>,
    plurals: Seq<Count>,
    r: Result<Option<Unit>, Error>,
    after: Seq<Tok>,
) -> bool {
    let j = comment_end(before, 0);
    let rest = before.skip(j);
    let ob = first_obsolete(rest);
    let t1 = take_msg(before.skip(j), "|msgctxt"@, ob);
    let m1 = j + taken_len(t1);
    let t2 = take_msg(before.skip(m1), "|msgid"@, ob);
    let m2 = m1 + taken_len(t2);
    let t3 = if t2 is Text {
        take_msg(before.skip(m2), "|msgid_plural"@, ob)
    } else {
        Taken::Absent
    };
    let m3 = m2 + taken_len(t3);
    let t4 = take_msg(before.skip(m3), "msgctxt"@, ob);
    let m4 = m3 + taken_len(t4);
    let t5 = take_msg(before.skip(m4), "msgid"@, ob);
    let m5 = m4 + taken_len(t5);
    let t6 = take_msg(before.skip(m5), "msgid_plural"@, ob);
    let m6 = m5 + taken_len(t6);
    let t7 = take_msg(before.skip(m6), "msgstr"@, ob);
    let m7 = m6 + taken_len(t7);
    let n = if plurals.len() < 6 {
        plurals.len() as int
    } else {
        6
    };
    if rest.len() == 0 {
        r is Ok && r->Ok_0 is None && after == rest
    } else if t1 is Failed {
        failed_as(t1, before, j, r, after)
    } else if t2 is Failed {
        failed_as(t2, before, m1, r, after)
    } else if t3 is Failed {
        failed_as(t3, before, m2, r, after)
    } else if t4 is Failed {
        failed_as(t4, before, m3, r, after)
    } else if t5 is Failed {
        failed_as(t5, before, m4, r, after)
    } else if t5 is Absent {
        expectation(before.skip(m5), seq!["msgid"@], r) && after == before.skip(m5)
    } else if t6 is Failed {
        failed_as(t6, before, m5, r, after)
    } else if t6 is Absent {
        if t7 is Failed {
            failed_as(t7, before, m6, r, after)
        } else if t7 is Absent {
            expectation(before.skip(m7), seq!["msgstr"@], r) && after == before.skip(m7)
        } else {
            &&& r is Ok
            &&& r->Ok_0 is Some
            &&& after == before.skip(m7)
            &&& unit_fields(r->Ok_0->Some_0, before, ob, t1, t2, t3, t4, t5, t6)
            &&& r->Ok_0->Some_0.target is Singular
            &&& r->Ok_0->Some_0.target->Singular_0@ == text_of(t7)
        }
    } else {
        match plurals_from(before, m6, 0, n, ob) {
            PluralTaken::Failed(tok, e) => r is Err && error_for(r->Err_0, tok) && after
                == before.skip(e),
            PluralTaken::Missing(i, e) => expectation(before.skip(e), seq![plural_tag(i)], r)
                && after == before.skip(e),
            PluralTaken::Read(xs, e) => {
                &&& r is Ok
                &&& r->Ok_0 is Some
                &&& after == before.skip(e)
                &&& unit_fields(r->Ok_0->Some_0, before, ob, t1, t2, t3, t4, t5, t6)
                &&& r->Ok_0->Some_0.target is Plural
                &&& variant_views(r->Ok_0->Some_0.target->Plural_0@) == Seq::new(
                    n as nat,
                    |k: int| (plurals[k], xs[k]),
                )
            },
        }
    }
}

proof fn lemma_comment_end(ts: Seq<Tok>, i: int)
    requires
        0 <= i <= ts.len(),
    ensures
        i <= comment_end(ts, i) <= ts.len(),
    decreases ts.len() - i,
{
    if i < ts.len() && is_comment_tok(ts[i]) {
        lemma_comment_end(ts, i + 1);
    }
}

proof fn lemma_cont_run(ts: Seq<Tok>, i: int, p: Seq<char>)
    requires
        0 <= i <= ts.len(),
    ensures
        i <= cont_end(ts, i, p) <= ts.len(),
        forall|x: int| i <= x < cont_end(ts, i, p) ==> #[trigger] cont_fits(ts[x], p),
    decreases ts.len() - i,
{
    if i < ts.len() && cont_fits(ts[i], p) {
        lemma_cont_run(ts, i + 1, p);
    }
}

/// One call of [`parse_msg`] at offset `m` of `before`, as far as a unit is concerned.
proof fn lemma_tag_step(
    before: Seq<Tok>,
    j0: int,
    m: int,
    tag: Seq<char>,
    ob: bool,
    r: Result<Option<String>, Error>,
    after: Seq<Tok>,
) -> (m2: int)
    requires
        0 <= j0 <= m <= before.len(),
        msg_result(before.skip(m), tag, ob, r, after),
        tags_marked(before, j0, m, ob),
    ensures
        m <= m2 <= before.len(),
        m2 == m + taken_len(take_msg(before.skip(m), tag, ob)),
        after == before.skip(m2),
        r is Ok ==> tags_marked(before, j0, m2, ob),
        r matches Ok(None) ==> m2 == m && (after.len() == 0 || !is_error_tok(after[0])),
{
    reveal(take_msg);
    let ts = before.skip(m);
    let t = take_msg(ts, tag, ob);
    let k = taken_len(t) as int;
    if ts.len() > 0 && !is_error_tok(ts[0]) && tag_fits(ts[0], tag, ob) {
        lemma_cont_run(ts, 1, tok_marker(ts[0]));
    }
    assert(before.skip(m).skip(k) =~= before.skip(m + k));
    if r is Ok {
        assert forall|x: int| j0 <= x < m + k implies #[trigger] marked(before[x], ob) by {
            if x >= m {
                assert(before[x] == ts[x - m]);
                if x > m {
                    assert(cont_fits(ts[x - m], tok_marker(ts[0])));
                }
            }
        }
    }
    m + k
}

const MSGSTR_TAGS: usize = 6;

/// Reads one unit: its comments, then the previous-value tags, the context, the source and the
/// target. The plural target has one variant for each of `plurals`, read from `msgstr[0]`,
/// `msgstr[1]`, ... in turn; categories past the sixth are not read.
/// Reads the plural variants of a target: `msgstr[i]` for each of the first six categories of
/// `plurals`, from position `m0` of `ts`. `Err` holds the result of the whole unit.
fn read_variants(
    lines: &mut LineIter,
    plurals: &Vec<Count>,
    ob: bool,
    Ghost(ts): Ghost<Seq<Tok>>,
    Ghost(j): Ghost<int>,
    Ghost(m0): Ghost<int>,
) -> (r: Result<Vec<(Count, String)>, Result<Option<Unit>, Error>>)
    requires
        old(lines).wf(),
        0 <= j <= m0 <= ts.len(),
        old(lines).toks() == ts.skip(m0),
        tags_marked(ts, j, m0, ob),
        variants_ordered_counts(plurals@),
    ensures
        final(lines).wf(),
        m0 <= ts.len() - final(lines).toks().len() <= ts.len(),
        final(lines).toks() == ts.skip(ts.len() - final(lines).toks().len()),
        r is Ok ==> tags_marked(ts, j, ts.len() - final(lines).toks().len(), ob),
        r matches Err(x) ==> !(x matches Ok(Some(_))),
        ({
            let n = if plurals@.len() < 6 {
                plurals@.len() as int
            } else {
                6
            };
            match plurals_from(ts, m0, 0, n, ob) {
                PluralTaken::Failed(tok, e) => r is Err && r->Err_0 is Err && error_for(
                    r->Err_0->Err_0,
                    tok,
                ) && final(lines).toks() == ts.skip(e),
                PluralTaken::Missing(i, e) => r is Err && expectation(
                    ts.skip(e),
                    seq![plural_tag(i)],
                    r->Err_0,
                ) && final(lines).toks() == ts.skip(e),
                PluralTaken::Read(xs, e) => r is Ok && variants_ordered(r->Ok_0@) && variant_views(
                    r->Ok_0@,
                ) == Seq::new(n as nat, |k: int| (plurals@[k], xs[k])) && final(lines).toks()
                    == ts.skip(e),
            }
        }),
{
    let words = tag_words_exec();
    let n = if plurals.len() < MSGSTR_TAGS {
        plurals.len()
    } else {
        MSGSTR_TAGS
    };
    let mut variants: Vec<(Count, String)> = Vec::new();
    let mut i: usize = 0;
    let ghost mut m = m0;
    proof {
        assert(ts.skip(m).len() == ts.len() - m);
        assert(plurals_from(ts, m0, 0, n as int, ob) == prepend(
            Seq::empty(),
            plurals_from(ts, m, 0, n as int, ob),
        )) by {
            match plurals_from(ts, m, 0, n as int, ob) {
                PluralTaken::Read(ys, e) => {
                    assert(Seq::<Seq<char>>::empty() + ys =~= ys);
                },
                _ => {},
            }
        }
        assert(variants@.map_values(|p: (Count, String)| p.1@) =~= Seq::<Seq<char>>::empty());
    }
    while i < n
        invariant
            lines.wf(),
            0 <= j <= m0 <= m <= ts.len(),
            lines.toks() == ts.skip(m),
            ts.skip(m).len() == ts.len() - m,
            tags_marked(ts, j, m, ob),
            words@.len() == tag_words().len(),
            forall|x: int| 0 <= x < words@.len() ==> (#[trigger] words@[x])@ == tag_words()[x],
            n <= plurals@.len(),
            n <= MSGSTR_TAGS,
            n == (if plurals@.len() < 6 {
                plurals@.len() as int
            } else {
                6
            }),
            variants_ordered_counts(plurals@),
            i <= n,
            variants@.len() == i,
            forall|x: int| 0 <= x < i ==> (#[trigger] variants@[x]).0 == plurals@[x],
            plurals_from(ts, m0, 0, n as int, ob) == prepend(
                variants@.map_values(|p: (Count, String)| p.1@),
                plurals_from(ts, m, i as int, n as int, ob),
            ),
        decreases n - i,
    {
        let ghost vt = variants@.map_values(|p: (Count, String)| p.1@);
        let st = parse_msg(lines, words[4 + i], ob);
        proof {
            m = lemma_tag_step(ts, j, m, plural_tag(i as int), ob, st, lines.toks());
            assert(ts.skip(m).len() == ts.len() - m);
        }
        match st {
            Ok(Some(s)) => {
                let ghost sv = s@;
                variants.push((plurals[i], s));
                proof {
                    assert(variants@.map_values(|p: (Count, String)| p.1@) =~= vt + seq![sv]);
                    match plurals_from(ts, m, i + 1, n as int, ob) {
                        PluralTaken::Read(ys, e) => {
                            assert(vt + (seq![sv] + ys) =~= vt + seq![sv] + ys);
                        },
                        _ => {},
                    }
                }
            },
            Ok(None) => {
                let exp = vec![words[4 + i]];
                assert(names(exp@) =~= seq![plural_tag(i as int)]);
                return Err(expected(lines, exp));
            },
            Err(e) => {
                return Err(Err(e));
            },
        }
        i = i + 1;
    }
    proof {
        let vt = variants@.map_values(|p: (Count, String)| p.1@);
        assert(vt + Seq::<Seq<char>>::empty() =~= vt);
        assert(variant_views(variants@) =~= Seq::new(n as nat, |k: int| (plurals@[k], vt[k])));
    }
    Ok(variants)
}

#[verifier::rlimit(100)]
pub fn parse_unit(lines: &mut LineIter, plurals: &Vec<Count>) -> (r: Result<Option<Unit>, Error>)
    requires
        old(lines).wf(),
        variants_ordered_counts(plurals@),
    ensures
        final(lines).wf(),
        unit_read(old(lines).toks(), r, final(lines).toks()),
        unit_result(old(lines).toks(), plurals@, r, final(lines).toks()),
{
    let ghost ts = lines.toks();
    let mut unit = Unit::fresh();
    parse_comments(lines, &mut unit);
    let ghost j = comment_end(ts, 0);
    proof {
        lemma_comment_end(ts, 0);
        assert(note_views(unit.notes@) =~= comment_notes(ts.take(j)));
        assert(views(unit.locations@) =~= comment_locations(ts.take(j)));
        assert(ts.skip(j).len() == ts.len() - j);
    }
    let ghost mut m: int = j;
    let pk = lines.peek();
    let ob = match pk {
        Peek::End => {
            return Ok(None);
        },
        Peek::Line(PoLine::Message(_, p, _, _)) => has_obsolete_marker(&p),
        _ => false,
    };
    proof {
        assert(ts.skip(j).len() > 0);
        assert(ts.skip(j)[0] == ts[j]);
        assert(ob == first_obsolete(ts.skip(j)));
    }
    unit.obsolete = ob;
    let ghost t1 = take_msg(ts.skip(m), "|msgctxt"@, ob);
    let pc = parse_msg(lines, "|msgctxt", ob);
    proof {
        m = lemma_tag_step(ts, j, m, "|msgctxt"@, ob, pc, lines.toks());
    }
    let ghost m1 = m;
    let prev_context = match pc {
        Ok(x) => x,
        Err(e) => {
            return Err(e);
        },
    };
    unit.prev_context = prev_context;
    let ghost t2 = take_msg(ts.skip(m), "|msgid"@, ob);
    let pm = parse_msg(lines, "|msgid", ob);
    proof {
        m = lemma_tag_step(ts, j, m, "|msgid"@, ob, pm, lines.toks());
    }
    let ghost m2 = m;
    let prev_msgid = match pm {
        Ok(x) => x,
        Err(e) => {
            return Err(e);
        },
    };
    let ghost mut t3 = Taken::Absent;
    let prev_plural = if prev_msgid.is_some() {
        proof {
            t3 = take_msg(ts.skip(m), "|msgid_plural"@, ob);
        }
        let pp = parse_msg(lines, "|msgid_plural", ob);
        proof {
            m = lemma_tag_step(ts, j, m, "|msgid_plural"@, ob, pp, lines.toks());
        }
        match pp {
            Ok(x) => x,
            Err(e) => {
                return Err(e);
            },
        }
    } else {
        None
    };
    let ghost m3 = m;
    unit.prev_source = make_source(prev_msgid, prev_plural);
    proof {
        if unit.prev_source is Plural {
            assert(variant_views(unit.prev_source->Plural_0@) =~= seq![
                (Count::One, text_of(t2)),
                (Count::Other, text_of(t3)),
            ]);
        }
    }
    let ghost t4 = take_msg(ts.skip(m), "msgctxt"@, ob);
    let cx = parse_msg(lines, "msgctxt", ob);
    proof {
        m = lemma_tag_step(ts, j, m, "msgctxt"@, ob, cx, lines.toks());
    }
    let ghost m4 = m;
    let context = match cx {
        Ok(x) => x,
        Err(e) => {
            return Err(e);
        },
    };
    unit.context = context;
    let ghost t5 = take_msg(ts.skip(m), "msgid"@, ob);
    let id = parse_msg(lines, "msgid", ob);
    proof {
        m = lemma_tag_step(ts, j, m, "msgid"@, ob, id, lines.toks());
    }
    let ghost m5 = m;
    let msgid = match id {
        Ok(Some(x)) => x,
        Ok(None) => {
            let exp = vec!["msgid"];
            assert(names(exp@) =~= seq!["msgid"@]);
            return expected(lines, exp);
        },
        Err(e) => {
            return Err(e);
        },
    };
    let ghost t6 = take_msg(ts.skip(m), "msgid_plural"@, ob);
    let ip = parse_msg(lines, "msgid_plural", ob);
    proof {
        m = lemma_tag_step(ts, j, m, "msgid_plural"@, ob, ip, lines.toks());
    }
    let ghost m6 = m;
    let msgid_plural = match ip {
        Ok(x) => x,
        Err(e) => {
            return Err(e);
        },
    };
    unit.source = make_source(Some(msgid), msgid_plural);
    proof {
        if unit.source is Plural {
            assert(variant_views(unit.source->Plural_0@) =~= seq![
                (Count::One, text_of(t5)),
                (Count::Other, text_of(t6)),
            ]);
        }
    }
    if unit.source.is_singular() {
        let st = parse_msg(lines, "msgstr", ob);
        proof {
            m = lemma_tag_step(ts, j, m, "msgstr"@, ob, st, lines.toks());
        }
        match st {
            Ok(Some(s)) => {
                unit.target = Message::Singular(s);
            },
            Ok(None) => {
                let exp = vec!["msgstr"];
                assert(names(exp@) =~= seq!["msgstr"@]);
                return expected(lines, exp);
            },
            Err(e) => {
                return Err(e);
            },
        }
    } else {
        match read_variants(lines, plurals, ob, Ghost(ts), Ghost(j), Ghost(m)) {
            Ok(variants) => {
                unit.target = Message::Plural(variants);
                proof {
                    m = ts.len() - lines.toks().len();
                }
            },
            Err(r) => {
                return r;
            },
        }
    }
    if unit.state == State::Empty && !unit.target.is_blank() {
        unit.state = State::Final;
    }
    assert(ts.skip(m).len() == ts.len() - m);
    Ok(Some(unit))
}

/// The categories are strictly increasing.
pub open spec fn variants_ordered_counts(v: Seq<Count>) -> bool {
    forall|i: int, j: int| 0 <= i < j < v.len() ==> v[i].rank() < v[j].rank()
}


/// The first `:` at or after `i`, or the end.
pub open spec fn next_colon(t: Seq<char>, i: int) -> int
    decreases t.len() - i,
{
    if 0 <= i < t.len() && t[i] != ':' {
        next_colon(t, i + 1)
    } else {
        i
    }
}

proof fn lemma_next_colon(t: Seq<char>, i: int)
    requires
        0 <= i <= t.len(),
    ensures
        i <= next_colon(t, i) <= t.len(),
    decreases t.len() - i,
{
    if i < t.len() && t[i] != ':' {
        lemma_next_colon(t, i + 1);
    }
}

/// The entry of one header line: the text before its first colon and the text after it, both
/// trimmed; none for a line without a colon.
pub open spec fn header_line_entry(line: Seq<char>) -> Seq<(Seq<char>, Seq<char>)> {
    let c = next_colon(line, 0);
    if c < line.len() {
        seq![(trimmed(line.subrange(0, c)), trimmed(line.subrange(c + 1, line.len() as int)))]
    } else {
        Seq::empty()
    }
}

/// The `key: value` entries of the `\n`-separated lines of `b[i..]`, in order.
pub open spec fn header_entries_from(b: Seq<char>, i: int) -> Seq<(Seq<char>, Seq<char>)>
    decreases b.len() - i,
{
    let j = next_newline(b, i);
    if i < 0 || i > b.len() || j < i || j > b.len() {
        Seq::empty()
    } else if j == b.len() {
        header_line_entry(b.subrange(i, j))
    } else {
        header_line_entry(b.subrange(i, j)) + header_entries_from(b, j + 1)
    }
}

pub open spec fn pair_views(v: Seq<(String, String)>) -> Seq<(Seq<char>, Seq<char>)> {
    v.map_values(|p: (String, String)| (p.0@, p.1@))
}

/// The value of the last entry for `key`: a later entry overrides an earlier one.
pub open spec fn last_value(entries: Seq<(Seq<char>, Seq<char>)>, key: Seq<char>) -> Option<
    Seq<char>,
>
    decreases entries.len(),
{
    if entries.len() == 0 {
        None
    } else if entries.last().0 == key {
        Some(entries.last().1)
    } else {
        last_value(entries.drop_last(), key)
    }
}

/// `s` without leading and trailing whitespace.
fn trim(s: &Vec<char>) -> (r: String)
    ensures
        r@ == trimmed(s@),
{
    let a = skip_ws_exec(s, 0);
    let e = trim_end_exec(s);
    if a < e {
        substring(s, a, e)
    } else {
        String::new()
    }
}

/// The `key: value` entries of a header body, in order of their lines.
pub fn parse_header(body: &str) -> (r: Vec<(String, String)>)
    ensures
        pair_views(r@) == header_entries_from(body@, 0),
{
    let b = chars_of(body);
    let n = b.len();
    let mut out: Vec<(String, String)> = Vec::new();
    let mut i: usize = 0;
    loop
        invariant
            b@ == body@,
            n == b@.len(),
            i <= n,
            pair_views(out@) + header_entries_from(b@, i as int) == header_entries_from(b@, 0),
        decreases n - i,
    {
        let mut j: usize = i;
        while j < n && b[j] != '\n'
            invariant
                n == b@.len(),
                i <= j <= n,
                next_newline(b@, j as int) == next_newline(b@, i as int),
            decreases n - j,
        {
            j = j + 1;
        }
        proof {
            lemma_next_newline(b@, i as int);
        }
        let line = chars_of(substring(&b, i, j).as_str());
        let mut c: usize = 0;
        while c < line.len() && line[c] != ':'
            invariant
                c <= line@.len(),
                next_colon(line@, c as int) == next_colon(line@, 0),
            decreases line@.len() - c,
        {
            c = c + 1;
        }
        proof {
            lemma_next_colon(line@, 0);
        }
        let ghost before = out@;
        if c < line.len() {
            let key = trim(&chars_of(substring(&line, 0, c).as_str()));
            let val = trim(&chars_of(substring(&line, c + 1, line.len()).as_str()));
            out.push((key, val));
            assert(pair_views(out@) =~= pair_views(before) + header_line_entry(line@));
        } else {
            assert(pair_views(out@) =~= pair_views(before) + header_line_entry(line@));
        }
        if j == n {
            assert(pair_views(out@) =~= header_entries_from(b@, 0));
            return out;
        }
        assert(pair_views(out@) + header_entries_from(b@, j + 1) =~= pair_views(before)
            + header_entries_from(b@, i as int));
        i = j + 1;
    }
}

/// The value of the last entry for `key`.
pub fn header_value<'a>(entries: &'a Vec<(String, String)>, key: &str) -> (r: Option<&'a String>)
    ensures
        match last_value(pair_views(entries@), key@) {
            Some(v) => r is Some && r->Some_0@ == v,
            None => r is None,
        },
{
    let mut i = entries.len();
    assert(entries@.take(i as int) =~= entries@);
    while i > 0
        invariant
            i <= entries@.len(),
            last_value(pair_views(entries@), key@) == last_value(pair_views(entries@.take(i as int)), key@),
        decreases i,
    {
        let ghost pre = pair_views(entries@.take(i as int));
        assert(pair_views(entries@.take(i - 1)) =~= pre.drop_last());
        if same_text(entries[i - 1].0.as_str(), key) {
            return Some(&entries[i - 1].1);
        }
        i = i - 1;
    }
    None
}

/// The unit is the catalogue header: its source is the empty singular string.
pub open spec fn is_header_unit(u: Unit) -> bool {
    u.source is Singular && u.source.blank()
}

fn is_header(r: &Option<Result<Unit, Error>>) -> (b: bool)
    ensures
        b == (*r matches Some(Ok(u)) && is_header_unit(u)),
{
    match r {
        Some(Ok(u)) => u.source.is_singular() && u.source.is_blank(),
        _ => false,
    }
}

/// The shape of a unit that the reader hands out.
pub open spec fn valid_unit(u: Unit) -> bool {
    &&& !(u.source is Empty)
    &&& u.source.wf()
    &&& u.target.wf()
    &&& u.source is Singular ==> u.target is Singular
    &&& (u.state == State::NeedsWork || u.state == derived_state(false, u.target))
}

/// The result of reading a unit, as the reader hands it out: `None` at the end of the input.
pub open spec fn as_item(r: Result<Option<Unit>, Error>) -> Option<Result<Unit, Error>> {
    match r {
        Ok(None) => None,
        Ok(Some(u)) => Some(Ok(u)),
        Err(e) => Some(Err(e)),
    }
}

/// Reading one unit off `before`, with plural categories `plurals`, gives item `item` and leaves
/// `after`.
pub open spec fn read_item(
    before: Seq<Tok>,
    plurals: Seq<Count>,
    item: Option<Result<Unit, Error>>,
    after: Seq<Tok>,
) -> bool {
    exists|r: Result<Option<Unit>, Error>|
        #![trigger as_item(r)]
        unit_result(before, plurals, r, after) && as_item(r) == item
}

/// The header body that item `first` gives, if it is the header unit.
pub open spec fn header_body(first: Option<Result<Unit, Error>>) -> Option<Seq<char>> {
    match first {
        Some(Ok(u)) => if is_header_unit(u) && u.target is Singular {
            Some(u.target->Singular_0@)
        } else {
            None
        },
        _ => None,
    }
}

fn next_unit(lines: &mut LineIter, plurals: &Vec<Count>) -> (r: Option<Result<Unit, Error>>)
    requires
        old(lines).wf(),
        variants_ordered_counts(plurals@),
    ensures
        final(lines).wf(),
        read_item(old(lines).toks(), plurals@, r, final(lines).toks()),
        r matches Some(Ok(u)) ==> valid_unit(u),
        old(lines).toks().len() == 0 ==> r is None,
{
    let ghost ts = lines.toks();
    proof {
        lemma_comment_end(ts, 0);
        assert(ts.skip(comment_end(ts, 0)).len() == ts.len() - comment_end(ts, 0));
    }
    let res = parse_unit(lines, plurals);
    let ghost g = res;
    let item = match res {
        Ok(None) => None,
        Ok(Some(u)) => Some(Ok(u)),
        Err(e) => Some(Err(e)),
    };
    assert(as_item(g) == item);
    item
}

/// A catalogue reader: hands out the units of a catalogue in order, after the header.
pub struct PoReader {
    lines: LineIter,
    next_unit: Option<Result<Unit, Error>>,
    finished: bool,
    header: Vec<(String, String)>,
    target_language: String,
    plurals: Vec<Count>,
}

impl PoReader {
    pub closed spec fn wf(&self) -> bool {
        &&& self.lines.wf()
        &&& variants_ordered_counts(self.plurals@)
        &&& self.next_unit matches Some(Ok(u)) ==> valid_unit(u)
    }

    /// No more units will come.
    pub closed spec fn is_finished(&self) -> bool {
        self.finished
    }

    /// The `key: value` entries of the header.
    pub closed spec fn header_entries(&self) -> Seq<(Seq<char>, Seq<char>)> {
        pair_views(self.header@)
    }

    pub closed spec fn language(&self) -> Seq<char> {
        self.target_language@
    }

    /// The tokens of the input not read yet.
    pub closed spec fn rest(&self) -> Seq<Tok> {
        self.lines.toks()
    }

    /// The item read ahead, which the next call of `next` hands out.
    pub closed spec fn pending(&self) -> Option<Result<Unit, Error>> {
        self.next_unit
    }

    /// The plural categories of the target language, in order.
    pub closed spec fn categories(&self) -> Seq<Count> {
        self.plurals@
    }

    /// Reads the first unit; where it is the header, takes the header entries and the target
    /// language from its target text and reads the next one.
    pub fn new(lines: LineIter) -> (r: PoReader)
        requires
            lines.wf(),
        ensures
            r.wf(),
            !r.is_finished(),
            r.categories().len() == 0,
            r.language() == language_for(last_value(r.header_entries(), "Language"@)),
            exists|first: Option<Result<Unit, Error>>, mid: Seq<Tok>|
                {
                    &&& read_item(lines.toks(), Seq::empty(), first, mid)
                    &&& match header_body(first) {
                        Some(b) => r.header_entries() == header_entries_from(b, 0) && read_item(
                            mid,
                            Seq::empty(),
                            r.pending(),
                            r.rest(),
                        ),
                        None => r.header_entries().len() == 0 && r.pending() == first && r.rest()
                            == mid,
                    }
                },
    {
        let ghost t0 = lines.toks();
        let mut lines = lines;
        let plurals: Vec<Count> = Vec::new();
        let first = next_unit(&mut lines, &plurals);
        let ghost fg = first;
        let ghost mid = lines.toks();
        assert(plurals@ =~= Seq::<Count>::empty());
        let mut header: Vec<(String, String)> = Vec::new();
        let next = if is_header(&first) {
            header = match &first {
                Some(Ok(u)) => match u.target.singular() {
                    Some(body) => parse_header(body),
                    None => parse_header(""),
                },
                _ => Vec::new(),
            };
            next_unit(&mut lines, &plurals)
        } else {
            first
        };
        let target_language = match header_value(&header, "Language") {
            Some(v) => resolve_language(v.as_str()),
            None => String::new(),
        };
        assert(target_language@ =~= language_for(last_value(pair_views(header@), "Language"@)));
        proof {
            if header_body(fg) is None {
                assert(pair_views(header@) =~= Seq::<(Seq<char>, Seq<char>)>::empty());
            }
        }
        let r = PoReader { lines, next_unit: next, finished: false, header, target_language, plurals };
        assert(read_item(t0, Seq::empty(), fg, mid));
        r
    }

    /// Reads the catalogue `text`, split into lines as [`LineIter::from_text`] does.
    pub fn from_text(text: &str) -> (r: PoReader)
        ensures
            r.wf(),
            !r.is_finished(),
            r.categories().len() == 0,
            r.language() == language_for(last_value(r.header_entries(), "Language"@)),
            exists|first: Option<Result<Unit, Error>>, mid: Seq<Tok>|
                {
                    &&& read_item(toks_from(text_lines(text@), 0, false), Seq::empty(), first, mid)
                    &&& match header_body(first) {
                        Some(b) => r.header_entries() == header_entries_from(b, 0) && read_item(
                            mid,
                            Seq::empty(),
                            r.pending(),
                            r.rest(),
                        ),
                        None => r.header_entries().len() == 0 && r.pending() == first && r.rest()
                            == mid,
                    }
                },
    {
        PoReader::new(LineIter::from_text(text))
    }

    /// The next unit, or the error that ends the catalogue; nothing once the catalogue has
    /// ended or an error has been handed out.
    pub fn next(&mut self) -> (r: Option<Result<Unit, Error>>)
        requires
            old(self).wf(),
        ensures
            final(self).wf(),
            old(self).is_finished() ==> r is None,
            old(self).is_finished() ==> final(self).is_finished(),
            r is None ==> final(self).is_finished(),
            r matches Some(Err(_)) ==> final(self).is_finished(),
            r matches Some(Ok(u)) ==> valid_unit(u),
            !old(self).is_finished() ==> r == old(self).pending(),
            !old(self).is_finished() && (old(self).pending() matches Some(Ok(_))) ==> !final(self).is_finished() && read_item(
                old(self).rest(),
                old(self).categories(),
                final(self).pending(),
                final(self).rest(),
            ),
            final(self).language() == old(self).language(),
            final(self).header_entries() == old(self).header_entries(),
            final(self).categories() == old(self).categories(),
    {
        if self.finished {
            return None;
        }
        match self.next_unit.take() {
            None => {
                self.finished = true;
                None
            },
            Some(Ok(u)) => {
                self.next_unit = next_unit(&mut self.lines, &self.plurals);
                Some(Ok(u))
            },
            Some(Err(e)) => {
                self.finished = true;
                Some(Err(e))
            },
        }
    }

    /// The `key: value` entries of the header, in order; later entries override earlier ones.
    pub fn header(&self) -> (r: &Vec<(String, String)>)
        ensures
            pair_views(r@) == self.header_entries(),
    {
        &self.header
    }

    /// The value of the header entry `key`.
    pub fn header_field(&self, key: &str) -> (r: Option<&String>)
        ensures
            match last_value(self.header_entries(), key@) {
                Some(v) => r is Some && r->Some_0@ == v,
                None => r is None,
            },
    {
        header_value(&self.header, key)
    }
}

/// A catalogue reader: the units come from the reader's `next`, the metadata from these methods.
pub trait CatalogueReader {
    /// The target language tag of the catalogue; empty for the invariant language.
    spec fn language_tag(&self) -> Seq<char>;

    /// The target language tag of the catalogue; empty for the invariant language.
    fn target_language(&self) -> (r: &str)
        ensures
            r@ == self.language_tag(),
    ;
}

impl CatalogueReader for PoReader {
    /// The language taken from the header when the reader was made; `next` leaves it as it is.
    open spec fn language_tag(&self) -> Seq<char> {
        self.language()
    }

    fn target_language(&self) -> (r: &str) {
        self.target_language.as_str()
    }
}

proof fn lemma_cont_end_exact(ts: Seq<Tok>, i: int, n: int, p: Seq<char>)
    requires
        1 <= i <= n + 1 <= ts.len(),
        forall|x: int| i <= x <= n ==> #[trigger] cont_fits(ts[x], p),
        n + 1 == ts.len() || !cont_fits(ts[n + 1], p),
    ensures
        cont_end(ts, i, p) == n + 1,
    decreases n + 1 - i,
{
    if i <= n {
        lemma_cont_end_exact(ts, i + 1, n, p);
    }
}

/// A tag line followed by `n` continuation lines with the same marker, and then by anything but
/// another such line or an error, reads as one text: the tag's text and the continuations' texts
/// concatenated in order; the `n + 1` lines are consumed.
pub proof fn lemma_continuations_concatenate(ts: Seq<Tok>, tag: Seq<char>, obsolete: bool, n: int)
    requires
        0 <= n,
        n + 1 <= ts.len(),
        tag_fits(ts[0], tag, obsolete),
        forall|x: int| 1 <= x <= n ==> #[trigger] cont_fits(ts[x], tok_marker(ts[0])),
        n + 1 == ts.len() || (!cont_fits(ts[n + 1], tok_marker(ts[0])) && !is_error_tok(ts[n + 1])),
    ensures
        take_msg(ts, tag, obsolete) == Taken::Text(tok_text(ts[0]) + texts(ts, 1, n + 1), (n + 1) as nat),
        forall|x: int| 1 <= x <= n ==> #[trigger] tok_text(ts[x]) == ts[x]->Line_1->Continuation_1,
{
    reveal(take_msg);
    lemma_cont_end_exact(ts, 1, n, tok_marker(ts[0]));
    assert forall|x: int| 1 <= x <= n implies #[trigger] tok_text(ts[x])
        == ts[x]->Line_1->Continuation_1 by {
        assert(cont_fits(ts[x], tok_marker(ts[0])));
    }
}

/// A tag line whose obsolete marker differs from the one the unit was started with is never
/// taken as the tag: reading it gives nothing and consumes nothing.
pub proof fn lemma_marker_mismatch_not_taken(ts: Seq<Tok>, tag: Seq<char>, obsolete: bool)
    requires
        ts.len() > 0,
        ts[0] matches Tok::Line(_, LineModel::Message(p, _, _)),
        is_obsolete_marker(tok_marker(ts[0])) != obsolete,
    ensures
        take_msg(ts, tag, obsolete) == Taken::Absent,
{
    reveal(take_msg);
}

/// Where a unit is read, every tag and continuation line it consumed carries the obsolete marker
/// exactly when the unit's first tag does.
pub proof fn lemma_unit_markers_uniform(
    before: Seq<Tok>,
    r: Result<Option<Unit>, Error>,
    after: Seq<Tok>,
    x: int,
)
    requires
        unit_read(before, r, after),
        r is Ok && r->Ok_0 is Some,
        comment_end(before, 0) <= x < before.len() - after.len(),
    ensures
        marked(before[x], first_obsolete(before.skip(comment_end(before, 0)))),
{
}


/// The line number of a token.
pub open spec fn tok_line(t: Tok) -> nat {
    match t {
        Tok::Line(n, _) => n,
        Tok::Bad(n, _) => n,
        Tok::Fault(n) => n,
    }
}

/// Where reading a unit off `before` needs a `msgstr`: the position after a singular `msgid`
/// block, when every tag before it was read without error.
pub open spec fn msgstr_expected_at(before: Seq<Tok>) -> Option<int> {
    let j = comment_end(before, 0);
    let rest = before.skip(j);
    let ob = first_obsolete(rest);
    let t1 = take_msg(before.skip(j), "|msgctxt"@, ob);
    let m1 = j + taken_len(t1);
    let t2 = take_msg(before.skip(m1), "|msgid"@, ob);
    let m2 = m1 + taken_len(t2);
    let t3 = if t2 is Text {
        take_msg(before.skip(m2), "|msgid_plural"@, ob)
    } else {
        Taken::Absent
    };
    let m3 = m2 + taken_len(t3);
    let t4 = take_msg(before.skip(m3), "msgctxt"@, ob);
    let m4 = m3 + taken_len(t4);
    let t5 = take_msg(before.skip(m4), "msgid"@, ob);
    let m5 = m4 + taken_len(t5);
    let t6 = take_msg(before.skip(m5), "msgid_plural"@, ob);
    let m6 = m5 + taken_len(t6);
    if rest.len() > 0 && !(t1 is Failed) && !(t2 is Failed) && !(t3 is Failed) && !(t4 is Failed)
        && t5 is Text && t6 is Absent {
        Some(m6)
    } else {
        None
    }
}

/// A unit whose `msgid` block is followed by a line that is not its `msgstr` (and is no error) is
/// a parse error at that line, naming `msgstr` as expected.
pub proof fn lemma_missing_msgstr(
    before: Seq<Tok>,
    plurals: Seq<Count>,
    r: Result<Option<Unit>, Error>,
    after: Seq<Tok>,
    m: int,
)
    requires
        unit_result(before, plurals, r, after),
        msgstr_expected_at(before) == Some(m),
        0 <= m < before.len(),
        !is_error_tok(before[m]),
        !tag_fits(before[m], "msgstr"@, first_obsolete(before.skip(comment_end(before, 0)))),
    ensures
        r is Err,
        r->Err_0 is Parse,
        r->Err_0->Parse_0 == tok_line(before[m]),
        names(r->Err_0->Parse_2@) == seq!["msgstr"@],
{
    reveal(take_msg);
    assert(before.skip(m).len() > 0);
    assert(before.skip(m)[0] == before[m]);
}

/// A `msgstr` whose obsolete marker differs from that of the unit's first tag is not taken into
/// the unit: reading the unit gives a parse error at its line, naming `msgstr` as expected.
pub proof fn lemma_msgstr_marker_mismatch(
    before: Seq<Tok>,
    plurals: Seq<Count>,
    r: Result<Option<Unit>, Error>,
    after: Seq<Tok>,
    m: int,
)
    requires
        unit_result(before, plurals, r, after),
        msgstr_expected_at(before) == Some(m),
        0 <= m < before.len(),
        before[m] matches Tok::Line(_, LineModel::Message(p, g, _)) && g == "msgstr"@,
        is_obsolete_marker(tok_marker(before[m])) != first_obsolete(
            before.skip(comment_end(before, 0)),
        ),
    ensures
        r is Err,
        r->Err_0 is Parse,
        r->Err_0->Parse_0 == tok_line(before[m]),
        names(r->Err_0->Parse_2@) == seq!["msgstr"@],
{
    lemma_missing_msgstr(before, plurals, r, after, m);
}

} // verus!

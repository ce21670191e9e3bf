//! Classification of single catalogue lines.
//!
//! Grammar, tried in order:
//! 1. only whitespace: a blank line;
//! 2. `marker? tag? "text"` with the marker one of `#~`, `#|`, `#~|` and the tag one of
//!    `msgctxt`, `msgid`, `msgid_plural`, `msgstr`, `msgstr[0]` .. `msgstr[5]`: a message tag, or
//!    without a tag a continuation;
//! 3. `#` with an optional kind (`:` locations, `.` developer note, `,` flags) and free text: a
//!    comment, of kind space when none is written (a translator note);
//! 4. anything else is malformed.

use vstd::prelude::*;
use crate::escape::{chars_of, unescape_range, unescaped};

verus! {

/// The `White_Space` characters of Unicode.
pub open spec fn is_ws(c: char) -> bool {
    let u = c as u32;
    (9 <= u <= 13) || u == 32 || u == 0x85 || u == 0xa0 || u == 0x1680 || (0x2000 <= u <= 0x200a)
        || u == 0x2028 || u == 0x2029 || u == 0x202f || u == 0x205f || u == 0x3000
}

pub(crate) fn is_ws_exec(c: char) -> (r: bool)
    ensures
        r == is_ws(c),
{
    let u = c as u32;
    (9 <= u && u <= 13) || u == 32 || u == 0x85 || u == 0xa0 || u == 0x1680 || (0x2000 <= u && u
        <= 0x200a) || u == 0x2028 || u == 0x2029 || u == 0x202f || u == 0x205f || u == 0x3000
}

/// The first position at or after `i` that holds no whitespace, or the end.
pub open spec fn skip_ws(s: Seq<char>, i: int) -> int
    decreases s.len() - i,
{
    if 0 <= i < s.len() && is_ws(s[i]) {
        skip_ws(s, i + 1)
    } else {
        i
    }
}

/// The end of `s[..j]` once trailing whitespace is cut off.
pub open spec fn trim_end(s: Seq<char>, j: int) -> int
    decreases j,
{
    if 0 < j <= s.len() && is_ws(s[j - 1]) {
        trim_end(s, j - 1)
    } else {
        j
    }
}

/// The length of the marker (`#~|`, `#~`, `#|` or none) at `i`.
pub open spec fn marker_len(s: Seq<char>, i: int) -> int {
    if i + 3 <= s.len() && s[i] == '#' && s[i + 1] == '~' && s[i + 2] == '|' {
        3
    } else if i + 2 <= s.len() && s[i] == '#' && (s[i + 1] == '~' || s[i + 1] == '|') {
        2
    } else {
        0
    }
}

/// The tag names, as written in a line.
pub open spec fn tag_words() -> Seq<Seq<char>> {
    seq![
        "msgctxt"@,
        "msgid"@,
        "msgid_plural"@,
        "msgstr"@,
        "msgstr[0]"@,
        "msgstr[1]"@,
        "msgstr[2]"@,
        "msgstr[3]"@,
        "msgstr[4]"@,
        "msgstr[5]"@,
    ]
}

/// `w` is written at `i`.
pub open spec fn word_at(s: Seq<char>, i: int, w: Seq<char>) -> bool {
    0 <= i && i + w.len() <= s.len() && s.subrange(i, i + w.len()) == w
}

/// A quote follows position `j`, after optional whitespace.
pub open spec fn quote_after(s: Seq<char>, j: int) -> bool {
    0 <= skip_ws(s, j) < s.len() && s[skip_ws(s, j)] == '"'
}

/// The first tag name, from the `k`-th on, that stands at `i` and is followed by a quote.
pub open spec fn tag_from(s: Seq<char>, i: int, k: int) -> Option<Seq<char>>
    decreases tag_words().len() - k,
{
    if k < 0 || k >= tag_words().len() {
        None
    } else if word_at(s, i, tag_words()[k]) && quote_after(s, i + tag_words()[k].len()) {
        Some(tag_words()[k])
    } else {
        tag_from(s, i, k + 1)
    }
}

/// What a well-formed line holds.
pub enum LineModel {
    Blank,
    /// Kind (`:`, `.`, `,` or space) and text.
    Comment(char, Seq<char>),
    /// Marker, tag (with `|` in front when the marker ends in `|`) and decoded text.
    Message(Seq<char>, Seq<char>, Seq<char>),
    /// Marker and decoded text.
    Continuation(Seq<char>, Seq<char>),
}

/// `#`, an optional kind and the text.
pub open spec fn classify_comment(s: Seq<char>) -> Option<LineModel> {
    let a = skip_ws(s, 0);
    if a < s.len() && s[a] == '#' {
        let has_kind = a + 1 < s.len() && (s[a + 1] == ':' || s[a + 1] == '.' || s[a + 1] == ',');
        let kind = if has_kind {
            s[a + 1]
        } else {
            ' '
        };
        let t = skip_ws(s, if has_kind {
            a + 2
        } else {
            a + 1
        });
        Some(LineModel::Comment(kind, s.subrange(t, s.len() as int)))
    } else {
        None
    }
}

/// The class of a line; `None` when it is malformed.
pub open spec fn classify(s: Seq<char>) -> Option<LineModel> {
    let a = skip_ws(s, 0);
    let m = marker_len(s, a);
    let marker = s.subrange(a, a + m);
    let b = skip_ws(s, a + m);
    let e = trim_end(s, s.len() as int);
    if a == s.len() {
        Some(LineModel::Blank)
    } else {
        match tag_from(s, b, 0) {
            Some(t) => {
                let q = skip_ws(s, b + t.len());
                if q < e - 1 && s[e - 1] == '"' {
                    let tag = if m == 2 && s[a + 1] == '~' {
                        t
                    } else if m == 0 {
                        t
                    } else {
                        seq!['|'] + t
                    };
                    Some(LineModel::Message(marker, tag, unescaped(s.subrange(q + 1, e - 1))))
                } else {
                    classify_comment(s)
                }
            },
            None => {
                if b < e - 1 && s[b] == '"' && s[e - 1] == '"' {
                    Some(LineModel::Continuation(marker, unescaped(s.subrange(b + 1, e - 1))))
                } else {
                    classify_comment(s)
                }
            },
        }
    }
}

/// A classified line with its 1-based number.
#[derive(Clone, Debug)]
pub enum PoLine {
    /// Number, kind (space for a translator note) and text.
    Comment(usize, char, String),
    /// Number, marker, tag and text.
    Message(usize, String, String, String),
    /// Number, marker and text.
    Continuation(usize, String, String),
    Blank,
}

impl PoLine {
    /// The line number, 0 for a blank line.
    pub open spec fn number(&self) -> usize {
        match self {
            PoLine::Comment(n, _, _) => *n,
            PoLine::Message(n, _, _, _) => *n,
            PoLine::Continuation(n, _, _) => *n,
            PoLine::Blank => 0,
        }
    }

    pub open spec fn model(&self) -> LineModel {
        match self {
            PoLine::Comment(_, k, t) => LineModel::Comment(*k, t@),
            PoLine::Message(_, p, g, t) => LineModel::Message(p@, g@, t@),
            PoLine::Continuation(_, p, t) => LineModel::Continuation(p@, t@),
            PoLine::Blank => LineModel::Blank,
        }
    }
}

pub(crate) fn skip_ws_exec(s: &Vec<char>, i: usize) -> (r: usize)
    requires
        i <= s@.len(),
    ensures
        r == skip_ws(s@, i as int),
        i <= r <= s@.len(),
{
    let mut j = i;
    while j < s.len() && is_ws_exec(s[j])
        invariant
            i <= j <= s@.len(),
            skip_ws(s@, j as int) == skip_ws(s@, i as int),
        decreases s@.len() - j,
    {
        j = j + 1;
    }
    j
}

pub(crate) fn trim_end_exec(s: &Vec<char>) -> (r: usize)
    ensures
        r == trim_end(s@, s@.len() as int),
        r <= s@.len(),
{
    let mut j = s.len();
    while j > 0 && is_ws_exec(s[j - 1])
        invariant
            j <= s@.len(),
            trim_end(s@, j as int) == trim_end(s@, s@.len() as int),
        decreases j,
    {
        j = j - 1;
    }
    j
}

fn word_at_exec(s: &Vec<char>, i: usize, w: &Vec<char>) -> (r: bool)
    requires
        i <= s@.len(),
    ensures
        r == word_at(s@, i as int, w@),
{
    let sl = s.len();
    if w.len() > sl - i {
        return false;
    }
    let mut k: usize = 0;
    while k < w.len()
        invariant
            sl == s@.len(),
            i + w@.len() <= s@.len(),
            k <= w@.len(),
            forall|x: int| 0 <= x < k ==> s@[i + x] == w@[x],
        decreases w@.len() - k,
    {
        if s[i + k] != w[k] {
            assert(s@.subrange(i as int, i + w@.len())[k as int] != w@[k as int]);
            return false;
        }
        k = k + 1;
    }
    assert(s@.subrange(i as int, i + w@.len()) =~= w@);
    true
}

pub(crate) fn tag_words_exec() -> (r: Vec<&'static str>)
    ensures
        r@.len() == tag_words().len(),
        forall|k: int| 0 <= k < r@.len() ==> (#[trigger] r@[k])@ == tag_words()[k],
{
    let r = vec![
        "msgctxt",
        "msgid",
        "msgid_plural",
        "msgstr",
        "msgstr[0]",
        "msgstr[1]",
        "msgstr[2]",
        "msgstr[3]",
        "msgstr[4]",
        "msgstr[5]",
    ];
    assert(forall|k: int| 0 <= k < r@.len() ==> (#[trigger] r@[k])@ == tag_words()[k]);
    r
}

fn tag_from_exec(s: &Vec<char>, i: usize) -> (r: Option<&'static str>)
    requires
        i <= s@.len(),
    ensures
        match tag_from(s@, i as int, 0) {
            Some(t) => r is Some && r->Some_0@ == t,
            None => r is None,
        },
        r is Some ==> word_at(s@, i as int, r->Some_0@),
{
    let words = tag_words_exec();
    let sl = s.len();
    let mut k: usize = 0;
    while k < words.len()
        invariant
            sl == s@.len(),
            i <= s@.len(),
            words@.len() == tag_words().len(),
            forall|x: int| 0 <= x < words@.len() ==> (#[trigger] words@[x])@ == tag_words()[x],
            k <= words@.len(),
            tag_from(s@, i as int, k as int) == tag_from(s@, i as int, 0),
        decreases words@.len() - k,
    {
        let w = chars_of(words[k]);
        assert(w@ == tag_words()[k as int]);
        if word_at_exec(s, i, &w) {
            let q = skip_ws_exec(s, i + w.len());
            if q < s.len() && s[q] == '"' {
                return Some(words[k]);
            }
        }
        k = k + 1;
    }
    None
}

/// A copy of `s[lo..hi]`.
pub(crate) fn substring(s: &Vec<char>, lo: usize, hi: usize) -> (r: String)
    requires
        lo <= hi <= s@.len(),
    ensures
        r@ == s@.subrange(lo as int, hi as int),
{
    let mut r = String::new();
    let mut i = lo;
    while i < hi
        invariant
            lo <= i <= hi <= s@.len(),
            r@ == s@.subrange(lo as int, i as int),
        decreases hi - i,
    {
        r.push(s[i]);
        i = i + 1;
        assert(r@ =~= s@.subrange(lo as int, i as int));
    }
    r
}

fn classify_comment_exec(s: &Vec<char>, n: usize) -> (r: Option<PoLine>)
    ensures
        match classify_comment(s@) {
            Some(m) => r is Some && r->Some_0.model() == m && r->Some_0.number() == n,
            None => r is None,
        },
{
    let a = skip_ws_exec(s, 0);
    if a < s.len() && s[a] == '#' {
        let has_kind = a + 1 < s.len() && (s[a + 1] == ':' || s[a + 1] == '.' || s[a + 1] == ',');
        let kind = if has_kind {
            s[a + 1]
        } else {
            ' '
        };
        let t = skip_ws_exec(s, if has_kind {
            a + 2
        } else {
            a + 1
        });
        Some(PoLine::Comment(n, kind, substring(s, t, s.len())))
    } else {
        None
    }
}

/// Classifies line `line`, numbered `n`; `None` when it is malformed.
pub fn parse_po_line(line: &str, n: usize) -> (r: Option<PoLine>)
    ensures
        match classify(line@) {
            Some(m) => r is Some && r->Some_0.model() == m && (m is Blank || r->Some_0.number()
                == n),
            None => r is None,
        },
{
    let s = chars_of(line);
    let a = skip_ws_exec(&s, 0);
    if a == s.len() {
        return Some(PoLine::Blank);
    }
    let m: usize = if s.len() - a >= 3 && s[a] == '#' && s[a + 1] == '~' && s[a + 2] == '|' {
        3
    } else if s.len() - a >= 2 && s[a] == '#' && (s[a + 1] == '~' || s[a + 1] == '|') {
        2
    } else {
        0
    };
    let b = skip_ws_exec(&s, a + m);
    let e = trim_end_exec(&s);
    match tag_from_exec(&s, b) {
        Some(t) => {
            let tw = chars_of(t);
            let q = skip_ws_exec(&s, b + tw.len());
            if e > 0 && q < e - 1 && s[e - 1] == '"' {
                let mut tag = String::new();
                if m == 3 || (m == 2 && s[a + 1] == '|') {
                    tag.push('|');
                }
                let mut k: usize = 0;
                let ghost base = tag@;
                while k < tw.len()
                    invariant
                        k <= tw@.len(),
                        tag@ == base + tw@.subrange(0, k as int),
                    decreases tw@.len() - k,
                {
                    tag.push(tw[k]);
                    k = k + 1;
                    assert(tag@ =~= base + tw@.subrange(0, k as int));
                }
                assert(tw@.subrange(0, tw@.len() as int) =~= tw@);
                proof {
                    if m == 3 || (m == 2 && s@[a + 1] == '|') {
                        assert(base =~= seq!['|']);
                    } else {
                        assert(base + tw@ =~= tw@);
                    }
                }
                let text = unescape_range(&s, q + 1, e - 1);
                Some(PoLine::Message(n, substring(&s, a, a + m), tag, text))
            } else {
                classify_comment_exec(&s, n)
            }
        },
        None => {
            if e > 0 && b < e - 1 && s[b] == '"' && s[e - 1] == '"' {
                let text = unescape_range(&s, b + 1, e - 1);
                Some(PoLine::Continuation(n, substring(&s, a, a + m), text))
            } else {
                classify_comment_exec(&s, n)
            }
        },
    }
}

} // verus!

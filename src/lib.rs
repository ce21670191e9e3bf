//! Translation catalogues: the list of messages of an application, possibly disambiguated with
//! contexts, and their translations.
//!
//! This crate reads catalogues in the Uniforum Portable Object (`.po`) format used by GNU gettext
//! into a sequence of translation [`Unit`]s.

use vstd::prelude::*;

pub mod escape;
pub mod language;
pub mod line;
pub mod po;

pub use crate::po::{CatalogueReader, PoReader};

verus! {

/// Plural variants.
///
/// Which variants are used depends on the language. In English 1 is One and everything else is
/// Other; other languages have more cases, Arabic all six.
#[derive(Copy, Clone, Debug, PartialEq, Eq, PartialOrd, Ord, Hash, Structural)]
pub enum Count {
    /// Zero has a separate variant in some languages.
    Zero,
    /// One. In some languages also includes zero.
    One,
    /// Special case for two.
    Two,
    /// Small number. What is a small number depends on the language.
    Few,
    /// Large number. What is a large number depends on the language.
    Many,
    /// Any other number.
    Other,
}

impl Count {
    /// Position of the category in the declared order `Zero < One < ... < Other`.
    pub open spec fn rank(self) -> int {
        match self {
            Count::Zero => 0,
            Count::One => 1,
            Count::Two => 2,
            Count::Few => 3,
            Count::Many => 4,
            Count::Other => 5,
        }
    }
}

impl Default for Count {
    fn default() -> (r: Count)
        ensures
            r == Count::One,
    {
        Count::One
    }
}

/// String wrapper possibly with plural variants.
///
/// This is used for source and target strings in a translation [`Unit`].
#[derive(Clone, Debug, PartialEq, Eq, PartialOrd, Ord, Hash)]
pub enum Message {
    /// Unset message, used for untranslated entries.
    Empty,
    /// Message independent of any count.
    Singular(String),
    /// Count-dependent message: the variants in increasing order of their `Count`, each
    /// `Count` at most once. A vector rather than an ordered map: what a `BTreeMap` holds can be
    /// stated only for a key type whose order Verus can read, and a derived `Ord` is not read.
    Plural(Vec<(Count, String)>),
}

/// The variants are keyed by strictly increasing categories.
pub open spec fn variants_ordered(v: Seq<(Count, String)>) -> bool {
    forall|i: int, j: int| 0 <= i < j < v.len() ==> v[i].0.rank() < v[j].0.rank()
}

impl Message {
    /// The keys of a plural message are unique and ordered.
    pub open spec fn wf(&self) -> bool {
        match self {
            Message::Plural(v) => variants_ordered(v@),
            _ => true,
        }
    }

    /// No text at all: unset, an empty singular string, or plural variants that are all empty.
    pub open spec fn blank(&self) -> bool {
        match self {
            Message::Empty => true,
            Message::Singular(s) => s@.len() == 0,
            Message::Plural(v) => forall|i: int| 0 <= i < v@.len() ==> (#[trigger] v@[i]).1@.len() == 0,
        }
    }

    pub fn is_empty(&self) -> (r: bool)
        ensures
            r == self is Empty,
    {
        match self {
            Message::Empty => true,
            _ => false,
        }
    }

    pub fn is_singular(&self) -> (r: bool)
        ensures
            r == self is Singular,
    {
        match self {
            Message::Singular(_) => true,
            _ => false,
        }
    }

    pub fn is_plural(&self) -> (r: bool)
        ensures
            r == self is Plural,
    {
        match self {
            Message::Plural(_) => true,
            _ => false,
        }
    }

    pub fn is_blank(&self) -> (r: bool)
        ensures
            r == self.blank(),
    {
        match self {
            Message::Empty => true,
            Message::Singular(s) => s.as_str().unicode_len() == 0,
            Message::Plural(v) => {
                let mut i: usize = 0;
                while i < v.len()
                    invariant
                        self is Plural && self->Plural_0@ == v@,
                        i <= v@.len(),
                        forall|j: int| 0 <= j < i ==> (#[trigger] v@[j]).1@.len() == 0,
                    decreases v@.len() - i,
                {
                    let text = v[i].1.as_str();
                    if text.unicode_len() != 0 {
                        assert(v@[i as int].1@.len() != 0);
                        return false;
                    }
                    i = i + 1;
                }
                true
            },
        }
    }

    pub fn singular(&self) -> (r: Option<&str>)
        ensures
            self is Singular ==> r is Some && r->Some_0@ == self->Singular_0@,
            !(self is Singular) ==> r is None,
    {
        match self {
            Message::Singular(s) => Some(s.as_str()),
            _ => None,
        }
    }
}

impl Default for Message {
    fn default() -> (r: Message)
        ensures
            r is Empty,
    {
        Message::Empty
    }
}

/// Note (comment) origins.
#[derive(Clone, Debug, PartialEq, Eq, PartialOrd, Ord, Hash)]
pub enum Origin {
    /// Comment from developer.
    Developer,
    /// Comment from translator.
    Translator,
    /// Comment with explicit author or context tag.
    Tag(String),
}

/// Translation state: whether the translation is considered usable.
#[derive(Copy, Clone, PartialEq, Eq, PartialOrd, Ord, Debug, Hash, Structural)]
pub enum State {
    /// The unit is not translated.
    Empty,
    /// The unit is a suggestion that needs checking by a human translator before it can be used
    /// (`#, fuzzy` entries in `.po`).
    NeedsWork,
    /// The unit is considered usable.
    Final,
}

impl Default for State {
    fn default() -> (r: State)
        ensures
            r == State::Empty,
    {
        State::Empty
    }
}

/// Elementary unit of translation.
///
/// A unit holds one *source* string, at most one *target* string, an optional *context* that
/// disambiguates the source, and a state that tells whether the unit is usable. It can also hold
/// notes from the developer or translator, locations in the program's source, the previous source
/// and context of a fuzzy match, and a flag marking it obsolete.
#[derive(Clone, Debug)]
pub struct Unit {
    pub context: Option<String>,
    pub source: Message,
    pub target: Message,
    pub prev_context: Option<String>,
    pub prev_source: Message,
    pub notes: Vec<(Origin, String)>,
    pub locations: Vec<String>,
    pub state: State,
    pub obsolete: bool,
}

impl Unit {
    /// A unit with nothing set.
    pub open spec fn is_fresh(&self) -> bool {
        &&& self.context is None
        &&& self.source is Empty
        &&& self.target is Empty
        &&& self.prev_context is None
        &&& self.prev_source is Empty
        &&& self.notes@.len() == 0
        &&& self.locations@.len() == 0
        &&& self.state == State::Empty
        &&& !self.obsolete
    }

    pub fn fresh() -> (r: Unit)
        ensures
            r.is_fresh(),
    {
        Unit {
            context: None,
            source: Message::Empty,
            target: Message::Empty,
            prev_context: None,
            prev_source: Message::Empty,
            notes: Vec::new(),
            locations: Vec::new(),
            state: State::Empty,
            obsolete: false,
        }
    }

    /// Get the context string.
    pub fn context(&self) -> (r: &Option<String>)
        ensures
            r == &self.context,
    {
        &self.context
    }

    /// Get the source string.
    pub fn source(&self) -> (r: &Message)
        ensures
            r == &self.source,
    {
        &self.source
    }

    /// Get the target string.
    pub fn target(&self) -> (r: &Message)
        ensures
            r == &self.target,
    {
        &self.target
    }

    /// Get the previous context (in fuzzy units).
    pub fn prev_context(&self) -> (r: &Option<String>)
        ensures
            r == &self.prev_context,
    {
        &self.prev_context
    }

    /// Get the previous source (in fuzzy units).
    pub fn prev_source(&self) -> (r: &Message)
        ensures
            r == &self.prev_source,
    {
        &self.prev_source
    }

    /// Get the notes.
    pub fn notes(&self) -> (r: &Vec<(Origin, String)>)
        ensures
            r == &self.notes,
    {
        &self.notes
    }

    /// Get the locations.
    pub fn locations(&self) -> (r: &Vec<String>)
        ensures
            r == &self.locations,
    {
        &self.locations
    }

    /// Get the state.
    pub fn state(&self) -> (r: State)
        ensures
            r == self.state,
    {
        self.state
    }

    /// Whether the unit should be used in the application.
    pub fn is_translated(&self) -> (r: bool)
        ensures
            r == (self.state == State::Final),
    {
        self.state == State::Final
    }

    /// Whether the unit is obsolete.
    pub fn is_obsolete(&self) -> (r: bool)
        ensures
            r == self.obsolete,
    {
        self.obsolete
    }
}

impl Default for Unit {
    fn default() -> (r: Unit)
        ensures
            r.is_fresh(),
    {
        Unit::fresh()
    }
}

/// Declared so that a read failure can travel inside [`Error`].
#[verifier::external_type_specification]
#[verifier::external_body]
pub struct ExIoError(std::io::Error);

/// Error in reading a catalogue.
#[derive(Debug)]
pub enum Error {
    /// A failure of the underlying text source.
    ///
    /// The first field is the 1-based line number where applicable (0 when not line-specific),
    /// the second the system error.
    Io(usize, std::io::Error),
    /// A parse error.
    ///
    /// Fields are the line number, the offending token if known, and the tokens that would have
    /// been accepted; an empty list means the parser cannot name them at that point.
    Parse(usize, Option<String>, Vec<&'static str>),
}

/// The decimal digit `d`.
pub open spec fn digit_char(d: nat) -> char {
    if d == 0 {
        '0'
    } else if d == 1 {
        '1'
    } else if d == 2 {
        '2'
    } else if d == 3 {
        '3'
    } else if d == 4 {
        '4'
    } else if d == 5 {
        '5'
    } else if d == 6 {
        '6'
    } else if d == 7 {
        '7'
    } else if d == 8 {
        '8'
    } else {
        '9'
    }
}

/// `n` written in decimal.
pub open spec fn decimal(n: nat) -> Seq<char>
    decreases n,
{
    if n < 10 {
        seq![digit_char(n)]
    } else {
        decimal(n / 10).push(digit_char(n % 10))
    }
}

/// `n` written in decimal.
pub fn decimal_string(n: usize) -> (r: String)
    ensures
        r@ == decimal(n as nat),
    decreases n,
{
    let d = n % 10;
    let c = if d == 0 {
        '0'
    } else if d == 1 {
        '1'
    } else if d == 2 {
        '2'
    } else if d == 3 {
        '3'
    } else if d == 4 {
        '4'
    } else if d == 5 {
        '5'
    } else if d == 6 {
        '6'
    } else if d == 7 {
        '7'
    } else if d == 8 {
        '8'
    } else {
        '9'
    };
    if n < 10 {
        let mut r = String::new();
        r.push(c);
        assert(r@ =~= seq![digit_char(n as nat)]);
        r
    } else {
        let mut r = decimal_string(n / 10);
        r.push(c);
        r
    }
}

/// The list of acceptable tokens in a parse error: `, expected ‘a’ or ‘b’ ...`.
pub open spec fn alternatives(exp: Seq<&'static str>) -> Seq<char>
    decreases exp.len(),
{
    if exp.len() == 0 {
        Seq::empty()
    } else {
        alternatives(exp.drop_last()) + (if exp.len() == 1 {
            ", expected"@
        } else {
            " or"@
        }) + " ‘"@ + exp.last()@ + "’"@
    }
}

/// The text of a parse error.
pub open spec fn parse_message(line: usize, got: Option<String>, exp: Seq<&'static str>) -> Seq<
    char,
> {
    "Parse error at line "@ + decimal(line as nat) + alternatives(exp) + match got {
        Some(g) => ", got ‘"@ + g@ + "’"@,
        None => Seq::empty(),
    }
}

/// The text of a read failure whose own text is `text`.
pub open spec fn io_message(text: Seq<char>, line: usize) -> Seq<char> {
    if line == 0 {
        text
    } else {
        text + " at line "@ + decimal(line as nat)
    }
}

/// Relies on `Display` of `std::io::Error`: the system's text for the failure.
#[verifier::external_body]
fn io_error_text(e: &std::io::Error) -> (r: String) {
    e.to_string()
}

/// The text of a read failure whose own text is `text`, at line `line` (0: not line-specific).
pub fn describe_io(text: String, line: usize) -> (r: String)
    ensures
        r@ == io_message(text@, line),
{
    if line == 0 {
        return text;
    }
    let mut r = text;
    r.append(" at line ");
    let n = decimal_string(line);
    r.append(n.as_str());
    r
}

impl Error {
    /// The line the error refers to; 0 when it is not line-specific.
    pub fn line(&self) -> (r: usize)
        ensures
            r == match self {
                Error::Io(n, _) => *n,
                Error::Parse(n, _, _) => *n,
            },
    {
        match self {
            Error::Io(n, _) => *n,
            Error::Parse(n, _, _) => *n,
        }
    }

    /// A human-readable description: for a parse error the line, the acceptable tokens and what
    /// was found; for a read failure the system's text, with the line where there is one.
    pub fn message(&self) -> (r: String)
        ensures
            *self matches Error::Parse(line, got, exp) ==> r@ == parse_message(line, got, exp@),
            *self matches Error::Io(line, _) ==> exists|t: Seq<char>| r@ == io_message(t, line),
    {
        match self {
            Error::Io(line, e) => {
                let t = io_error_text(e);
                let ghost tv = t@;
                let r = describe_io(t, *line);
                assert(r@ == io_message(tv, *line));
                r
            },
            Error::Parse(line, got, exp) => {
                let mut r = String::new();
                r.append("Parse error at line ");
                let n = decimal_string(*line);
                r.append(n.as_str());
                let mut i: usize = 0;
                let ghost base = r@;
                assert(exp@.take(0) =~= Seq::<&'static str>::empty());
                while i < exp.len()
                    invariant
                        i <= exp@.len(),
                        r@ == base + alternatives(exp@.take(i as int)),
                    decreases exp@.len() - i,
                {
                    if i == 0 {
                        r.append(", expected");
                    } else {
                        r.append(" or");
                    }
                    r.append(" ‘");
                    r.append(exp[i]);
                    r.append("’");
                    assert(exp@.take(i + 1).drop_last() =~= exp@.take(i as int));
                    i = i + 1;
                }
                assert(exp@.take(exp@.len() as int) =~= exp@);
                match got {
                    Some(g) => {
                        r.append(", got ‘");
                        r.append(g.as_str());
                        r.append("’");
                    },
                    None => {},
                }
                r
            },
        }
    }
}

} // verus!

use locale_config::LanguageRange;
use translate_storage::escape::unescape;
use translate_storage::line::{parse_po_line, PoLine};
use translate_storage::po::{has_fuzzy_flag, parse_header, split_words, LineIter};
use translate_storage::language::resolve_language;
use translate_storage::Message::{Empty, Plural, Singular};
use translate_storage::Origin::{Developer, Translator};
use translate_storage::{decimal_string, CatalogueReader, Count, Error, PoReader, State};

const SAMPLE_PO: &str = r###"
msgid ""
msgstr ""
"Project-Id-Version: translate-storage test\n"
"PO-Revision-Date: 2017-04-24 21:39+02:00\n"
"Last-Translator: Jan Hudec <bulb@ucw.cz>\n"
"Language-Team: Czech\n"
"Language: cs\n"
"MIME-Version: 1.0\n"
"Content-Type: text/plain; charset=ISO-8859-2\n"
"Content-Transfer-Encoding: 8bit\n"
"Plural-Forms: nplurals=3; plural=(n==1) ? 0 : (n>=2 && n<=4) ? 1 : 2;\n"

msgid "Simple message"
msgstr "Jednoduchá zpráva"

#. Extracted comment
# Translator comment
#: Location:42  Another:69
#, fuzzy
#| msgctxt "ConTeXt"
#| msgid "Previous message"
msgctxt "ConTeXt"
msgid "Changed message"
msgstr "Změněná\n"
"zpráva"

msgid "Untranslated message"
msgstr ""

# Another comment
#~ msgid "Obsolete message"
#~ msgstr "Zastaralá zpráva"

"###;

#[test]
fn integration_test() {
    let mut reader = PoReader::from_text(SAMPLE_PO);

    assert_eq!(LanguageRange::new("cs").unwrap().as_ref(), reader.target_language());

    let u1 = reader.next().unwrap().unwrap();
    assert_eq!(None, *u1.context());
    assert_eq!(Singular("Simple message".to_owned()), *u1.source());
    assert_eq!(Singular("Jednoduchá zpráva".to_owned()), *u1.target());
    assert_eq!(None, *u1.prev_context());
    assert_eq!(Empty, *u1.prev_source());
    assert!(u1.notes().is_empty());
    assert!(u1.locations().is_empty());
    assert_eq!(State::Final, u1.state());
    assert!(u1.is_translated());
    assert!(!u1.is_obsolete());

    let u2 = reader.next().unwrap().unwrap();
    assert_eq!(Some("ConTeXt".to_owned()), *u2.context());
    assert_eq!(Singular("Changed message".to_owned()), *u2.source());
    assert_eq!(Singular("Změněná\nzpráva".to_owned()), *u2.target());
    assert_eq!(Some("ConTeXt".to_owned()), *u2.prev_context());
    assert_eq!(Singular("Previous message".to_owned()), *u2.prev_source());
    assert_eq!(
        &[
            (Developer, "Extracted comment".to_owned()),
            (Translator, "Translator comment".to_owned()),
        ],
        u2.notes().as_slice()
    );
    assert_eq!(
        &["Location:42".to_owned(), "Another:69".to_owned()],
        u2.locations().as_slice()
    );
    assert_eq!(State::NeedsWork, u2.state());
    assert!(!u2.is_translated());
    assert!(!u2.is_obsolete());

    let u3 = reader.next().unwrap().unwrap();
    assert_eq!(None, *u3.context());
    assert_eq!(Singular("Untranslated message".to_owned()), *u3.source());
    assert_eq!(Singular("".to_owned()), *u3.target());
    assert_eq!(None, *u3.prev_context());
    assert_eq!(Empty, *u3.prev_source());
    assert!(u3.notes().is_empty());
    assert!(u3.locations().is_empty());
    assert_eq!(State::Empty, u3.state());
    assert!(!u3.is_translated());
    assert!(!u3.is_obsolete());

    let u4 = reader.next().unwrap().unwrap();
    assert_eq!(None, *u4.context());
    assert_eq!(Singular("Obsolete message".to_owned()), *u4.source());
    assert_eq!(Singular("Zastaralá zpráva".to_owned()), *u4.target());
    assert_eq!(None, *u4.prev_context());
    assert_eq!(Empty, *u4.prev_source());
    assert_eq!(&[(Translator, "Another comment".to_owned())], u4.notes().as_slice());
    assert!(u4.locations().is_empty());
    assert_eq!(State::Final, u4.state());
    assert!(u4.is_translated());
    assert!(u4.is_obsolete());

    assert!(reader.next().is_none());
}

#[test]
fn end_to_end_states_and_flags() {
    let mut reader = PoReader::from_text(SAMPLE_PO);
    let mut states = Vec::new();
    let mut obsolete = Vec::new();
    while let Some(u) = reader.next() {
        let u = u.unwrap();
        states.push(u.state());
        obsolete.push(u.is_obsolete());
    }
    assert_eq!(vec![State::Final, State::NeedsWork, State::Empty, State::Final], states);
    assert_eq!(vec![false, false, false, true], obsolete);
    assert_eq!("cs", reader.target_language());
}

#[test]
fn unescape_each_escape() {
    assert_eq!("\n", unescape("\\n"));
    assert_eq!("\t", unescape("\\t"));
    assert_eq!("\r", unescape("\\r"));
    assert_eq!("\"", unescape("\\\""));
    assert_eq!("\\", unescape("\\\\"));
    assert_eq!("a\nb\t\"c\"\\", unescape("a\\nb\\t\\\"c\\\"\\\\"));
}

#[test]
fn unescape_keeps_unknown_sequences() {
    assert_eq!("\\x\\u1", unescape("\\x\\u1"));
    assert_eq!("end\\", unescape("end\\"));
    assert_eq!("\\n", unescape("\\\\n"));
    assert_eq!("", unescape(""));
}

#[test]
fn unescape_round_trip() {
    let text = "tab\there \"quoted\" back\\slash\r\nnew";
    let mut written = String::new();
    for c in text.chars() {
        match c {
            '\n' => written.push_str("\\n"),
            '\t' => written.push_str("\\t"),
            '\r' => written.push_str("\\r"),
            '"' => written.push_str("\\\""),
            '\\' => written.push_str("\\\\"),
            c => written.push(c),
        }
    }
    assert_eq!(text, unescape(&written));
}

#[test]
fn classify_lines() {
    assert!(matches!(parse_po_line("   \t", 1), Some(PoLine::Blank)));
    assert!(matches!(parse_po_line("", 1), Some(PoLine::Blank)));
    match parse_po_line("msgid \"a\\tb\"", 3) {
        Some(PoLine::Message(3, p, t, s)) => {
            assert_eq!("", p);
            assert_eq!("msgid", t);
            assert_eq!("a\tb", s);
        }
        other => panic!("unexpected {:?}", other),
    }
    match parse_po_line("#~| msgid_plural \"x\"  ", 4) {
        Some(PoLine::Message(4, p, t, s)) => {
            assert_eq!("#~|", p);
            assert_eq!("|msgid_plural", t);
            assert_eq!("x", s);
        }
        other => panic!("unexpected {:?}", other),
    }
    match parse_po_line("#~ msgstr[2] \"y\"", 5) {
        Some(PoLine::Message(5, p, t, _)) => {
            assert_eq!("#~", p);
            assert_eq!("msgstr[2]", t);
        }
        other => panic!("unexpected {:?}", other),
    }
    match parse_po_line("#| \"more \\\"text\\\"\"", 6) {
        Some(PoLine::Continuation(6, p, s)) => {
            assert_eq!("#|", p);
            assert_eq!("more \"text\"", s);
        }
        other => panic!("unexpected {:?}", other),
    }
    match parse_po_line("#:  a.c:1 b.c:2", 7) {
        Some(PoLine::Comment(7, ':', s)) => assert_eq!("a.c:1 b.c:2", s),
        other => panic!("unexpected {:?}", other),
    }
    match parse_po_line("# plain note", 8) {
        Some(PoLine::Comment(8, ' ', s)) => assert_eq!("plain note", s),
        other => panic!("unexpected {:?}", other),
    }
    match parse_po_line("#,fuzzy", 9) {
        Some(PoLine::Comment(9, ',', s)) => assert_eq!("fuzzy", s),
        other => panic!("unexpected {:?}", other),
    }
    assert!(parse_po_line("msgid", 10).is_none());
    assert!(parse_po_line("msgid \"unterminated", 11).is_none());
    assert!(parse_po_line("msgstr[6] \"x\"", 12).is_none());
    assert!(parse_po_line("garbage", 13).is_none());
}

#[test]
fn flags_and_words() {
    assert!(has_fuzzy_flag("fuzzy"));
    assert!(has_fuzzy_flag("c-format,  fuzzy , no-wrap"));
    assert!(!has_fuzzy_flag("c-format, no-wrap"));
    assert!(!has_fuzzy_flag("fuzzyish"));
    assert!(!has_fuzzy_flag(""));
    assert_eq!(vec!["a:1".to_owned(), "b:2".to_owned()], split_words("  a:1 \t b:2  "));
    assert!(split_words("   ").is_empty());
}

#[test]
fn continuation_lines_concatenate() {
    let text = "msgid \"id\"\nmsgstr \"one \"\n\"two \"\n\"three\\n\"\n\"four\"\n";
    let mut reader = PoReader::from_text(text);
    let u = reader.next().unwrap().unwrap();
    assert_eq!(Singular("one two three\nfour".to_owned()), *u.target());
    assert!(reader.next().is_none());
}

#[test]
fn continuation_with_other_marker_is_not_taken() {
    let text = "msgid \"id\"\nmsgstr \"one\"\n#~ \"two\"\n";
    let mut reader = PoReader::from_text(text);
    let u = reader.next().unwrap().unwrap();
    assert_eq!(Singular("one".to_owned()), *u.target());
    match reader.next() {
        Some(Err(Error::Parse(3, Some(got), exp))) => {
            assert_eq!("\"", got);
            assert_eq!(vec!["msgid"], exp);
        }
        other => panic!("unexpected {:?}", other),
    }
}

#[test]
fn obsolete_mismatch_is_an_error() {
    let text = "#~ msgid \"old\"\nmsgstr \"new\"\n";
    let mut reader = PoReader::from_text(text);
    match reader.next() {
        Some(Err(Error::Parse(2, Some(got), exp))) => {
            assert_eq!("msgstr", got);
            assert_eq!(vec!["msgstr"], exp);
        }
        other => panic!("unexpected {:?}", other),
    }
    assert!(reader.next().is_none());
}

#[test]
fn obsolete_unit_with_all_markers() {
    let text = "#~ msgctxt \"c\"\n#~ msgid \"a\"\n#~ \"b\"\n#~ msgstr \"x\"\n";
    let mut reader = PoReader::from_text(text);
    let u = reader.next().unwrap().unwrap();
    assert!(u.is_obsolete());
    assert_eq!(Some("c".to_owned()), *u.context());
    assert_eq!(Singular("ab".to_owned()), *u.source());
    assert!(reader.next().is_none());
}

#[test]
fn state_derivation() {
    let text = "#, fuzzy\nmsgid \"a\"\nmsgstr \"x\"\n\n#, fuzzy\nmsgid \"b\"\nmsgstr \"\"\n\nmsgid \"c\"\nmsgstr \"y\"\n\nmsgid \"d\"\nmsgstr \"\"\n";
    let mut reader = PoReader::from_text(text);
    let mut states = Vec::new();
    while let Some(u) = reader.next() {
        states.push(u.unwrap().state());
    }
    assert_eq!(
        vec![State::NeedsWork, State::NeedsWork, State::Final, State::Empty],
        states
    );
}

#[test]
fn header_sets_language_and_is_not_yielded() {
    let text = "msgid \"\"\nmsgstr \"Language: cs\\n\"\n\nmsgid \"a\"\nmsgstr \"b\"\n";
    let mut reader = PoReader::from_text(text);
    assert_eq!("cs", reader.target_language());
    assert_eq!(Some(&"cs".to_owned()), reader.header_field("Language"));
    let u = reader.next().unwrap().unwrap();
    assert_eq!(Singular("a".to_owned()), *u.source());
    assert!(reader.next().is_none());
}

#[test]
fn no_header_gives_invariant_language() {
    let text = "msgid \"a\"\nmsgstr \"b\"\n";
    let mut reader = PoReader::from_text(text);
    assert_eq!("", reader.target_language());
    assert!(reader.header().is_empty());
    assert_eq!(Singular("a".to_owned()), *reader.next().unwrap().unwrap().source());
}

#[test]
fn header_language_forms() {
    assert_eq!("en-US", resolve_language("EN-us"));
    assert_eq!("cs-CZ", resolve_language("cs_CZ.UTF-8"));
    assert_eq!("", resolve_language("%%%"));
    assert_eq!("", resolve_language(""));
    let text = "msgid \"\"\nmsgstr \"Language: cs_CZ\\n\"\n";
    let reader = PoReader::from_text(text);
    assert_eq!("cs-CZ", reader.target_language());
}

#[test]
fn header_entries_later_override() {
    let h = parse_header("A: 1\nno colon here\n B : two: parts \nA: 3\n");
    assert_eq!(
        vec![
            ("A".to_owned(), "1".to_owned()),
            ("B".to_owned(), "two: parts".to_owned()),
            ("A".to_owned(), "3".to_owned()),
        ],
        h
    );
    let text = "msgid \"\"\nmsgstr \"Language: de\\nLanguage: fr\\n\"\n";
    let reader = PoReader::from_text(text);
    assert_eq!("fr", reader.target_language());
}

#[test]
fn missing_msgstr_names_it() {
    let text = "msgid \"a\"\n\"b\"\n\nmsgid \"c\"\nmsgstr \"d\"\n";
    let mut reader = PoReader::from_text(text);
    match reader.next() {
        Some(Err(Error::Parse(line, Some(got), exp))) => {
            assert_eq!(4, line);
            assert_eq!("msgid", got);
            assert_eq!(vec!["msgstr"], exp);
        }
        other => panic!("unexpected {:?}", other),
    }
    assert!(reader.next().is_none());
    assert!(reader.next().is_none());
}

#[test]
fn missing_msgid_after_comment() {
    let text = "# note\nmsgstr \"x\"\n";
    let mut reader = PoReader::from_text(text);
    match reader.next() {
        Some(Err(Error::Parse(2, Some(got), exp))) => {
            assert_eq!("msgstr", got);
            assert_eq!(vec!["msgid"], exp);
        }
        other => panic!("unexpected {:?}", other),
    }
}

#[test]
fn malformed_line_is_reported() {
    let text = "msgid \"a\"\nwhat is this\nmsgstr \"b\"\n";
    let mut reader = PoReader::from_text(text);
    match reader.next() {
        Some(Err(Error::Parse(2, Some(raw), exp))) => {
            assert_eq!("what is this", raw);
            assert!(exp.is_empty());
        }
        other => panic!("unexpected {:?}", other),
    }
    assert!(reader.next().is_none());
}

#[test]
fn read_failure_is_reported() {
    let lines = vec!["msgid \"a\"".to_owned(), "msgstr \"b\"".to_owned()];
    let fault = std::io::Error::new(std::io::ErrorKind::Other, "disk");
    let mut reader = PoReader::new(LineIter::new(lines, Some(fault)));
    match reader.next() {
        Some(Err(Error::Io(3, e))) => assert_eq!("disk", e.to_string()),
        other => panic!("unexpected {:?}", other),
    }
    assert!(reader.next().is_none());
}

#[test]
fn exhausted_reader_stays_exhausted() {
    let mut reader = PoReader::from_text("");
    assert!(reader.next().is_none());
    assert!(reader.next().is_none());
    let mut reader = PoReader::from_text("# only a comment\n");
    assert!(reader.next().is_none());
    assert!(reader.next().is_none());
}

#[test]
fn plural_source() {
    let text = "msgid \"file\"\nmsgid_plural \"files\"\nmsgstr[0] \"soubor\"\n";
    let mut reader = PoReader::from_text(text);
    let u = reader.next().unwrap().unwrap();
    assert_eq!(
        Plural(vec![(Count::One, "file".to_owned()), (Count::Other, "files".to_owned())]),
        *u.source()
    );
    assert_eq!(Plural(Vec::new()), *u.target());
    assert!(u.target().is_blank());
    assert_eq!(State::Empty, u.state());
}

#[test]
fn previous_plural_source() {
    let text = "#| msgid \"a\"\n#| msgid_plural \"as\"\nmsgid \"b\"\nmsgstr \"c\"\n";
    let mut reader = PoReader::from_text(text);
    let u = reader.next().unwrap().unwrap();
    assert_eq!(
        Plural(vec![(Count::One, "a".to_owned()), (Count::Other, "as".to_owned())]),
        *u.prev_source()
    );
}

#[test]
fn crlf_lines() {
    let text = "msgid \"a\"\r\nmsgstr \"b\"\r\n";
    let mut reader = PoReader::from_text(text);
    let u = reader.next().unwrap().unwrap();
    assert_eq!(Singular("b".to_owned()), *u.target());
}

#[test]
fn message_queries() {
    let s = Singular("x".to_owned());
    assert!(s.is_singular() && !s.is_plural() && !s.is_empty() && !s.is_blank());
    assert_eq!(Some("x"), s.singular());
    assert!(Empty.is_empty() && Empty.is_blank());
    assert_eq!(None, Empty.singular());
    assert!(Singular(String::new()).is_blank());
    let p = Plural(vec![(Count::One, String::new()), (Count::Other, "y".to_owned())]);
    assert!(p.is_plural() && !p.is_blank());
    assert_eq!(Count::One, Count::default());
    assert_eq!(State::Empty, State::default());
}

#[test]
fn error_messages() {
    let e = Error::Parse(12, Some("msgid".to_owned()), vec!["msgstr", "msgctxt"]);
    assert_eq!(
        "Parse error at line 12, expected ‘msgstr’ or ‘msgctxt’, got ‘msgid’",
        e.message()
    );
    assert_eq!("Parse error at line 0", Error::Parse(0, None, Vec::new()).message());
    let io = Error::Io(7, std::io::Error::new(std::io::ErrorKind::Other, "boom"));
    assert_eq!("boom at line 7", io.message());
    let io0 = Error::Io(0, std::io::Error::new(std::io::ErrorKind::Other, "boom"));
    assert_eq!("boom", io0.message());
    assert_eq!(7, io.line());
}

#[test]
fn decimal_numbers() {
    assert_eq!("0", decimal_string(0));
    assert_eq!("9", decimal_string(9));
    assert_eq!("10", decimal_string(10));
    assert_eq!("18446744073709551615", decimal_string(usize::MAX));
}

#[test]
fn non_ascii_language_value_is_invariant() {
    assert_eq!("", resolve_language("cs@abcdefg\u{212A}"));
    let text = "msgid \"\"\nmsgstr \"Language: cs@abcdefg\u{212A}\\n\"\n";
    let reader = PoReader::from_text(text);
    assert_eq!("", reader.target_language());
}

#[test]
fn language_fixed_after_reading() {
    let mut reader = PoReader::from_text(SAMPLE_PO);
    while reader.next().is_some() {}
    assert_eq!(LanguageRange::new("cs").unwrap().as_ref(), reader.target_language());
}

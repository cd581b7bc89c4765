use rj::lexers::{
    is_name, is_rbrace, names_equal, AttrType, JWord,
    classify_first_char, get_inflection, is_valid_identifier, lookup_primitive,
    populate_spellin_tables, spellin, spellin2, spellin3, state_machine, try_match_inplace_pattern,
    validate_token, CharClass, EmitAction, FirstCharClass, InflectionMarker, ParserState,
    PrimitiveType, SpellinTables, TokenEnvironment, TokenValidationResult,
};

#[test]
fn spellin_identity() {
    let tables = SpellinTables::new();
    assert_eq!(spellin(&tables, "hello"), "hello");
}

#[test]
fn spellin_two_char_mapping() {
    // set up a trivial mapping and exercise it
    let mut tables = SpellinTables::new();
    populate_spellin_tables(&mut tables);
    tables.set2(b'A', b'B', b'X');
    assert_eq!(spellin(&tables, "AB"), "X");
    // fallback when no mapping exists
    assert_eq!(spellin(&tables, "CD"), "CD");
}

#[test]
fn spellin_three_char_mapping() {
    let mut tables = SpellinTables::new();
    populate_spellin_tables(&mut tables);
    tables.set3(b'A', b'B', b'C', b'Y');
    assert_eq!(spellin(&tables, "ABC"), "Y");
}

#[test]
fn populated_tables_hold_known_spellings() {
    let mut tables = SpellinTables::new();
    assert_eq!(spellin2(&tables, b'=', b':'), 0);
    populate_spellin_tables(&mut tables);
    assert_eq!(spellin2(&tables, b'=', b':'), b'=');
    assert_eq!(spellin2(&tables, b'<', b'.'), b'<');
    assert_eq!(spellin3(&tables, b'<', b':', b':'), b'<');
    assert_eq!(spellin(&tables, "=:"), "=");
    assert_eq!(spellin(&tables, "<::"), "<");
    // with no three-byte entry the first two bytes decide
    assert_eq!(spellin(&tables, "<.x"), "<");
    // a three-byte entry wins over a two-byte one
    tables.set2(b'A', b'B', b'X');
    tables.set3(b'A', b'B', b'C', b'Y');
    assert_eq!(spellin(&tables, "ABC"), "Y");
    assert_eq!(spellin(&tables, "ABD"), "X");
}

#[test]
fn first_char_classes() {
    assert_eq!(classify_first_char(b'7'), FirstCharClass::Digit);
    assert_eq!(classify_first_char(b'q'), FirstCharClass::Alpha);
    assert_eq!(classify_first_char(b'Z'), FirstCharClass::Alpha);
    assert_eq!(classify_first_char(b'_'), FirstCharClass::Alpha);
    assert_eq!(classify_first_char(b'\''), FirstCharClass::Quote);
    assert_eq!(classify_first_char(b'+'), FirstCharClass::Ascii32to127);
    assert_eq!(classify_first_char(127), FirstCharClass::Ascii32to127);
    assert_eq!(classify_first_char(10), FirstCharClass::Other);
    assert_eq!(classify_first_char(200), FirstCharClass::Other);
}

#[test]
fn inflections() {
    assert_eq!(get_inflection("i."), InflectionMarker::Dot);
    assert_eq!(get_inflection("<:"), InflectionMarker::Colon);
    assert_eq!(get_inflection("."), InflectionMarker::NoInflection);
    assert_eq!(get_inflection("abc"), InflectionMarker::NoInflection);
}

#[test]
fn identifiers() {
    assert!(is_valid_identifier("abc_1"));
    assert!(!is_valid_identifier("_x"));
    assert!(!is_valid_identifier("1abc"));
    assert!(!is_valid_identifier(""));
    assert!(!is_valid_identifier("a-b"));
}

#[test]
fn primitives() {
    let p = lookup_primitive("+").unwrap();
    assert_eq!(p.code, b'+');
    assert_eq!(p.prim_type, PrimitiveType::Verb);
    assert!(p.is_permanent);
    assert_eq!(lookup_primitive("=").unwrap().prim_type, PrimitiveType::Conjunction);
    assert!(lookup_primitive("*").is_none());
    assert_eq!(lookup_primitive("+:"), lookup_primitive("+"));
    assert_eq!(lookup_primitive("-."), lookup_primitive("-"));
}

#[test]
fn validation_results() {
    let mut tables = SpellinTables::new();
    populate_spellin_tables(&mut tables);
    let env = TokenEnvironment::KeyboardNoLocals;
    match validate_token(&tables, "+", 0, env) {
        TokenValidationResult::Primitive(p) => assert_eq!(p.code, b'+'),
        other => panic!("unexpected {:?}", other),
    }
    // an inflected word is looked up without its inflection
    match validate_token(&tables, "=:", 0, env) {
        TokenValidationResult::Primitive(p) => assert_eq!(p.code, b'='),
        other => panic!("unexpected {:?}", other),
    }
    match validate_token(&tables, "+:", 0, env) {
        TokenValidationResult::Primitive(p) => {
            assert_eq!(p.code, b'+');
            assert_eq!(p.prim_type, PrimitiveType::Verb);
        },
        other => panic!("unexpected {:?}", other),
    }
    match validate_token(&tables, "é:", 0, env) {
        TokenValidationResult::Invalid(s) => assert_eq!(s, "non-ASCII character '195' at position 0"),
        other => panic!("unexpected {:?}", other),
    }
    match validate_token(&tables, "+..", 0, env) {
        TokenValidationResult::Primitive(p) => assert_eq!(p.code, b'+'),
        other => panic!("unexpected {:?}", other),
    }
    match validate_token(&tables, "abc", 3, env) {
        TokenValidationResult::Name(s) => assert_eq!(s, "abc"),
        other => panic!("unexpected {:?}", other),
    }
    match validate_token(&tables, "a-b", 3, env) {
        TokenValidationResult::Invalid(s) => assert_eq!(s, "invalid name: a-b"),
        other => panic!("unexpected {:?}", other),
    }
    match validate_token(&tables, "12", 0, env) {
        TokenValidationResult::Numeric(s) => assert_eq!(s, "12"),
        other => panic!("unexpected {:?}", other),
    }
    match validate_token(&tables, "'hi'", 0, env) {
        TokenValidationResult::String(s) => assert_eq!(s, "'hi'"),
        other => panic!("unexpected {:?}", other),
    }
    match validate_token(&tables, "@", 7, env) {
        TokenValidationResult::Invalid(s) => assert_eq!(s, "invalid start character '@' at position 7"),
        other => panic!("unexpected {:?}", other),
    }
    match validate_token(&tables, "é", 2, env) {
        TokenValidationResult::Invalid(s) => assert_eq!(s, "non-ASCII character '195' at position 2"),
        other => panic!("unexpected {:?}", other),
    }
    match validate_token(&tables, "", 0, env) {
        TokenValidationResult::Invalid(s) => assert_eq!(s, "empty token"),
        other => panic!("unexpected {:?}", other),
    }
}

#[test]
fn no_inplace_pattern_yet() {
    let words = vec![TokenValidationResult::Name(String::from("a"))];
    assert!(try_match_inplace_pattern(&words).is_none());
}

#[test]
fn state_machine_reads_quotes_and_comments() {
    // inside a string everything but a quote is taken silently
    assert_eq!(state_machine(ParserState::Quote, CharClass::Space), (ParserState::Quote, EmitAction::Nothing));
    assert_eq!(state_machine(ParserState::Quote, CharClass::Quote), (ParserState::EvenQuotes, EmitAction::Nothing));
    // N B . starts a comment that a line end closes
    let (s1, a1) = state_machine(ParserState::Space, CharClass::CharN);
    assert_eq!((s1, a1), (ParserState::N, EmitAction::Emit));
    let (s2, _) = state_machine(s1, CharClass::CharB);
    assert_eq!(s2, ParserState::NB);
    let (s3, _) = state_machine(s2, CharClass::Decimal);
    assert_eq!(s3, ParserState::NB_Dot);
    let (s4, _) = state_machine(s3, CharClass::Alpha);
    assert_eq!(s4, ParserState::TrailComment);
    assert_eq!(state_machine(s4, CharClass::Uninflect), (ParserState::Uninflectable, EmitAction::Both));
    // a space ends a number
    assert_eq!(state_machine(ParserState::Numeric, CharClass::Space), (ParserState::SpaceAfterNumeric, EmitAction::Emit));
    assert_eq!(state_machine(ParserState::Space, CharClass::Space), (ParserState::Space, EmitAction::Nothing));
}

#[test]
fn word_properties() {
    let brace = JWord { attr_type: AttrType { bits: 0 }, primitive_code: '}', name: String::new() };
    let greater = JWord { attr_type: AttrType { bits: 0 }, primitive_code: '>', name: String::new() };
    assert!(is_rbrace(&brace));
    assert!(!is_rbrace(&greater));
    let a = JWord { attr_type: AttrType::name_attr(), primitive_code: ' ', name: String::from("abc") };
    let b = JWord { attr_type: AttrType::name_attr(), primitive_code: ' ', name: String::from("abc") };
    assert!(is_name(&a));
    assert!(names_equal(&a, &b));
    assert!(!names_equal(&a, &brace));
}

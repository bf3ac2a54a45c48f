use macroword::tokenizer::LexerSettings;
use macroword::variables::{Instruction, Object, Resolved, SetEffect, Variables};

fn text_of(r: Resolved) -> String {
    match r {
        Resolved::Value(Object::Text(s)) => s,
        other => panic!("expected text, got {:?}", other),
    }
}

#[test]
fn set_then_get_round_trip() {
    let mut settings = LexerSettings::default();
    let mut vars = Variables::new();
    let eff = vars.set(String::from("name"), String::from("value"), &mut settings);
    assert!(matches!(eff, SetEffect::Done));
    assert_eq!(text_of(vars.get("name", &settings)), "value");
}

#[test]
fn unknown_name_resolves_to_empty_text() {
    let settings = LexerSettings::default();
    let vars = Variables::new();
    assert_eq!(text_of(vars.get("missing", &settings)), "");
}

#[test]
fn overwriting_a_binding_keeps_one_entry() {
    let mut settings = LexerSettings::default();
    let mut vars = Variables::new();
    vars.set(String::from("k"), String::from("first"), &mut settings);
    vars.set(String::from("k"), String::from("second"), &mut settings);
    assert_eq!(text_of(vars.get("k", &settings)), "second");
}

#[test]
fn keyword_suffixes_resolve_to_instructions() {
    let settings = LexerSettings::default();
    let vars = Variables::new();
    let cases = [
        (":", Instruction::SwapBuffer),
        ("\"", Instruction::SkipNext),
        ("!", Instruction::ExpandPrevious),
        ("?", Instruction::CrazySwap),
        (",", Instruction::JoinValues),
        (";", Instruction::EndLine),
        ("&", Instruction::DereferenceLast),
        ("<", Instruction::IfLess),
    ];
    for (sfx, expected) in cases {
        let key = format!("${}", sfx);
        match vars.get(&key, &settings) {
            Resolved::Value(Object::Keyword(op)) => assert_eq!(op, expected),
            other => panic!("{} resolved to {:?}", key, other),
        }
    }
}

#[test]
fn cached_name_and_value_are_live() {
    let mut settings = LexerSettings::default();
    let mut vars = Variables::new();
    assert_eq!(text_of(vars.get("$n", &settings)), "");
    assert_eq!(text_of(vars.get("$v", &settings)), "");
    vars.set(String::from("abc"), String::from("xyz"), &mut settings);
    assert_eq!(text_of(vars.get("$n", &settings)), "abc");
    assert_eq!(text_of(vars.get("$v", &settings)), "xyz");
    // A system-variable write still updates the cached pair.
    vars.set(String::from("$p"), String::from("file.mac"), &mut settings);
    assert_eq!(text_of(vars.get("$n", &settings)), "$p");
    assert_eq!(text_of(vars.get("$v", &settings)), "file.mac");
}

#[test]
fn file_path_read_and_write() {
    let mut settings = LexerSettings::default();
    let mut vars = Variables::new();
    assert_eq!(text_of(vars.get("$p", &settings)), "");
    vars.set(String::from("$p"), String::from("prog.mac"), &mut settings);
    assert_eq!(text_of(vars.get("$p", &settings)), "prog.mac");
    assert_eq!(vars.file_path(), "prog.mac");
}

#[test]
fn file_contents_read_is_delegated() {
    let settings = LexerSettings::default();
    let vars = Variables::new();
    assert!(matches!(vars.get("$f", &settings), Resolved::FileRead));
}

#[test]
fn input_reads_are_fatal() {
    let settings = LexerSettings::default();
    let vars = Variables::new();
    assert!(matches!(vars.get("$i", &settings), Resolved::FatalInput));
    assert!(matches!(
        vars.get("$I", &settings),
        Resolved::FatalNonBlockingInput
    ));
}

#[test]
fn console_and_file_writes_are_fatal() {
    let mut settings = LexerSettings::default();
    let mut vars = Variables::new();
    let eff = vars.set(String::from("$c"), String::from("ls"), &mut settings);
    assert!(matches!(eff, SetEffect::FatalConsole));
    let eff = vars.set(String::from("$f"), String::from("data"), &mut settings);
    assert!(matches!(eff, SetEffect::FatalFileWrite));
}

#[test]
fn output_write_hands_back_the_text() {
    let mut settings = LexerSettings::default();
    let mut vars = Variables::new();
    let eff = vars.set(String::from("$o"), String::from("hello"), &mut settings);
    match eff {
        SetEffect::Output(s) => assert_eq!(s, "hello"),
        other => panic!("expected output, got {:?}", other),
    }
}

#[test]
fn lexer_sets_read_and_write_through_sysvars() {
    let mut settings = LexerSettings::default();
    let mut vars = Variables::new();
    assert_eq!(text_of(vars.get("$u", &settings)), "");
    assert_eq!(text_of(vars.get("$s", &settings)), "\t\n\x0c\r ");
    assert_eq!(text_of(vars.get("$S", &settings)), " ");
    vars.set(String::from("$u"), String::from("+*"), &mut settings);
    vars.set(String::from("$s"), String::from(","), &mut settings);
    vars.set(String::from("$S"), String::from("_"), &mut settings);
    assert_eq!(settings.get_uniques(), "+*");
    assert_eq!(settings.get_separators(), ",");
    assert_eq!(settings.get_primary_sep(), "_");
    assert_eq!(text_of(vars.get("$u", &settings)), "+*");
}

#[test]
fn prefix_read_and_replacement() {
    let mut settings = LexerSettings::default();
    let mut vars = Variables::new();
    assert_eq!(text_of(vars.get("$$", &settings)), "$");
    vars.set(String::from("$$"), String::from("%"), &mut settings);
    assert_eq!(text_of(vars.get("%$", &settings)), "%");
    // The old prefix now names an ordinary variable.
    assert_eq!(text_of(vars.get("$u", &settings)), "");
    vars.set(String::from("$u"), String::from("stored"), &mut settings);
    assert_eq!(text_of(vars.get("$u", &settings)), "stored");
    assert_eq!(settings.get_uniques(), "");
    // The new prefix reaches the lexer sets.
    vars.set(String::from("%u"), String::from("+"), &mut settings);
    assert_eq!(settings.get_uniques(), "+");
}

#[test]
fn unrecognized_suffixes_degrade_silently() {
    let mut settings = LexerSettings::default();
    let mut vars = Variables::new();
    assert_eq!(text_of(vars.get("$z", &settings)), "");
    assert_eq!(text_of(vars.get("$uu", &settings)), "");
    let eff = vars.set(String::from("$z"), String::from("v"), &mut settings);
    assert!(matches!(eff, SetEffect::Done));
    let eff = vars.set(String::from("$uu"), String::from("v"), &mut settings);
    assert!(matches!(eff, SetEffect::Done));
    assert_eq!(settings.get_uniques(), "");
}

#[test]
fn set_object_stores_keywords_and_ignores_sysvars() {
    let mut settings = LexerSettings::default();
    let mut vars = Variables::new();
    vars.set_object(String::from("sw"), Object::Keyword(Instruction::SwapBuffer));
    assert!(matches!(
        vars.get("sw", &settings),
        Resolved::Value(Object::Keyword(Instruction::SwapBuffer))
    ));
    vars.set_object(String::from("$u"), Object::Text(String::from("+")));
    assert_eq!(settings.get_uniques(), "");
    assert_eq!(text_of(vars.get("$u", &settings)), "");
}

#[test]
fn text_write_overwrites_a_keyword_binding() {
    let mut settings = LexerSettings::default();
    let mut vars = Variables::new();
    vars.set_object(String::from("w"), Object::Keyword(Instruction::EndLine));
    vars.set(String::from("w"), String::from("plain"), &mut settings);
    assert_eq!(text_of(vars.get("w", &settings)), "plain");
}

#[test]
fn multi_character_prefix_works() {
    let mut settings = LexerSettings::default();
    let mut vars = Variables::new();
    vars.set(String::from("$$"), String::from("##"), &mut settings);
    assert_eq!(text_of(vars.get("##$", &settings)), "##");
    vars.set(String::from("##u"), String::from("+"), &mut settings);
    assert_eq!(settings.get_uniques(), "+");
    // A key holding the prefix alone has an empty suffix: it reads as
    // empty text and its write is ignored.
    assert_eq!(text_of(vars.get("##", &settings)), "");
    let eff = vars.set(String::from("##"), String::from("v"), &mut settings);
    assert!(matches!(eff, SetEffect::Done));
}

use konf::lexer::{Parser, Token};
use konf::parser::{parse_config_line, parse_files, ParseError, SourceFile, SourceLink};
use konf::{Entry, Type, Value};

fn one_file(text: &str) -> Vec<SourceFile> {
    vec![SourceFile { path: "Kconfig".to_string(), text: text.to_string() }]
}

fn no_links() -> Vec<SourceLink> {
    Vec::new()
}

#[test]
fn lexer_classifies_tokens() {
    let mut p = Parser::new("mainmenu source menu endmenu config default y n = FOO_BAR \"hi\" bool");
    assert!(matches!(p.next(), Some(Token::MainMenu)));
    assert!(matches!(p.next(), Some(Token::Source)));
    assert!(matches!(p.next(), Some(Token::Menu)));
    assert!(matches!(p.next(), Some(Token::EndMenu)));
    assert!(matches!(p.next(), Some(Token::Config)));
    assert!(matches!(p.next(), Some(Token::Default)));
    assert!(matches!(p.next(), Some(Token::Yes)));
    assert!(matches!(p.next(), Some(Token::No)));
    assert!(matches!(p.next(), Some(Token::Equals)));
    match p.next() {
        Some(Token::Name(s)) => assert_eq!(s, "FOO_BAR"),
        other => panic!("expected a name token, got {:?}", other),
    }
    match p.next() {
        Some(Token::Str(s)) => assert_eq!(s, "hi"),
        other => panic!("expected a string token, got {:?}", other),
    }
    assert!(matches!(p.next(), Some(Token::Ty(Type::Bool))));
    assert!(matches!(p.next(), None));
}

#[test]
fn lexer_peek_does_not_consume() {
    let mut p = Parser::new("config");
    assert!(matches!(p.peek(), Some(Token::Config)));
    assert!(matches!(p.peek(), Some(Token::Config)));
    assert!(matches!(p.next(), Some(Token::Config)));
    assert!(matches!(p.peek(), None));
}

#[test]
fn lexer_rejects_unknown_input() {
    let mut p = Parser::new("config @");
    assert!(matches!(p.next(), Some(Token::Config)));
    assert!(matches!(p.next(), Some(Token::Bad)));
    let mut q = Parser::new("\"unterminated");
    assert!(matches!(q.next(), Some(Token::Bad)));
    let mut r = Parser::new("\"\"");
    assert!(matches!(r.next(), Some(Token::Bad)));
    let mut w = Parser::new("blurb");
    assert!(matches!(w.next(), Some(Token::Bad)));
}

#[test]
fn parse_value_reads_boolean_literals_only() {
    let mut p = Parser::new("y n 5");
    assert_eq!(p.parse_value(), Some(Value::Bool(true)));
    assert_eq!(p.parse_value(), Some(Value::Bool(false)));
    assert_eq!(p.parse_value(), None);
}

#[test]
fn scenario_sample_config() {
    let text = "mainmenu \"Sample\"\n\nconfig FOO\n    bool \"Enable foo\"\n    default y\n";
    let mut k = parse_files("Kconfig", &one_file(text), &no_links()).unwrap();
    assert_eq!(k.name, "Sample");
    assert_eq!(k.vars.len(), 1);
    let foo = k.vars.get("FOO").unwrap();
    assert_eq!(foo.ty, Some(Type::Bool));
    assert_eq!(foo.desc.as_deref(), Some("Enable foo"));
    assert_eq!(foo.default, Some(Value::Bool(true)));
    assert_eq!(foo.value, None);
    k.load_default();
    assert_eq!(k.vars.get("FOO").unwrap().value, Some(Value::Bool(true)));
    assert_eq!(k.save_config_text(), "CONFIG_FOO=y\n");
}

#[test]
fn scenario_unset_line_decodes() {
    assert_eq!(
        parse_config_line("# CONFIG_BAR is not set"),
        Some(("BAR".to_string(), Value::Bool(false)))
    );
}

#[test]
fn scenario_nested_menus() {
    let text = "menu \"A\" \n menu \"B\" \n endmenu \n endmenu";
    let k = parse_files("Kconfig", &one_file(text), &no_links()).unwrap();
    assert_eq!(k.root.entries.len(), 1);
    let a = match &k.root.entries[0] {
        Entry::Menu(m) => m,
        other => panic!("expected a nested menu, got {:?}", other),
    };
    assert_eq!(a.name, "A");
    assert_eq!(a.entries.len(), 1);
    let b = match &a.entries[0] {
        Entry::Menu(m) => m,
        other => panic!("expected a nested menu, got {:?}", other),
    };
    assert_eq!(b.name, "B");
    assert!(b.entries.is_empty());
    assert_eq!(
        k.render(),
        "mainmenu \"(top)\"\n\nmenu \"A\"\n    menu \"B\"\n    endmenu\n\nendmenu\n\n"
    );
}

#[test]
fn scenario_bare_config() {
    let k = parse_files("Kconfig", &one_file("config NAME\n"), &no_links()).unwrap();
    let v = k.vars.get("NAME").unwrap();
    assert!(v.ty.is_none());
    assert!(v.desc.is_none());
    assert!(v.default.is_none());
    assert!(v.value.is_none());
    assert_eq!(k.render(), "mainmenu \"(top)\"\n\nconfig NAME\n");
}

#[test]
fn config_line_codec_cases() {
    assert_eq!(
        parse_config_line("CONFIG_FOO=y"),
        Some(("FOO".to_string(), Value::Bool(true)))
    );
    assert_eq!(
        parse_config_line(" CONFIG_FOO = n "),
        Some(("FOO".to_string(), Value::Bool(false)))
    );
    // the CONFIG_ prefix is required
    assert_eq!(parse_config_line("FOO=y"), None);
    // only boolean literals decode
    assert_eq!(parse_config_line("CONFIG_FOO=5"), None);
    assert_eq!(parse_config_line("CONFIG_FOO=\"x\""), None);
    // malformed or empty lines decode to nothing
    assert_eq!(parse_config_line(""), None);
    assert_eq!(parse_config_line("# just a comment"), None);
    assert_eq!(parse_config_line("CONFIG_FOO=y junk"), None);
    assert_eq!(parse_config_line("# CONFIG_ is not set"), None);
    assert_eq!(parse_config_line("# CONFIG_A B is not set"), None);
    assert_eq!(
        parse_config_line("# CONFIG_A-9 is not set"),
        Some(("A-9".to_string(), Value::Bool(false)))
    );
}

#[test]
fn mainmenu_is_global_even_nested() {
    let text = "menu \"A\"\nmainmenu \"Deep\"\nendmenu\n";
    let k = parse_files("Kconfig", &one_file(text), &no_links()).unwrap();
    assert_eq!(k.name, "Deep");
    match &k.root.entries[0] {
        Entry::Menu(m) => assert_eq!(m.name, "A"),
        other => panic!("expected a nested menu, got {:?}", other),
    }
}

#[test]
fn config_clauses_may_repeat_type() {
    let text = "config FOO\n    int\n    bool \"d\"\n";
    let k = parse_files("Kconfig", &one_file(text), &no_links()).unwrap();
    let foo = k.vars.get("FOO").unwrap();
    assert_eq!(foo.ty, Some(Type::Bool));
    assert_eq!(foo.desc.as_deref(), Some("d"));
}

#[test]
fn menu_without_label_is_skipped() {
    let text = "menu config FOO\n";
    let k = parse_files("Kconfig", &one_file(text), &no_links()).unwrap();
    assert_eq!(k.vars.len(), 1);
    assert!(k.vars.get("FOO").is_some());
}

#[test]
fn stray_endmenu_stops_the_root_block() {
    let text = "config A\nendmenu\nconfig B\n";
    let k = parse_files("Kconfig", &one_file(text), &no_links()).unwrap();
    assert_eq!(k.vars.len(), 1);
    assert!(k.vars.get("A").is_some());
}

#[test]
fn syntax_error_categories() {
    let run = |text: &str| parse_files("Kconfig", &one_file(text), &no_links());
    let e = run("mainmenu FOO").unwrap_err();
    assert!(matches!(e, ParseError::InvalidMainmenu));
    assert_eq!(e.message(), "Invalid option to `mainmenu`");
    let e = run("config \"x\"").unwrap_err();
    assert!(matches!(e, ParseError::InvalidConfigName));
    assert_eq!(e.message(), "Invalid name for `config`");
    let e = run("config FOO\n    default\n").unwrap_err();
    assert!(matches!(e, ParseError::MissingDefault));
    assert_eq!(e.message(), "Missing argument for `default`");
    let e = run("source FOO").unwrap_err();
    assert!(matches!(e, ParseError::InvalidSource));
    assert_eq!(e.message(), "invalid argument to `source`");
    let e = run("= y").unwrap_err();
    assert!(matches!(e, ParseError::InvalidToken));
    assert_eq!(e.message(), "invalid top level token");
    let e = run("@!").unwrap_err();
    assert!(matches!(e, ParseError::InvalidToken));
    let e = run("menu \"A\"\nconfig FOO\n").unwrap_err();
    assert!(matches!(e, ParseError::Unbalanced));
    let e = run("config FOO\n    default y\n    bool\n").unwrap_err();
    assert!(matches!(e, ParseError::InvalidToken));
}

#[test]
fn missing_root_file_asks_for_it() {
    let e = parse_files("Kconfig", &Vec::new(), &no_links()).unwrap_err();
    match e {
        ParseError::NeedFile { file, rel } => {
            assert_eq!(file, "");
            assert_eq!(rel, "Kconfig");
        },
        other => panic!("expected a request for the file, got {:?}", other),
    }
}

#[test]
fn source_without_resolution_asks_for_the_file() {
    let e = parse_files(
        "Kconfig",
        &one_file("source \"other/Kconfig\"\n"),
        &no_links(),
    )
    .unwrap_err();
    match e {
        ParseError::NeedFile { file, rel } => {
            assert_eq!(file, "Kconfig");
            assert_eq!(rel, "other/Kconfig");
        },
        other => panic!("expected a request for the file, got {:?}", other),
    }
}

#[test]
fn source_merges_the_other_files_variables() {
    let files = vec![
        SourceFile {
            path: "Kconfig".to_string(),
            text: "config A\n    bool\n    default y\nsource \"sub\"\n".to_string(),
        },
        SourceFile {
            path: "/abs/sub".to_string(),
            text: "mainmenu \"Sub\"\nconfig A\n    int\nconfig B\n    bool\n".to_string(),
        },
    ];
    let links = vec![SourceLink {
        file: "Kconfig".to_string(),
        rel: "sub".to_string(),
        target: "/abs/sub".to_string(),
    }];
    let k = parse_files("Kconfig", &files, &links).unwrap();
    // the sourced file's definition wins for the shared name
    assert_eq!(k.vars.len(), 2);
    assert_eq!(k.vars.get("A").unwrap().ty, Some(Type::Int));
    assert!(k.vars.get("B").is_some());
    // the sourced file's menu tree and display name are discarded, and
    // sourcing adds no entry of its own
    assert_eq!(k.name, "(top)");
    assert_eq!(k.root.entries.len(), 1);
}

#[test]
fn cyclic_source_chain_is_refused() {
    let files = vec![
        SourceFile { path: "A".to_string(), text: "source \"B\"\n".to_string() },
        SourceFile { path: "B".to_string(), text: "source \"A\"\n".to_string() },
    ];
    let links = vec![
        SourceLink { file: "A".to_string(), rel: "B".to_string(), target: "B".to_string() },
        SourceLink { file: "B".to_string(), rel: "A".to_string(), target: "A".to_string() },
    ];
    let e = parse_files("A", &files, &links).unwrap_err();
    assert!(matches!(e, ParseError::SourceLoop));
}

#[test]
fn menu_outline_names_entries() {
    let text = "menu \"A\"\nconfig FOO\nmenu \"B\"\nendmenu\nendmenu\n";
    let k = parse_files("Kconfig", &one_file(text), &no_links()).unwrap();
    let a = match &k.root.entries[0] {
        Entry::Menu(m) => m,
        other => panic!("expected a nested menu, got {:?}", other),
    };
    assert_eq!(a.outline(), "menu \"A\"\n  FOO\nmenu \"B\"\nendmenu\nendmenu\n");
}

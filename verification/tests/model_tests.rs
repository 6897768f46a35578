use konf::render::spaces;
use konf::{KConfig, Type, Value, Variable};

#[test]
fn type_keywords_parse() {
    assert_eq!(Type::new("bool"), Some(Type::Bool));
    assert_eq!(Type::new("int"), Some(Type::Int));
    assert_eq!(Type::new("hex"), Some(Type::Hex));
    assert_eq!(Type::new("string"), Some(Type::String));
    assert_eq!(Type::new("Bool"), None);
    assert_eq!(Type::new("float"), None);
    assert_eq!(Type::new(""), None);
}

#[test]
fn type_keywords_reversible() {
    for t in [Type::Bool, Type::Int, Type::Hex, Type::String] {
        assert_eq!(Type::new(t.keyword()), Some(t));
    }
}

#[test]
fn value_rendering() {
    assert_eq!(Value::Bool(true).render(), "y");
    assert_eq!(Value::Bool(false).render(), "n");
    assert_eq!(Value::Int(0).render(), "0");
    assert_eq!(Value::Int(42).render(), "42");
    assert_eq!(Value::Int(-5).render(), "-5");
    assert_eq!(Value::Int(i64::MIN).render(), "-9223372036854775808");
    assert_eq!(Value::Int(i64::MAX).render(), "9223372036854775807");
    assert_eq!(Value::Hex(0).render(), "0x0");
    assert_eq!(Value::Hex(31).render(), "0x1f");
    assert_eq!(Value::Hex(u64::MAX).render(), "0xffffffffffffffff");
    assert_eq!(Value::String("hello".to_string()).render(), "hello");
}

#[test]
fn variable_new_is_blank() {
    let v = Variable::new("FOO");
    assert_eq!(v.name, "FOO");
    assert!(v.ty.is_none());
    assert!(v.desc.is_none());
    assert!(v.value.is_none());
    assert!(v.default.is_none());
}

#[test]
fn spaces_are_four_per_level() {
    assert_eq!(spaces(0), "");
    assert_eq!(spaces(1), "    ");
    assert_eq!(spaces(3), "            ");
}

#[test]
fn variable_pretty_format_full() {
    let mut v = Variable::new("FOO");
    v.ty = Some(Type::Bool);
    v.desc = Some("Enable foo".to_string());
    v.default = Some(Value::Bool(true));
    v.value = Some(Value::Bool(false));
    let text = v.pretty_format(0);
    assert_eq!(
        text,
        "config FOO\n    bool \"Enable foo\"\n    default y\n    # current n\n"
    );
}

#[test]
fn variable_pretty_format_bare() {
    let v = Variable::new("NAME");
    assert_eq!(v.pretty_format(0), "config NAME\n");
    assert_eq!(v.pretty_format(1), "    config NAME\n");
}

#[test]
fn kconfig_new_is_empty() {
    let k = KConfig::new();
    assert_eq!(k.name, "config");
    assert_eq!(k.root.name, "(top)");
    assert!(k.root.entries.is_empty());
    assert_eq!(k.vars.len(), 0);
}

fn var_with_default(name: &str, default: Option<Value>) -> Variable {
    let mut v = Variable::new(name);
    v.ty = Some(Type::Bool);
    v.default = default;
    v
}

#[test]
fn load_default_copies_defaults() {
    let mut k = KConfig::new();
    k.add_var(var_with_default("A", Some(Value::Bool(true))));
    k.add_var(var_with_default("B", Some(Value::Bool(false))));
    k.add_var(var_with_default("C", None));
    let mut d = Variable::new("D");
    d.value = Some(Value::Bool(true));
    k.add_var(d);
    k.load_default();
    assert_eq!(k.vars.get("A").unwrap().value, Some(Value::Bool(true)));
    assert_eq!(k.vars.get("B").unwrap().value, Some(Value::Bool(false)));
    assert_eq!(k.vars.get("C").unwrap().value, None);
    // a variable without a default has its current value cleared
    assert_eq!(k.vars.get("D").unwrap().value, None);
}

#[test]
fn add_var_overwrites_in_place() {
    let mut k = KConfig::new();
    k.add_var(var_with_default("A", Some(Value::Bool(true))));
    k.add_var(var_with_default("B", None));
    let mut replacement = Variable::new("A");
    replacement.ty = Some(Type::Int);
    k.add_var(replacement);
    assert_eq!(k.vars.len(), 2);
    let (first_key, first) = k.vars.get_index(0).unwrap();
    assert_eq!(first_key, "A");
    assert_eq!(first.ty, Some(Type::Int));
}

#[test]
fn save_snapshots_values_in_order() {
    let mut k = KConfig::new();
    let mut a = Variable::new("A");
    a.value = Some(Value::Bool(true));
    k.add_var(a);
    k.add_var(Variable::new("B"));
    let snap = k.save();
    assert_eq!(snap.len(), 2);
    let (k0, v0) = snap.get_index(0).unwrap();
    assert_eq!(k0, "A");
    assert_eq!(v0, &Some(Value::Bool(true)));
    let (k1, v1) = snap.get_index(1).unwrap();
    assert_eq!(k1, "B");
    assert_eq!(v1, &None);
}

#[test]
fn source_merge_disjoint_is_union() {
    let mut a = KConfig::new();
    a.add_var(var_with_default("A", Some(Value::Bool(true))));
    a.add_var(var_with_default("B", None));
    let mut b = KConfig::new();
    b.add_var(var_with_default("C", Some(Value::Bool(false))));
    a.source(b);
    assert_eq!(a.vars.len(), 3);
    assert_eq!(a.vars.get_index(0).unwrap().0, "A");
    assert_eq!(a.vars.get_index(1).unwrap().0, "B");
    assert_eq!(a.vars.get_index(2).unwrap().0, "C");
}

#[test]
fn source_merge_overlap_last_wins_both_orders() {
    // merging a then b keeps b's definition for the shared name
    let mut a = KConfig::new();
    a.add_var(var_with_default("X", Some(Value::Bool(true))));
    let mut b = KConfig::new();
    b.add_var(var_with_default("X", Some(Value::Bool(false))));
    a.source(b);
    assert_eq!(a.vars.len(), 1);
    assert_eq!(a.vars.get("X").unwrap().default, Some(Value::Bool(false)));

    // merging b then a keeps a's definition
    let mut a2 = KConfig::new();
    a2.add_var(var_with_default("X", Some(Value::Bool(true))));
    let mut b2 = KConfig::new();
    b2.add_var(var_with_default("X", Some(Value::Bool(false))));
    b2.source(a2);
    assert_eq!(b2.vars.len(), 1);
    assert_eq!(b2.vars.get("X").unwrap().default, Some(Value::Bool(true)));
}

#[test]
fn save_config_text_shapes() {
    let mut k = KConfig::new();
    let mut a = Variable::new("A");
    a.value = Some(Value::Bool(true));
    k.add_var(a);
    let mut b = Variable::new("B");
    b.value = Some(Value::Bool(false));
    k.add_var(b);
    k.add_var(Variable::new("C"));
    let mut d = Variable::new("D");
    d.value = Some(Value::Int(7));
    k.add_var(d);
    assert_eq!(
        k.save_config_text(),
        "CONFIG_A=y\n# CONFIG_B is not set\n# CONFIG_C is not set\nCONFIG_D=7\n"
    );
}

#[test]
fn boolean_round_trip_through_config_text() {
    let mut k = KConfig::new();
    let mut a = var_with_default("A", Some(Value::Bool(false)));
    a.value = Some(Value::Bool(true));
    k.add_var(a);
    let mut b = var_with_default("B", Some(Value::Bool(true)));
    b.value = Some(Value::Bool(false));
    k.add_var(b);
    let text = k.save_config_text();

    // a freshly default-initialized table with the same variables
    let mut k2 = KConfig::new();
    k2.add_var(var_with_default("A", Some(Value::Bool(false))));
    k2.add_var(var_with_default("B", Some(Value::Bool(true))));
    k2.load_default();
    k2.load_str(&text);
    assert_eq!(k2.vars.get("A").unwrap().value, Some(Value::Bool(true)));
    assert_eq!(k2.vars.get("B").unwrap().value, Some(Value::Bool(false)));
}

#[test]
fn load_str_ignores_unknown_names_and_bad_lines() {
    let mut k = KConfig::new();
    k.add_var(var_with_default("A", Some(Value::Bool(false))));
    k.load_str("CONFIG_NOPE=y\ngarbage line\nCONFIG_A=5\n\nCONFIG_A=y\n");
    assert_eq!(k.vars.len(), 1);
    assert_eq!(k.vars.get("A").unwrap().value, Some(Value::Bool(true)));
}

#[test]
fn load_str_handles_carriage_returns() {
    let mut k = KConfig::new();
    k.add_var(Variable::new("A"));
    k.add_var(Variable::new("B"));
    k.load_str("CONFIG_A=y\r\nCONFIG_B=y\r\n");
    assert_eq!(k.vars.get("A").unwrap().value, Some(Value::Bool(true)));
    assert_eq!(k.vars.get("B").unwrap().value, Some(Value::Bool(true)));
}

//! A library for a Kconfig-style configuration language: a lexer and a
//! recursive-descent parser that build a tree of menus and a flat table of
//! typed variables, a line codec for the persisted `.config` state, and a
//! renderer back to source syntax.
pub mod laws;
pub mod lexer;
pub mod numfmt;
pub mod parser;
pub mod render;
pub mod strutil;
pub mod table;

use vstd::prelude::*;

verus! {

broadcast use vstd::std_specs::vec::axiom_vec_index_decreases;

/// Marker for a failed operation whose cause the caller already knows.
pub struct Error;

/// The type a configuration variable is declared with.  Each variant maps
/// to exactly one source keyword (`bool`, `int`, `hex`, `string`).
#[derive(Debug, PartialEq, Eq, Structural, Clone, Copy)]
pub enum Type {
    Bool,
    Int,
    Hex,
    String,
}

/// The type named by the keyword `s`, if `s` is one of the four type
/// keywords; `None` otherwise.
pub open spec fn spec_type_new(s: Seq<char>) -> Option<Type> {
    if s == "bool"@ {
        Some(Type::Bool)
    } else if s == "int"@ {
        Some(Type::Int)
    } else if s == "hex"@ {
        Some(Type::Hex)
    } else if s == "string"@ {
        Some(Type::String)
    } else {
        None
    }
}

impl Type {
    /// The keyword that declares this type in source text.
    pub open spec fn spec_keyword(self) -> Seq<char> {
        match self {
            Type::Bool => "bool"@,
            Type::Int => "int"@,
            Type::Hex => "hex"@,
            Type::String => "string"@,
        }
    }

    /// Look a type up by its keyword, case-sensitively.
    pub fn new(s: &str) -> (t: Option<Self>)
        ensures
            t == spec_type_new(s@),
    {
        if strutil::str_eq(s, "bool") {
            Some(Type::Bool)
        } else if strutil::str_eq(s, "int") {
            Some(Type::Int)
        } else if strutil::str_eq(s, "hex") {
            Some(Type::Hex)
        } else if strutil::str_eq(s, "string") {
            Some(Type::String)
        } else {
            None
        }
    }

    /// The keyword this type renders as.
    pub fn keyword(&self) -> (r: &'static str)
        ensures
            r@ == self.spec_keyword(),
    {
        match self {
            Type::Bool => "bool",
            Type::Int => "int",
            Type::Hex => "hex",
            Type::String => "string",
        }
    }
}

/// The mapping between types and their keywords is reversible: looking the
/// keyword of a type up yields that type again.
pub proof fn lemma_type_keyword_reversible(t: Type)
    ensures
        spec_type_new(t.spec_keyword()) == Some(t),
{
    reveal_strlit("bool");
    reveal_strlit("int");
    reveal_strlit("hex");
    reveal_strlit("string");
    assert("bool"@.len() == 4);
    assert("int"@.len() == 3);
    assert("hex"@.len() == 3);
    assert("string"@.len() == 6);
    assert("hex"@[0] != "int"@[0]);
}

/// A typed literal: the current or default value of a variable.
#[derive(Debug, PartialEq, Clone)]
pub enum Value {
    Bool(bool),
    Int(i64),
    Hex(u64),
    String(String),
}

/// The mathematical content of a `Value`.
pub enum ValueV {
    Bool(bool),
    Int(int),
    Hex(nat),
    String(Seq<char>),
}

impl View for Value {
    type V = ValueV;

    open spec fn view(&self) -> ValueV {
        match self {
            Value::Bool(b) => ValueV::Bool(*b),
            Value::Int(i) => ValueV::Int(*i as int),
            Value::Hex(h) => ValueV::Hex(*h as nat),
            Value::String(s) => ValueV::String(s@),
        }
    }
}

/// The content of an optional value.
pub open spec fn opt_value_view(v: Option<Value>) -> Option<ValueV> {
    match v {
        Some(x) => Some(x@),
        None => None,
    }
}

/// The content of an optional string.
pub open spec fn opt_string_view(v: Option<String>) -> Option<Seq<char>> {
    match v {
        Some(s) => Some(s@),
        None => None,
    }
}

/// Copy a value; the copy has the same content.
pub fn dup_value(v: &Value) -> (r: Value)
    ensures
        r@ == v@,
{
    match v {
        Value::Bool(b) => Value::Bool(*b),
        Value::Int(i) => Value::Int(*i),
        Value::Hex(h) => Value::Hex(*h),
        Value::String(s) => Value::String(s.clone()),
    }
}

/// Copy an optional value; the copy has the same content.
pub fn dup_opt_value(v: &Option<Value>) -> (r: Option<Value>)
    ensures
        opt_value_view(r) == opt_value_view(*v),
{
    match v {
        Some(x) => Some(dup_value(x)),
        None => None,
    }
}

/// Copy an optional string; the copy has the same content.
pub fn dup_opt_string(v: &Option<String>) -> (r: Option<String>)
    ensures
        opt_string_view(r) == opt_string_view(*v),
{
    match v {
        Some(s) => Some(s.clone()),
        None => None,
    }
}

/// A named configuration variable: optionally typed and described, with an
/// optional default (set at parse time) and an optional current value.
#[derive(Debug)]
pub struct Variable {
    /// The name of the config
    pub name: String,
    /// The type of the config
    pub ty: Option<Type>,
    /// A description of the config
    pub desc: Option<String>,
    /// The current value. Inherits from `default`
    pub value: Option<Value>,
    /// The default value
    pub default: Option<Value>,
}

/// The mathematical content of a `Variable`.
pub struct VariableV {
    pub name: Seq<char>,
    pub ty: Option<Type>,
    pub desc: Option<Seq<char>>,
    pub value: Option<ValueV>,
    pub default: Option<ValueV>,
}

impl VariableV {
    /// A variable fresh from its `config NAME` line: no type, no
    /// description, no value, no default.
    pub open spec fn blank(name: Seq<char>) -> VariableV {
        VariableV { name, ty: None, desc: None, value: None, default: None }
    }
}

impl View for Variable {
    type V = VariableV;

    open spec fn view(&self) -> VariableV {
        VariableV {
            name: self.name@,
            ty: self.ty,
            desc: opt_string_view(self.desc),
            value: opt_value_view(self.value),
            default: opt_value_view(self.default),
        }
    }
}

impl Variable {
    /// A new variable of the given name, with every other field absent.
    pub fn new(name: &str) -> (v: Self)
        ensures
            v@ == VariableV::blank(name@),
    {
        Variable { name: name.to_owned(), ty: None, desc: None, value: None, default: None }
    }
}

/// One entry of a menu: either a reference by name into the variable
/// table, or a nested menu.
#[derive(Debug)]
pub enum Entry {
    Variable(String),
    Menu(Menu),
}

/// A named grouping of entries; owns its nested menus.
#[derive(Debug)]
pub struct Menu {
    pub name: String,
    pub entries: Vec<Entry>,
}

/// The mathematical content of an `Entry`.
pub enum EntryV {
    Variable(Seq<char>),
    Menu(MenuV),
}

/// The mathematical content of a `Menu`.
pub struct MenuV {
    pub name: Seq<char>,
    pub entries: Seq<EntryV>,
}

impl MenuV {
    /// A menu with the given label and no entries yet.
    pub open spec fn empty(name: Seq<char>) -> MenuV {
        MenuV { name, entries: Seq::empty() }
    }
}

/// The content of an entry, with nested menus taken to their content.
pub open spec fn entry_view(e: Entry) -> EntryV
    decreases e,
{
    match e {
        Entry::Variable(s) => EntryV::Variable(s@),
        Entry::Menu(m) => EntryV::Menu(menu_view(m)),
    }
}

/// The contents of a sequence of entries, each taken to its content.
pub open spec fn entries_view(es: Seq<Entry>) -> Seq<EntryV>
    decreases es,
{
    if es.len() == 0 {
        Seq::empty()
    } else {
        entries_view(es.subrange(0, es.len() - 1)).push(entry_view(es[es.len() - 1]))
    }
}

/// The content of a menu, with its entries taken to their content.
pub open spec fn menu_view(m: Menu) -> MenuV
    decreases m,
{
    MenuV { name: m.name@, entries: entries_view(m.entries@) }
}

/// `entries_view` maps the sequence element by element.
pub proof fn lemma_entries_view(es: Seq<Entry>)
    ensures
        entries_view(es).len() == es.len(),
        forall|i: int| 0 <= i < es.len() ==> #[trigger] entries_view(es)[i] == entry_view(es[i]),
    decreases es.len(),
{
    if es.len() > 0 {
        lemma_entries_view(es.subrange(0, es.len() - 1));
    }
}

/// Appending one entry appends its content to the view.
pub proof fn lemma_entries_view_push(es: Seq<Entry>, e: Entry)
    ensures
        entries_view(es.push(e)) == entries_view(es).push(entry_view(e)),
{
    assert(es.push(e).subrange(0, es.push(e).len() - 1) =~= es);
}

impl View for Entry {
    type V = EntryV;

    open spec fn view(&self) -> EntryV {
        entry_view(*self)
    }
}

impl View for Menu {
    type V = MenuV;

    open spec fn view(&self) -> MenuV {
        menu_view(*self)
    }
}

impl Menu {
    /// A new menu with the given label and no entries.
    pub fn new(name: &str) -> (m: Self)
        ensures
            m@ == MenuV::empty(name@),
    {
        let m = Menu { name: name.to_owned(), entries: Vec::new() };
        proof {
            assert(m@.entries =~= Seq::<EntryV>::empty());
        }
        m
    }
}

/// Copy a variable; the copy has the same content.
pub fn dup_variable(v: &Variable) -> (r: Variable)
    ensures
        r@ == v@,
{
    Variable {
        name: v.name.clone(),
        ty: v.ty,
        desc: dup_opt_string(&v.desc),
        value: dup_opt_value(&v.value),
        default: dup_opt_value(&v.default),
    }
}

/// The whole configuration: a display name, the root menu, and the flat
/// table of variables, keyed by name in insertion order.
#[derive(Debug)]
pub struct KConfig {
    pub name: String,
    pub root: Menu,
    pub vars: indexmap::IndexMap<String, Variable>,
}

/// The mathematical content of a `KConfig`.
pub struct KConfigV {
    pub name: Seq<char>,
    pub root: MenuV,
    pub vars: table::TableV,
}

impl View for KConfig {
    type V = KConfigV;

    open spec fn view(&self) -> KConfigV {
        KConfigV {
            name: self.name@,
            root: menu_view(self.root),
            vars: table::table_model(self.vars),
        }
    }
}

/// `v` with its current value replaced by its default (or cleared, if it
/// has no default).
pub open spec fn var_with_default(v: VariableV) -> VariableV {
    VariableV { value: v.default, ..v }
}

/// Every variable's current value replaced by its default.
pub open spec fn tbl_load_defaults(t: table::TableV) -> table::TableV {
    Seq::new(t.len(), |i: int| (t[i].0, var_with_default(t[i].1)))
}

/// The (name, current value) pairs of a table, in table order.
pub open spec fn tbl_values(t: table::TableV) -> Seq<(Seq<char>, Option<ValueV>)> {
    Seq::new(t.len(), |i: int| (t[i].0, t[i].1.value))
}

impl KConfig {
    /// The table invariant of the data model: keys are unique, and each
    /// pair's key is the name of the variable it holds.
    pub open spec fn inv(&self) -> bool {
        table::tbl_unique(self@.vars) && table::tbl_named(self@.vars)
    }

    /// Allocate a new KConfig: placeholder display name, an empty root
    /// menu labelled `(top)`, and no variables.
    pub fn new() -> (k: Self)
        ensures
            k@.name == "config"@,
            k@.root == MenuV::empty("(top)"@),
            k@.vars == Seq::<(Seq<char>, VariableV)>::empty(),
            k.inv(),
    {
        KConfig { name: "config".to_owned(), root: Menu::new("(top)"), vars: table::table_new() }
    }

    /// Merge another KConfig into this one: the implementation of the
    /// `source` operation.  Every variable of `other` is inserted into this
    /// table in order (existing names keep their place and take `other`'s
    /// definition); the menu tree of `other` is discarded.
    pub fn source(&mut self, other: Self)
        ensures
            final(self)@.name == old(self)@.name,
            final(self)@.root == old(self)@.root,
            final(self)@.vars == table::tbl_merge(old(self)@.vars, other@.vars),
            old(self).inv() && table::tbl_named(other@.vars) ==> final(self).inv(),
    {
        let ghost a0 = self@.vars;
        let ghost b = other@.vars;
        table::table_merge_into(&mut self.vars, other.vars);
        proof {
            if old(self).inv() && table::tbl_named(b) {
                table::lemma_tbl_merge_wf(a0, b);
            }
        }
    }

    /// Insert a variable under its own name; an existing variable of that
    /// name is replaced in place.  No menu entry is created.
    pub fn add_var(&mut self, var: Variable)
        ensures
            final(self)@.name == old(self)@.name,
            final(self)@.root == old(self)@.root,
            final(self)@.vars == table::tbl_insert(old(self)@.vars, var@.name, var@),
            old(self).inv() ==> final(self).inv(),
    {
        let k = var.name.clone();
        proof {
            if old(self).inv() {
                table::lemma_tbl_insert_wf(self@.vars, var@.name, var@);
            }
        }
        table::table_insert(&mut self.vars, k, var);
    }

    /// The current value state of every variable, as an ordered mapping
    /// from name to optional value, in table order.
    pub fn save(&self) -> (r: indexmap::IndexMap<String, Option<Value>>)
        requires
            table::tbl_unique(self@.vars),
        ensures
            table::snapshot_model(r) == tbl_values(self@.vars),
    {
        let ghost t = self@.vars;
        let n = table::table_len(&self.vars);
        let mut r = table::snapshot_new();
        let mut i: usize = 0;
        while i < n
            invariant
                n == t.len(),
                0 <= i <= n,
                table::table_model(self.vars) == t,
                table::tbl_unique(t),
                table::snapshot_model(r).len() == i,
                forall|j: int|
                    0 <= j < i ==> #[trigger] table::snapshot_model(r)[j] == (t[j].0, t[j].1.value),
            decreases n - i,
        {
            let p = table::table_get_index(&self.vars, i).unwrap();
            let k = p.0.clone();
            let v = dup_opt_value(&p.1.value);
            proof {
                let s = table::snapshot_model(r);
                assert forall|j: int| 0 <= j < s.len() implies s[j].0 != t[i as int].0 by {
                    assert(s[j] == (t[j].0, t[j].1.value));
                }
                table::lemma_tbl_index_of(s, t[i as int].0);
            }
            table::snapshot_insert(&mut r, k, v);
            i = i + 1;
        }
        proof {
            assert(table::snapshot_model(r) =~= tbl_values(t));
        }
        r
    }

    /// Load the default configuration: every variable's current value
    /// becomes its default, or is cleared where no default was declared.
    pub fn load_default(&mut self)
        requires
            table::tbl_unique(old(self)@.vars),
        ensures
            final(self)@.name == old(self)@.name,
            final(self)@.root == old(self)@.root,
            final(self)@.vars == tbl_load_defaults(old(self)@.vars),
            old(self).inv() ==> final(self).inv(),
    {
        let ghost t0 = self@.vars;
        let n = table::table_len(&self.vars);
        let mut i: usize = 0;
        while i < n
            invariant
                n == t0.len(),
                0 <= i <= n,
                table::tbl_unique(t0),
                table::table_model(self.vars).len() == n,
                forall|j: int|
                    0 <= j < n ==> #[trigger] table::table_model(self.vars)[j].0 == t0[j].0,
                forall|j: int|
                    i <= j < n ==> #[trigger] table::table_model(self.vars)[j] == t0[j],
                forall|j: int|
                    0 <= j < i ==> #[trigger] table::table_model(self.vars)[j] == (
                        t0[j].0,
                        var_with_default(t0[j].1),
                    ),
                self.name@ == old(self)@.name,
                menu_view(self.root) == old(self)@.root,
            decreases n - i,
        {
            let p = table::table_get_index(&self.vars, i).unwrap();
            let k = p.0.clone();
            let mut v = dup_variable(p.1);
            let d = dup_opt_value(&v.default);
            v.value = d;
            proof {
                let t = table::table_model(self.vars);
                let key = t[i as int].0;
                assert(table::tbl_has(t, key)) by {
                    assert(0 <= (i as int) && (i as int) < t.len() && t[i as int].0 == key);
                }
                table::lemma_tbl_index_of(t, key);
                let idx = table::tbl_index_of(t, key);
                if idx != i as int {
                    assert(t0[idx].0 == t0[i as int].0);
                    assert(false);
                }
            }
            table::table_insert(&mut self.vars, k, v);
            i = i + 1;
        }
        proof {
            assert(table::table_model(self.vars) =~= tbl_load_defaults(t0));
        }
    }
}

} // verus!

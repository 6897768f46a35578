//! The renderer: walks the menu tree and the variable table and produces
//! canonical source text, and encodes the persisted `.config` state.
use crate::numfmt::{format_hex, format_int, spec_dec_int, spec_hex};
use crate::table::{table_get, table_get_index, table_len, table_model, tbl_get, TableV};
use crate::{
    lemma_entries_view, menu_view, Entry, EntryV, KConfig, KConfigV, Menu, MenuV, Value, ValueV,
    Variable, VariableV,
};
use vstd::prelude::*;
use vstd::string::StringExecFns;

verus! {

broadcast use vstd::std_specs::vec::axiom_vec_index_decreases;

/// The indentation for `depth` nesting levels: four spaces per level.
pub open spec fn spec_spaces(depth: int) -> Seq<char>
    decreases depth,
{
    if depth <= 0 {
        Seq::empty()
    } else {
        spec_spaces(depth - 1) + "    "@
    }
}

/// The canonical persisted-form rendering of a value: `y`/`n` for
/// booleans, unpadded decimal for integers, lowercase `0x` hexadecimal,
/// and string content verbatim.
pub open spec fn spec_render_value(v: ValueV) -> Seq<char> {
    match v {
        ValueV::Bool(b) => if b {
            "y"@
        } else {
            "n"@
        },
        ValueV::Int(i) => spec_dec_int(i),
        ValueV::Hex(h) => "0x"@ + spec_hex(h),
        ValueV::String(s) => s,
    }
}

/// The type line of a variable declaration: the indented type keyword,
/// with the quoted description after it if one exists; nothing where the
/// variable is untyped.
pub open spec fn spec_var_ty_line(v: VariableV, depth: int) -> Seq<char> {
    match v.ty {
        Some(t) => spec_spaces(depth + 1) + t.spec_keyword() + (match v.desc {
            Some(d) => " \""@ + d + "\""@,
            None => Seq::empty(),
        }) + "\n"@,
        None => Seq::empty(),
    }
}

/// The `default` line of a variable declaration; nothing where no
/// default was declared.
pub open spec fn spec_var_default_line(v: VariableV, depth: int) -> Seq<char> {
    match v.default {
        Some(d) => spec_spaces(depth + 1) + "default "@ + spec_render_value(d) + "\n"@,
        None => Seq::empty(),
    }
}

/// The `# current` comment of a variable declaration; nothing where the
/// variable has no current value.
pub open spec fn spec_var_value_line(v: VariableV, depth: int) -> Seq<char> {
    match v.value {
        Some(c) => spec_spaces(depth + 1) + "# current "@ + spec_render_value(c) + "\n"@,
        None => Seq::empty(),
    }
}

/// The rendering of one variable declaration at the given depth: the
/// `config` line; an indented type line with the quoted description, if
/// typed; an indented `default` line, if a default exists; an indented
/// `# current` comment, if a current value exists.
pub open spec fn spec_render_var(v: VariableV, depth: int) -> Seq<char> {
    spec_spaces(depth) + "config "@ + v.name + "\n"@ + spec_var_ty_line(v, depth)
        + spec_var_default_line(v, depth) + spec_var_value_line(v, depth)
}

/// The depth of entries one level below `d`.  At the far end of the
/// machine's range the depth saturates, so that it stays a `usize`.
pub open spec fn next_depth(d: int) -> int {
    if d < usize::MAX - 1 {
        d + 1
    } else {
        d
    }
}

/// The rendering of one menu entry: a variable reference renders the
/// named variable, or nothing where the name is not in the table; a
/// nested menu renders one level deeper.
pub open spec fn spec_render_entry(e: EntryV, vars: TableV, depth: int) -> Seq<char>
    decreases e,
{
    match e {
        EntryV::Variable(n) => match tbl_get(vars, n) {
            Some(v) => spec_render_var(v, depth),
            None => Seq::empty(),
        },
        EntryV::Menu(m) => spec_render_menu(m, vars, next_depth(depth)),
    }
}

/// The rendering of a sequence of entries, in order.
pub open spec fn spec_render_entries(es: Seq<EntryV>, vars: TableV, depth: int) -> Seq<char>
    decreases es,
{
    if es.len() == 0 {
        Seq::empty()
    } else {
        spec_render_entry(es[0], vars, depth) + spec_render_entries(es.drop_first(), vars, depth)
    }
}

/// The rendering of a menu: every descendant menu is wrapped in
/// `menu "label"` and `endmenu` lines at its parent's indentation; the
/// root (depth zero) is unwrapped.
pub open spec fn spec_render_menu(m: MenuV, vars: TableV, depth: int) -> Seq<char>
    decreases m,
{
    (if depth > 0 {
        spec_spaces(depth - 1) + "menu \""@ + m.name + "\"\n"@
    } else {
        Seq::empty()
    }) + spec_render_entries(m.entries, vars, depth) + (if depth > 0 {
        spec_spaces(depth - 1) + "endmenu\n\n"@
    } else {
        Seq::empty()
    })
}

/// The full rendering of a configuration: the `mainmenu` line, a blank
/// separator line, then the root menu unwrapped at depth zero.
pub open spec fn spec_render_kconfig(k: KConfigV) -> Seq<char> {
    "mainmenu \""@ + k.name + "\"\n"@ + "\n"@ + spec_render_menu(k.root, k.vars, 0)
}

/// A variable with no type clause, no default and no current value
/// renders as the bare, indented `config NAME` line and nothing else.
pub proof fn lemma_render_bare_variable(v: VariableV, depth: int)
    requires
        v.ty is None,
        v.default is None,
        v.value is None,
    ensures
        spec_render_var(v, depth) == spec_spaces(depth) + "config "@ + v.name + "\n"@,
{
    assert(spec_render_var(v, depth) =~= spec_spaces(depth) + "config "@ + v.name + "\n"@);
}

/// The indentation for `depth` nesting levels.
pub fn spaces(depth: usize) -> (s: String)
    ensures
        s@ == spec_spaces(depth as int),
{
    let mut s = String::new();
    let mut i: usize = 0;
    while i < depth
        invariant
            0 <= i <= depth,
            s@ =~= spec_spaces(i as int),
        decreases depth - i,
    {
        s.append("    ");
        i = i + 1;
    }
    s
}

impl Value {
    /// The canonical persisted-form rendering of this value.
    pub fn render(&self) -> (s: String)
        ensures
            s@ == spec_render_value(self@),
    {
        match self {
            Value::Bool(b) => {
                if *b {
                    "y".to_owned()
                } else {
                    "n".to_owned()
                }
            },
            Value::Int(i) => format_int(*i),
            Value::Hex(h) => {
                let mut s = "0x".to_owned();
                let d = format_hex(*h);
                s.append(d.as_str());
                s
            },
            Value::String(st) => st.clone(),
        }
    }
}

impl Variable {
    /// Render this variable's declaration at the given depth.
    #[verifier::rlimit(50)]
    pub fn pretty_format(&self, depth: usize) -> (s: String)
        requires
            depth < usize::MAX,
        ensures
            s@ == spec_render_var(self@, depth as int),
    {
        let mut s = spaces(depth);
        s.append("config ");
        s.append(self.name.as_str());
        s.append("\n");
        proof {
            assert(s@ =~= spec_spaces(depth as int) + "config "@ + self@.name + "\n"@);
        }
        let ghost q0 = s@;
        match &self.ty {
            Some(t) => {
                let ind = spaces(depth + 1);
                s.append(ind.as_str());
                s.append(t.keyword());
                match &self.desc {
                    Some(d) => {
                        s.append(" \"");
                        s.append(d.as_str());
                        s.append("\"");
                    },
                    None => {},
                }
                s.append("\n");
            },
            None => {},
        }
        proof {
            assert(s@ =~= q0 + spec_var_ty_line(self@, depth as int));
        }
        let ghost q1 = s@;
        match &self.default {
            Some(d) => {
                let ind = spaces(depth + 1);
                s.append(ind.as_str());
                s.append("default ");
                let r = d.render();
                s.append(r.as_str());
                s.append("\n");
            },
            None => {},
        }
        proof {
            assert(s@ =~= q1 + spec_var_default_line(self@, depth as int));
        }
        let ghost q2 = s@;
        match &self.value {
            Some(c) => {
                let ind = spaces(depth + 1);
                s.append(ind.as_str());
                s.append("# current ");
                let r = c.render();
                s.append(r.as_str());
                s.append("\n");
            },
            None => {},
        }
        proof {
            assert(s@ =~= q2 + spec_var_value_line(self@, depth as int));
            assert(s@ =~= spec_render_var(self@, depth as int));
        }
        s
    }
}

impl Menu {
    /// Render this menu and everything below it, resolving variable
    /// references through the configuration's table and skipping names
    /// the table does not hold.
    pub fn pretty_format(&self, kconfig: &KConfig, depth: usize) -> (s: String)
        requires
            depth <= usize::MAX - 1,
        ensures
            s@ == spec_render_menu(menu_view(*self), table_model(kconfig.vars), depth as int),
        decreases *self,
    {
        let ghost vars = table_model(kconfig.vars);
        let ghost ev = menu_view(*self).entries;
        proof {
            lemma_entries_view(self.entries@);
            assert(ev.skip(0) =~= ev);
        }
        let mut s = String::new();
        if depth > 0 {
            let ind = spaces(depth - 1);
            s.append(ind.as_str());
            s.append("menu \"");
            s.append(self.name.as_str());
            s.append("\"\n");
        }
        let ghost header = s@;
        let mut i: usize = 0;
        while i < self.entries.len()
            invariant
                0 <= i <= self.entries.len(),
                ev == menu_view(*self).entries,
                ev.len() == self.entries.len(),
                header + spec_render_entries(ev, vars, depth as int) =~= s@ + spec_render_entries(
                    ev.skip(i as int),
                    vars,
                    depth as int,
                ),
                depth <= usize::MAX - 1,
                vars == table_model(kconfig.vars),
            decreases self.entries.len() - i,
        {
            proof {
                lemma_entries_view(self.entries@);
                assert(ev.skip(i as int)[0] == ev[i as int]);
                assert(ev.skip(i as int).drop_first() =~= ev.skip(i as int + 1));
            }
            let ghost s0 = s@;
            match &self.entries[i] {
                Entry::Variable(n) => {
                    let got = table_get(&kconfig.vars, n.as_str());
                    match got {
                        Some(v) => {
                            let r = v.pretty_format(depth);
                            s.append(r.as_str());
                        },
                        None => {},
                    }
                },
                Entry::Menu(m) => {
                    let d2 = if depth < usize::MAX - 1 {
                        depth + 1
                    } else {
                        depth
                    };
                    let r = m.pretty_format(kconfig, d2);
                    s.append(r.as_str());
                },
            }
            proof {
                let a = spec_render_entry(ev[i as int], vars, depth as int);
                let rest = spec_render_entries(ev.skip(i as int + 1), vars, depth as int);
                assert(s@ =~= s0 + a);
                assert(s0 + (a + rest) =~= s@ + rest);
            }
            i = i + 1;
        }
        proof {
            assert(ev.skip(self.entries.len() as int).len() == 0);
            assert(s@ =~= header + spec_render_entries(ev, vars, depth as int));
        }
        if depth > 0 {
            let ind = spaces(depth - 1);
            s.append(ind.as_str());
            s.append("endmenu\n\n");
        }
        proof {
            assert(s@ =~= spec_render_menu(menu_view(*self), vars, depth as int));
        }
        s
    }
}

/// The outline of one menu entry: variable references are named on an
/// indented line of their own; nested menus are outlined inline.
pub open spec fn spec_outline_entry(e: EntryV) -> Seq<char>
    decreases e,
{
    match e {
        EntryV::Variable(s) => "  "@ + s + "\n"@,
        EntryV::Menu(m) => spec_outline_menu(m),
    }
}

/// The outline of a sequence of entries, in order.
pub open spec fn spec_outline_entries(es: Seq<EntryV>) -> Seq<char>
    decreases es,
{
    if es.len() == 0 {
        Seq::empty()
    } else {
        spec_outline_entry(es[0]) + spec_outline_entries(es.drop_first())
    }
}

/// The outline of a menu: its label line, the outline of every entry,
/// and `endmenu`.
pub open spec fn spec_outline_menu(m: MenuV) -> Seq<char>
    decreases m,
{
    "menu \""@ + m.name + "\"\n"@ + spec_outline_entries(m.entries) + "endmenu\n"@
}

impl Menu {
    /// The structural outline of this menu: labels and the names of the
    /// variable references, without resolving them through any table.
    pub fn outline(&self) -> (s: String)
        ensures
            s@ == spec_outline_menu(menu_view(*self)),
        decreases *self,
    {
        let ghost ev = menu_view(*self).entries;
        proof {
            lemma_entries_view(self.entries@);
            assert(ev.skip(0) =~= ev);
        }
        let mut s = "menu \"".to_owned();
        s.append(self.name.as_str());
        s.append("\"\n");
        let ghost header = s@;
        let mut i: usize = 0;
        while i < self.entries.len()
            invariant
                0 <= i <= self.entries.len(),
                ev == menu_view(*self).entries,
                ev.len() == self.entries.len(),
                header + spec_outline_entries(ev) =~= s@ + spec_outline_entries(
                    ev.skip(i as int),
                ),
            decreases self.entries.len() - i,
        {
            proof {
                lemma_entries_view(self.entries@);
                assert(ev.skip(i as int)[0] == ev[i as int]);
                assert(ev.skip(i as int).drop_first() =~= ev.skip(i as int + 1));
            }
            let ghost s0 = s@;
            match &self.entries[i] {
                Entry::Variable(n) => {
                    s.append("  ");
                    s.append(n.as_str());
                    s.append("\n");
                },
                Entry::Menu(m) => {
                    let r = m.outline();
                    s.append(r.as_str());
                },
            }
            proof {
                let a = spec_outline_entry(ev[i as int]);
                let rest = spec_outline_entries(ev.skip(i as int + 1));
                assert(s@ =~= s0 + a);
                assert(s0 + (a + rest) =~= s@ + rest);
            }
            i = i + 1;
        }
        proof {
            assert(ev.skip(self.entries.len() as int).len() == 0);
            assert(s@ =~= header + spec_outline_entries(ev));
        }
        s.append("endmenu\n");
        proof {
            assert(s@ =~= spec_outline_menu(menu_view(*self)));
        }
        s
    }
}

/// One line of the persisted state: variables whose current value is the
/// false boolean or absent take the `is not set` shape; every other value
/// takes the `CONFIG_<NAME>=<value>` shape.
pub open spec fn spec_config_line(name: Seq<char>, val: Option<ValueV>) -> Seq<char> {
    match val {
        Some(v) => if v == ValueV::Bool(false) {
            "# CONFIG_"@ + name + " is not set\n"@
        } else {
            "CONFIG_"@ + name + "="@ + spec_render_value(v) + "\n"@
        },
        None => "# CONFIG_"@ + name + " is not set\n"@,
    }
}

/// The whole persisted state: one line per variable, in table order.
pub open spec fn spec_config_text(t: TableV) -> Seq<char>
    decreases t.len(),
{
    if t.len() == 0 {
        Seq::empty()
    } else {
        spec_config_line(t[0].0, t[0].1.value) + spec_config_text(t.drop_first())
    }
}

impl KConfig {
    /// Render the whole configuration back to source syntax.
    pub fn render(&self) -> (s: String)
        ensures
            s@ == spec_render_kconfig(self@),
    {
        let mut s = "mainmenu \"".to_owned();
        s.append(self.name.as_str());
        s.append("\"\n");
        s.append("\n");
        let r = self.root.pretty_format(self, 0);
        s.append(r.as_str());
        proof {
            assert(s@ =~= spec_render_kconfig(self@));
        }
        s
    }

    /// The text of the persisted state file for the current values: one
    /// line per variable, in table order.
    pub fn save_config_text(&self) -> (s: String)
        ensures
            s@ == spec_config_text(self@.vars),
    {
        let ghost t = table_model(self.vars);
        proof {
            assert(t.skip(0) =~= t);
        }
        let n = table_len(&self.vars);
        let mut s = String::new();
        let mut i: usize = 0;
        while i < n
            invariant
                0 <= i <= n,
                n == t.len(),
                t == table_model(self.vars),
                spec_config_text(t) =~= s@ + spec_config_text(t.skip(i as int)),
            decreases n - i,
        {
            proof {
                assert(t.skip(i as int)[0] == t[i as int]);
                assert(t.skip(i as int).drop_first() =~= t.skip(i as int + 1));
            }
            let ghost s0 = s@;
            let p = table_get_index(&self.vars, i).unwrap();
            let is_unset = match &p.1.value {
                Some(Value::Bool(false)) => true,
                Some(_) => false,
                None => true,
            };
            if is_unset {
                s.append("# CONFIG_");
                s.append(p.0.as_str());
                s.append(" is not set\n");
            } else {
                s.append("CONFIG_");
                s.append(p.0.as_str());
                s.append("=");
                match &p.1.value {
                    Some(v) => {
                        let r = v.render();
                        s.append(r.as_str());
                    },
                    None => {},
                }
                s.append("\n");
            }
            proof {
                assert(s@ =~= s0 + spec_config_line(t[i as int].0, t[i as int].1.value));
            }
            i = i + 1;
        }
        proof {
            assert(t.skip(n as int).len() == 0);
            assert(s@ =~= spec_config_text(t));
        }
        s
    }
}

} // verus!

//! Laws of the persisted-state codec: the boolean round trip.
//!
//! Writing the persisted state of a table whose current values are all
//! booleans, and loading that text back into a freshly
//! default-initialized copy of the table, reproduces the original
//! current values exactly.
use crate::lexer::{
    is_name_char, is_word_char, keyword_token, lemma_name_run_is, lemma_word_run_is,
    spec_tokenize, TokenV,
};
use crate::parser::{spec_decode_line, spec_load_lines, tbl_set_value, unset_name, unset_shape};
use crate::render::{spec_config_line, spec_config_text, spec_render_value};
use crate::strutil::{lemma_nl_run_is, spec_split_lines, strip_cr};
use crate::table::{lemma_tbl_index_of, tbl_has, tbl_index_of, tbl_insert, tbl_unique, TableV};
use crate::{tbl_load_defaults, var_with_default, ValueV, VariableV};
use vstd::prelude::*;

verus! {

/// A well-formed variable name: nonempty, made of capital letters and
/// underscores only.
pub open spec fn name_ok(n: Seq<char>) -> bool {
    n.len() > 0 && (forall|i: int| 0 <= i < n.len() ==> is_name_char(#[trigger] n[i]))
}

/// Every variable of the table currently holds a boolean value.
pub open spec fn all_bool(t: TableV) -> bool {
    forall|i: int| 0 <= i < t.len() ==> (#[trigger] t[i].1.value) matches Some(ValueV::Bool(_))
}

/// The body (without the final newline) of the persisted line for one
/// table pair.
pub open spec fn body_of(p: (Seq<char>, VariableV)) -> Seq<char> {
    match p.1.value {
        Some(v) => if v == ValueV::Bool(false) {
            "# CONFIG_"@ + p.0 + " is not set"@
        } else {
            "CONFIG_"@ + p.0 + "="@ + spec_render_value(v)
        },
        None => "# CONFIG_"@ + p.0 + " is not set"@,
    }
}

/// The line bodies of a whole table, in table order.
pub open spec fn body_lines(t: TableV) -> Seq<Seq<char>> {
    Seq::new(t.len(), |i: int| body_of(t[i]))
}

/// The token stream of `CONFIG_<NAME>=<y|n>` is exactly the name, the
/// equals sign, and the boolean literal.
proof fn lemma_tokenize_assign(k: Seq<char>, b: bool)
    requires
        name_ok(k),
    ensures
        ({
            let w = "CONFIG_"@ + k;
            let lit = if b {
                "y"@
            } else {
                "n"@
            };
            let tok = if b {
                TokenV::Yes
            } else {
                TokenV::No
            };
            spec_tokenize(w + "="@ + lit) == seq![TokenV::Name(w), TokenV::Equals, tok]
        }),
{
    reveal_strlit("CONFIG_");
    reveal_strlit("=");
    reveal_strlit("y");
    reveal_strlit("n");
    reveal_strlit("mainmenu");
    reveal_strlit("source");
    reveal_strlit("menu");
    reveal_strlit("endmenu");
    reveal_strlit("config");
    reveal_strlit("default");
    let w = "CONFIG_"@ + k;
    let lit: Seq<char> = if b {
        "y"@
    } else {
        "n"@
    };
    let s = w + "="@ + lit;
    assert(s.len() == w.len() + 1 + 1);
    assert forall|i: int| 0 <= i < w.len() implies is_name_char(s[i]) by {
        assert(s[i] == w[i]);
        if i >= 7 {
            assert(w[i] == k[i - 7]);
            assert(is_name_char(k[i - 7]));
        }
    }
    assert(s[w.len() as int] == '=');
    assert(!is_name_char('='));
    lemma_name_run_is(s, w.len() as int);
    assert(s[0] == w[0]);
    assert(is_name_char(s[0]));
    assert(s.take(w.len() as int) =~= w);
    let s2 = s.skip(w.len() as int);
    assert(s2 =~= "="@ + lit);
    assert(spec_tokenize(s) == seq![TokenV::Name(w)] + spec_tokenize(s2));
    let s3 = s2.drop_first();
    assert(s3 =~= lit);
    assert(s2[0] == '=');
    assert(spec_tokenize(s2) == seq![TokenV::Equals] + spec_tokenize(s3));
    assert(is_word_char(s3[0]));
    assert(s3.len() == 1);
    lemma_word_run_is(s3, 1);
    assert(s3.take(1) =~= lit);
    assert(keyword_token(lit) == (if b {
        TokenV::Yes
    } else {
        TokenV::No
    }));
    assert(s3.skip(1).len() == 0);
    assert(spec_tokenize(s3) == seq![keyword_token(lit)] + spec_tokenize(s3.skip(1)));
    assert(spec_tokenize(s) =~= seq![
        TokenV::Name(w),
        TokenV::Equals,
        if b {
            TokenV::Yes
        } else {
            TokenV::No
        },
    ]);
}

/// The body `CONFIG_<NAME>=<y|n>` decodes to the name and the boolean.
proof fn lemma_decode_assign(k: Seq<char>, b: bool)
    requires
        name_ok(k),
    ensures
        spec_decode_line("CONFIG_"@ + k + "="@ + (if b {
            "y"@
        } else {
            "n"@
        })) == Some((k, ValueV::Bool(b))),
{
    reveal_strlit("CONFIG_");
    reveal_strlit("# CONFIG_");
    reveal_strlit("y");
    reveal_strlit("n");
    reveal_strlit("=");
    let w = "CONFIG_"@ + k;
    let lit: Seq<char> = if b {
        "y"@
    } else {
        "n"@
    };
    let s = "CONFIG_"@ + k + "="@ + lit;
    assert(s =~= w + "="@ + lit);
    assert(s[0] == 'C');
    if unset_shape(s) {
        assert(s.subrange(0, 9)[0] == s[0]);
        assert(false);
    }
    lemma_tokenize_assign(k, b);
    let st = spec_tokenize(s);
    assert(st.len() == 3);
    assert(st[0] == TokenV::Name(w));
    assert(w.len() >= 7);
    assert(w.subrange(0, 7) =~= "CONFIG_"@);
    assert(w.skip(7) =~= k);
}

/// The body `# CONFIG_<NAME> is not set` decodes to the name and the
/// false boolean.
proof fn lemma_decode_unset(k: Seq<char>)
    requires
        name_ok(k),
    ensures
        spec_decode_line("# CONFIG_"@ + k + " is not set"@) == Some((k, ValueV::Bool(false))),
{
    reveal_strlit("# CONFIG_");
    reveal_strlit(" is not set");
    let s = "# CONFIG_"@ + k + " is not set"@;
    assert(s.len() == 20 + k.len());
    assert(s.subrange(0, 9) =~= "# CONFIG_"@);
    assert(s.subrange(s.len() - 11, s.len() as int) =~= " is not set"@);
    assert forall|i: int| 9 <= i < s.len() - 11 implies s[i] != ' ' by {
        assert(s[i] == k[i - 9]);
        assert(is_name_char(k[i - 9]));
    }
    assert(unset_shape(s));
    assert(unset_name(s) =~= k);
}

/// Splitting a text that begins with one newline-free line keeps that
/// line whole and splits the rest.
proof fn lemma_split_concat(body: Seq<char>, rest: Seq<char>)
    requires
        body.len() > 0,
        forall|i: int| 0 <= i < body.len() ==> body[i] != '\n',
        body[body.len() - 1] != '\r',
    ensures
        spec_split_lines(body + "\n"@ + rest) == seq![body] + spec_split_lines(rest),
{
    reveal_strlit("\n");
    let s = body + "\n"@ + rest;
    assert(s.len() == body.len() + 1 + rest.len());
    assert forall|i: int| 0 <= i < body.len() implies s[i] != '\n' by {
        assert(s[i] == body[i]);
    }
    assert(s[body.len() as int] == '\n');
    lemma_nl_run_is(s, body.len() as int);
    assert(s.take(body.len() as int) =~= body);
    assert(strip_cr(body) == body);
    assert(s.skip(body.len() as int + 1) =~= rest);
    assert(spec_split_lines(s) =~= seq![body] + spec_split_lines(rest));
}

/// The line body of a boolean pair has no newline, does not end in a
/// carriage return, and is nonempty.
proof fn lemma_body_wf(p: (Seq<char>, VariableV))
    requires
        name_ok(p.0),
        p.1.value matches Some(ValueV::Bool(_)),
    ensures
        body_of(p).len() > 0,
        forall|i: int| 0 <= i < body_of(p).len() ==> body_of(p)[i] != '\n',
        body_of(p)[body_of(p).len() - 1] != '\r',
{
    reveal_strlit("# CONFIG_");
    reveal_strlit(" is not set");
    reveal_strlit("CONFIG_");
    reveal_strlit("=");
    reveal_strlit("y");
    reveal_strlit("n");
    let body = body_of(p);
    let k = p.0;
    if p.1.value == Some(ValueV::Bool(false)) {
        assert forall|i: int| 0 <= i < body.len() implies body[i] != '\n' by {
            if 9 <= i < 9 + k.len() {
                assert(body[i] == k[i - 9]);
                assert(is_name_char(k[i - 9]));
            }
        }
        assert(body[body.len() - 1] == 't');
    } else {
        let b = p.1.value == Some(ValueV::Bool(true));
        assert(p.1.value == Some(ValueV::Bool(b)));
        assert forall|i: int| 0 <= i < body.len() implies body[i] != '\n' by {
            if 7 <= i < 7 + k.len() {
                assert(body[i] == k[i - 7]);
                assert(is_name_char(k[i - 7]));
            }
        }
        assert(body[body.len() - 1] == (if b {
            'y'
        } else {
            'n'
        }));
    }
}

/// Splitting the whole persisted text of a boolean table yields exactly
/// its line bodies, in order.
proof fn lemma_split_config_text(t: TableV)
    requires
        forall|i: int| 0 <= i < t.len() ==> name_ok(#[trigger] t[i].0),
        all_bool(t),
    ensures
        spec_split_lines(spec_config_text(t)) == body_lines(t),
    decreases t.len(),
{
    reveal_strlit("\n");
    reveal_strlit(" is not set");
    reveal_strlit(" is not set\n");
    if t.len() == 0 {
        assert(spec_split_lines(spec_config_text(t)) =~= body_lines(t));
    } else {
        let p = t[0];
        assert(p.1.value matches Some(ValueV::Bool(_)));
        lemma_body_wf(p);
        let body = body_of(p);
        assert(spec_config_line(p.0, p.1.value) =~= body + "\n"@);
        let rest = spec_config_text(t.drop_first());
        assert(spec_config_text(t) =~= body + "\n"@ + rest);
        lemma_split_concat(body, rest);
        let t1 = t.drop_first();
        assert forall|i: int| 0 <= i < t1.len() implies name_ok(#[trigger] t1[i].0) by {
            assert(t1[i] == t[i + 1]);
            assert(name_ok(t[i + 1].0));
        }
        assert forall|i: int| 0 <= i < t1.len() implies (#[trigger] t1[i].1.value) matches Some(
            ValueV::Bool(_),
        ) by {
            assert(t1[i] == t[i + 1]);
            assert(t[i + 1].1.value matches Some(ValueV::Bool(_)));
        }
        lemma_split_config_text(t1);
        assert forall|i: int| 0 <= i < t.len() implies (seq![body] + body_lines(t1))[i]
            == body_lines(t)[i] by {
            if i > 0 {
                assert(t1[i - 1] == t[i]);
            }
        }
        assert(seq![body] + body_lines(t1) =~= body_lines(t));
    }
}

/// Whether two variables agree on everything but their current value.
pub open spec fn agrees_except_value(a: VariableV, b: VariableV) -> bool {
    a.name == b.name && a.ty == b.ty && a.desc == b.desc && a.default == b.default
}

/// Loading the line bodies of the table's suffix from `i` on restores
/// every remaining variable's current value.
proof fn lemma_load_bodies(t: TableV, u: TableV, i: int)
    requires
        tbl_unique(t),
        forall|j: int| 0 <= j < t.len() ==> name_ok(#[trigger] t[j].0),
        all_bool(t),
        u.len() == t.len(),
        forall|j: int| 0 <= j < t.len() ==> (#[trigger] u[j].0) == t[j].0,
        forall|j: int| 0 <= j < i ==> (#[trigger] u[j]) == t[j],
        forall|j: int| i <= j < t.len() ==> agrees_except_value(#[trigger] u[j].1, t[j].1),
        0 <= i <= t.len(),
    ensures
        spec_load_lines(u, body_lines(t).skip(i)) == t,
    decreases t.len() - i,
{
    let lines = body_lines(t).skip(i);
    if i == t.len() {
        assert(lines.len() == 0);
        assert(u =~= t);
    } else {
        assert(lines[0] == body_of(t[i]));
        let k = t[i].0;
        let b = t[i].1.value == Some(ValueV::Bool(true));
        assert(t[i].1.value matches Some(ValueV::Bool(_)));
        assert(t[i].1.value == Some(ValueV::Bool(b)));
        if b {
            reveal_strlit("y");
            assert(spec_render_value(ValueV::Bool(true)) == "y"@);
            assert(body_of(t[i]) == "CONFIG_"@ + k + "="@ + "y"@);
            lemma_decode_assign(k, true);
        } else {
            lemma_decode_unset(k);
        }
        assert(spec_decode_line(lines[0]) == Some((k, ValueV::Bool(b))));
        // the table holds the name, at position i alone
        assert(tbl_has(u, k)) by {
            assert(u[i].0 == k);
        }
        lemma_tbl_index_of(u, k);
        let idx = tbl_index_of(u, k);
        if idx != i {
            assert(u[idx].0 == k);
            assert(t[idx].0 == t[i].0);
            assert(false);
        }
        let nv = VariableV { value: Some(ValueV::Bool(b)), ..u[i].1 };
        assert(nv == t[i].1);
        let u1 = tbl_insert(u, k, nv);
        assert(tbl_set_value(u, k, ValueV::Bool(b)) == u1);
        assert(u1 == u.update(i, (k, nv)));
        assert(u1[i] == t[i]);
        assert forall|j: int| 0 <= j < t.len() implies (#[trigger] u1[j].0) == t[j].0 by {
            if j != i {
                assert(u1[j] == u[j]);
            }
        }
        assert forall|j: int| 0 <= j < i + 1 implies (#[trigger] u1[j]) == t[j] by {
            if j < i {
                assert(u1[j] == u[j]);
            }
        }
        assert forall|j: int| i + 1 <= j < t.len() implies agrees_except_value(
            #[trigger] u1[j].1,
            t[j].1,
        ) by {
            assert(u1[j] == u[j]);
            assert(agrees_except_value(u[j].1, t[j].1));
        }
        lemma_load_bodies(t, u1, i + 1);
        assert(lines.drop_first() =~= body_lines(t).skip(i + 1));
        assert(spec_load_lines(u, lines) == spec_load_lines(u1, lines.drop_first()));
    }
}

/// Boolean round trip: writing the persisted state of a table whose
/// current values are all booleans, then loading that text back into a
/// freshly default-initialized copy of the table, reproduces the
/// original table exactly — current values included.
pub proof fn lemma_bool_round_trip(t: TableV)
    requires
        tbl_unique(t),
        forall|i: int| 0 <= i < t.len() ==> name_ok(#[trigger] t[i].0),
        all_bool(t),
    ensures
        spec_load_lines(tbl_load_defaults(t), spec_split_lines(spec_config_text(t))) == t,
{
    lemma_split_config_text(t);
    let td = tbl_load_defaults(t);
    assert forall|j: int| 0 <= j < t.len() implies (#[trigger] td[j].0) == t[j].0 by {
        assert(td[j] == (t[j].0, var_with_default(t[j].1)));
    }
    assert forall|j: int| 0 <= j < t.len() implies agrees_except_value(
        #[trigger] td[j].1,
        t[j].1,
    ) by {
        assert(td[j] == (t[j].0, var_with_default(t[j].1)));
    }
    lemma_load_bodies(t, td, 0);
    assert(body_lines(t).skip(0) =~= body_lines(t));
}

} // verus!

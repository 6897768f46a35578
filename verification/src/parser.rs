//! The recursive-descent parser: builds the menu tree and fills the flat
//! variable table, resolving `source` inclusion against a set of already
//! loaded files, and the line codec for the persisted `.config` state.
//!
//! Reading files is not this library's work: the parser is handed every
//! loaded file as plain text, together with the resolutions of `source`
//! paths that the caller has made.  Where a `source` directive names a
//! file that is not yet loaded, parsing stops with `ParseError::NeedFile`,
//! and the caller may load the file and parse again.
use crate::lexer::{
    spec_accept_str, spec_accept_type, spec_parse_value, spec_tokenize, Parser, Token, TokenV,
};
use crate::table::{table_get, table_model, tbl_insert, tbl_merge, TableV};
use crate::{
    menu_view, opt_string_view, Entry, EntryV, KConfig, KConfigV, Menu, MenuV, Value, ValueV,
    Variable, VariableV,
};
use indexmap::IndexMap;
use vstd::prelude::*;

verus! {

/// A file handed to the parser: its path, and its full text.
pub struct SourceFile {
    pub path: String,
    pub text: String,
}

/// The mathematical content of a `SourceFile`.
pub struct SourceFileV {
    pub path: Seq<char>,
    pub text: Seq<char>,
}

impl View for SourceFile {
    type V = SourceFileV;

    open spec fn view(&self) -> SourceFileV {
        SourceFileV { path: self.path@, text: self.text@ }
    }
}

/// A resolution the caller has made: inside the file at `file`, the
/// directive `source "rel"` names the file at `target`.
pub struct SourceLink {
    pub file: String,
    pub rel: String,
    pub target: String,
}

/// The mathematical content of a `SourceLink`.
pub struct SourceLinkV {
    pub file: Seq<char>,
    pub rel: Seq<char>,
    pub target: Seq<char>,
}

impl View for SourceLink {
    type V = SourceLinkV;

    open spec fn view(&self) -> SourceLinkV {
        SourceLinkV { file: self.file@, rel: self.rel@, target: self.target@ }
    }
}

/// The contents of a sequence of loaded files.
pub open spec fn files_view(fs: Seq<SourceFile>) -> Seq<SourceFileV> {
    Seq::new(fs.len(), |i: int| fs[i]@)
}

/// The contents of a sequence of resolutions.
pub open spec fn links_view(ls: Seq<SourceLink>) -> Seq<SourceLinkV> {
    Seq::new(ls.len(), |i: int| ls[i]@)
}

/// The text of the first loaded file bearing `path`, if any.
pub open spec fn find_file(fs: Seq<SourceFileV>, path: Seq<char>) -> Option<Seq<char>>
    decreases fs.len(),
{
    if fs.len() == 0 {
        None
    } else if fs[0].path == path {
        Some(fs[0].text)
    } else {
        find_file(fs.drop_first(), path)
    }
}

/// The target of the first resolution for `source "rel"` within `file`,
/// if any.
pub open spec fn find_link(ls: Seq<SourceLinkV>, file: Seq<char>, rel: Seq<char>) -> Option<
    Seq<char>,
>
    decreases ls.len(),
{
    if ls.len() == 0 {
        None
    } else if ls[0].file == file && ls[0].rel == rel {
        Some(ls[0].target)
    } else {
        find_link(ls.drop_first(), file, rel)
    }
}

/// Why a parse failed.
#[derive(Debug)]
pub enum ParseError {
    /// `mainmenu` was not followed by a quoted string.
    InvalidMainmenu,
    /// `config` was not followed by a name.
    InvalidConfigName,
    /// `default` was not followed by a boolean literal.
    MissingDefault,
    /// `source` was not followed by a quoted string.
    InvalidSource,
    /// A token that cannot begin a directive stood at directive position.
    InvalidToken,
    /// The stream ended inside a `menu` block, before its `endmenu`.
    Unbalanced,
    /// A chain of `source` inclusions recursed deeper than the number of
    /// loaded files, so the chain revisits a file.
    SourceLoop,
    /// `source "rel"` inside `file` names a file that is not loaded yet
    /// (for the top-level file, `file` is empty and `rel` is its path).
    NeedFile { file: String, rel: String },
}

/// The mathematical content of a `ParseError`.
pub enum ParseErrorV {
    InvalidMainmenu,
    InvalidConfigName,
    MissingDefault,
    InvalidSource,
    InvalidToken,
    Unbalanced,
    SourceLoop,
    NeedFile { file: Seq<char>, rel: Seq<char> },
}

impl View for ParseError {
    type V = ParseErrorV;

    open spec fn view(&self) -> ParseErrorV {
        match self {
            ParseError::InvalidMainmenu => ParseErrorV::InvalidMainmenu,
            ParseError::InvalidConfigName => ParseErrorV::InvalidConfigName,
            ParseError::MissingDefault => ParseErrorV::MissingDefault,
            ParseError::InvalidSource => ParseErrorV::InvalidSource,
            ParseError::InvalidToken => ParseErrorV::InvalidToken,
            ParseError::Unbalanced => ParseErrorV::Unbalanced,
            ParseError::SourceLoop => ParseErrorV::SourceLoop,
            ParseError::NeedFile { file, rel } => ParseErrorV::NeedFile {
                file: file@,
                rel: rel@,
            },
        }
    }
}

/// The stable category string of each error.
pub open spec fn spec_message(e: ParseErrorV) -> Seq<char> {
    match e {
        ParseErrorV::InvalidMainmenu => "Invalid option to `mainmenu`"@,
        ParseErrorV::InvalidConfigName => "Invalid name for `config`"@,
        ParseErrorV::MissingDefault => "Missing argument for `default`"@,
        ParseErrorV::InvalidSource => "invalid argument to `source`"@,
        ParseErrorV::InvalidToken => "invalid top level token"@,
        ParseErrorV::Unbalanced => "unbalanced `menu` block"@,
        ParseErrorV::SourceLoop => "`source` inclusion loops"@,
        ParseErrorV::NeedFile { .. } => "`source` names a file that is not loaded"@,
    }
}

impl ParseError {
    /// The stable category string of this error.
    pub fn message(&self) -> (r: &'static str)
        ensures
            r@ == spec_message(self@),
    {
        match self {
            ParseError::InvalidMainmenu => "Invalid option to `mainmenu`",
            ParseError::InvalidConfigName => "Invalid name for `config`",
            ParseError::MissingDefault => "Missing argument for `default`",
            ParseError::InvalidSource => "invalid argument to `source`",
            ParseError::InvalidToken => "invalid top level token",
            ParseError::Unbalanced => "unbalanced `menu` block",
            ParseError::SourceLoop => "`source` inclusion loops",
            ParseError::NeedFile { .. } => "`source` names a file that is not loaded",
        }
    }
}

/// The outcome of parsing the clauses after `config NAME`: the variable
/// as filled in, the cursor after the clauses, and whether a `default`
/// clause lacked its argument.
pub struct ClauseParse {
    pub var: VariableV,
    pub cur: int,
    pub missing: bool,
}

/// Parse the clause list of a `config` declaration: any number of type
/// clauses (each optionally followed by a description string), then at
/// most one `default` clause.
pub open spec fn spec_parse_clauses(st: Seq<TokenV>, c: int, v: VariableV) -> ClauseParse
    decreases st.len() - c,
{
    let (t, c1) = spec_accept_type(st, c);
    if t is Some {
        let (d, c2) = spec_accept_str(st, c1);
        let v1 = VariableV { ty: t, ..v };
        let v2 = if d is Some {
            VariableV { desc: d, ..v1 }
        } else {
            v1
        };
        spec_parse_clauses(st, c2, v2)
    } else if 0 <= c < st.len() && st[c] == TokenV::Default {
        let (val, c2) = spec_parse_value(st, c + 1);
        match val {
            Some(x) => ClauseParse { var: VariableV { default: Some(x), ..v }, cur: c2, missing: false },
            None => ClauseParse { var: v, cur: c + 1, missing: true },
        }
    } else {
        ClauseParse { var: v, cur: c, missing: false }
    }
}

/// The clause parser's cursor stays within the stream and never moves
/// backwards; the variable's name is never changed.
pub proof fn lemma_clauses_cur(st: Seq<TokenV>, c: int, v: VariableV)
    requires
        0 <= c <= st.len(),
    ensures
        c <= spec_parse_clauses(st, c, v).cur <= st.len(),
        spec_parse_clauses(st, c, v).var.name == v.name,
    decreases st.len() - c,
{
    let (t, c1) = spec_accept_type(st, c);
    if t is Some {
        let (d, c2) = spec_accept_str(st, c1);
        let v1 = VariableV { ty: t, ..v };
        let v2 = if d is Some {
            VariableV { desc: d, ..v1 }
        } else {
            v1
        };
        lemma_clauses_cur(st, c2, v2);
    }
}

/// The position parsing resumes at after a nested construct: its end
/// cursor where that lies in `[lo, hi]`, else `hi`.  The cursor of a
/// well-formed nested parse always lies in that range, so this is a
/// bounds witness for termination, not a change of meaning.
pub open spec fn resume_at(lo: int, hi: int, x: int) -> int {
    if lo <= x <= hi {
        x
    } else {
        hi
    }
}

/// The outcome of parsing a menu block: the menu as built, the cursor
/// after the block, the variable table and display name as left, and the
/// error if one stopped the parse.
pub struct MenuParse {
    pub menu: MenuV,
    pub cur: int,
    pub vars: TableV,
    pub disp: Option<Seq<char>>,
    pub err: Option<ParseErrorV>,
}

/// Parse directives into the menu `m` until `endmenu` or the end of the
/// stream, mutating the shared variable table and display name; `root`
/// tells whether running out of tokens is balanced or an error, and
/// `fuel` bounds the depth of `source` inclusion.
pub open spec fn spec_parse_menu(
    m: MenuV,
    st: Seq<TokenV>,
    c: int,
    vars: TableV,
    disp: Option<Seq<char>>,
    path: Seq<char>,
    files: Seq<SourceFileV>,
    links: Seq<SourceLinkV>,
    root: bool,
    fuel: nat,
) -> MenuParse
    decreases fuel, 0nat, st.len() - c,
{
    if c < 0 || c >= st.len() {
        MenuParse {
            menu: m,
            cur: c,
            vars,
            disp,
            err: if root {
                None
            } else {
                Some(ParseErrorV::Unbalanced)
            },
        }
    } else {
        match st[c] {
            TokenV::EndMenu => MenuParse { menu: m, cur: c + 1, vars, disp, err: None },
            TokenV::MainMenu => {
                if c + 1 < st.len() {
                    match st[c + 1] {
                        TokenV::Str(s) => spec_parse_menu(
                            m,
                            st,
                            c + 2,
                            vars,
                            Some(s),
                            path,
                            files,
                            links,
                            root,
                            fuel,
                        ),
                        _ => MenuParse {
                            menu: m,
                            cur: c + 2,
                            vars,
                            disp,
                            err: Some(ParseErrorV::InvalidMainmenu),
                        },
                    }
                } else {
                    MenuParse {
                        menu: m,
                        cur: c + 1,
                        vars,
                        disp,
                        err: Some(ParseErrorV::InvalidMainmenu),
                    }
                }
            },
            TokenV::Menu => {
                let (s, c1) = spec_accept_str(st, c + 1);
                match s {
                    Some(label) => {
                        let sub = spec_parse_menu(
                            MenuV::empty(label),
                            st,
                            c1,
                            vars,
                            disp,
                            path,
                            files,
                            links,
                            false,
                            fuel,
                        );
                        if sub.err is Some {
                            MenuParse {
                                menu: m,
                                cur: sub.cur,
                                vars: sub.vars,
                                disp: sub.disp,
                                err: sub.err,
                            }
                        } else {
                            spec_parse_menu(
                                MenuV { name: m.name, entries: m.entries.push(EntryV::Menu(sub.menu)) },
                                st,
                                resume_at(c + 2, st.len() as int, sub.cur),
                                sub.vars,
                                sub.disp,
                                path,
                                files,
                                links,
                                root,
                                fuel,
                            )
                        }
                    },
                    None => spec_parse_menu(m, st, c + 1, vars, disp, path, files, links, root, fuel),
                }
            },
            TokenV::Config => {
                if c + 1 < st.len() {
                    match st[c + 1] {
                        TokenV::Name(nm) => {
                            let cl = spec_parse_clauses(st, c + 2, VariableV::blank(nm));
                            if cl.missing {
                                MenuParse {
                                    menu: m,
                                    cur: cl.cur,
                                    vars,
                                    disp,
                                    err: Some(ParseErrorV::MissingDefault),
                                }
                            } else {
                                spec_parse_menu(
                                    MenuV {
                                        name: m.name,
                                        entries: m.entries.push(EntryV::Variable(nm)),
                                    },
                                    st,
                                    resume_at(c + 2, st.len() as int, cl.cur),
                                    tbl_insert(vars, nm, cl.var),
                                    disp,
                                    path,
                                    files,
                                    links,
                                    root,
                                    fuel,
                                )
                            }
                        },
                        _ => MenuParse {
                            menu: m,
                            cur: c + 2,
                            vars,
                            disp,
                            err: Some(ParseErrorV::InvalidConfigName),
                        },
                    }
                } else {
                    MenuParse {
                        menu: m,
                        cur: c + 1,
                        vars,
                        disp,
                        err: Some(ParseErrorV::InvalidConfigName),
                    }
                }
            },
            TokenV::Source => {
                let (s, c1) = spec_accept_str(st, c + 1);
                match s {
                    Some(rel) => {
                        match find_link(links, path, rel) {
                            None => MenuParse {
                                menu: m,
                                cur: c + 2,
                                vars,
                                disp,
                                err: Some(ParseErrorV::NeedFile { file: path, rel }),
                            },
                            Some(target) => {
                                if fuel == 0 {
                                    MenuParse {
                                        menu: m,
                                        cur: c + 2,
                                        vars,
                                        disp,
                                        err: Some(ParseErrorV::SourceLoop),
                                    }
                                } else {
                                    match spec_parse_file(target, files, links, (fuel - 1) as nat) {
                                        Ok(kv) => spec_parse_menu(
                                            m,
                                            st,
                                            c + 2,
                                            tbl_merge(vars, kv.vars),
                                            disp,
                                            path,
                                            files,
                                            links,
                                            root,
                                            fuel,
                                        ),
                                        Err(e) => MenuParse {
                                            menu: m,
                                            cur: c + 2,
                                            vars,
                                            disp,
                                            err: Some(e),
                                        },
                                    }
                                }
                            },
                        }
                    },
                    None => MenuParse {
                        menu: m,
                        cur: c + 1,
                        vars,
                        disp,
                        err: Some(ParseErrorV::InvalidSource),
                    },
                }
            },
            _ => MenuParse { menu: m, cur: c + 1, vars, disp, err: Some(ParseErrorV::InvalidToken) },
        }
    }
}

/// Parse one loaded file: tokenize its text, parse its directives into a
/// fresh root menu and a fresh variable table at depth zero, and take the
/// display name from any `mainmenu` directive, with `(top)` as the
/// placeholder otherwise.
pub open spec fn spec_parse_file(
    path: Seq<char>,
    files: Seq<SourceFileV>,
    links: Seq<SourceLinkV>,
    fuel: nat,
) -> Result<KConfigV, ParseErrorV>
    decreases fuel, 1nat, 0int,
{
    match find_file(files, path) {
        None => Err(ParseErrorV::NeedFile { file: Seq::empty(), rel: path }),
        Some(text) => {
            let o = spec_parse_menu(
                MenuV::empty("(top)"@),
                spec_tokenize(text),
                0,
                Seq::empty(),
                None,
                path,
                files,
                links,
                true,
                fuel,
            );
            match o.err {
                Some(e) => Err(e),
                None => Ok(
                    KConfigV {
                        name: match o.disp {
                            Some(n) => n,
                            None => "(top)"@,
                        },
                        root: o.menu,
                        vars: o.vars,
                    },
                ),
            }
        },
    }
}

/// The menu parser's cursor stays within the stream and never moves
/// backwards past its starting point.
pub proof fn lemma_parse_menu_cur(
    m: MenuV,
    st: Seq<TokenV>,
    c: int,
    vars: TableV,
    disp: Option<Seq<char>>,
    path: Seq<char>,
    files: Seq<SourceFileV>,
    links: Seq<SourceLinkV>,
    root: bool,
    fuel: nat,
)
    requires
        0 <= c <= st.len(),
    ensures
        c <= spec_parse_menu(m, st, c, vars, disp, path, files, links, root, fuel).cur <= st.len(),
    decreases st.len() - c,
{
    if c < st.len() {
        match st[c] {
            TokenV::MainMenu => {
                if c + 1 < st.len() && st[c + 1] is Str {
                    let s = match st[c + 1] {
                        TokenV::Str(s) => s,
                        _ => Seq::empty(),
                    };
                    lemma_parse_menu_cur(m, st, c + 2, vars, Some(s), path, files, links, root, fuel);
                }
            },
            TokenV::Menu => {
                let (s, c1) = spec_accept_str(st, c + 1);
                match s {
                    Some(label) => {
                        lemma_parse_menu_cur(
                            MenuV::empty(label),
                            st,
                            c1,
                            vars,
                            disp,
                            path,
                            files,
                            links,
                            false,
                            fuel,
                        );
                        let sub = spec_parse_menu(
                            MenuV::empty(label),
                            st,
                            c1,
                            vars,
                            disp,
                            path,
                            files,
                            links,
                            false,
                            fuel,
                        );
                        if !(sub.err is Some) {
                            lemma_parse_menu_cur(
                                MenuV { name: m.name, entries: m.entries.push(EntryV::Menu(sub.menu)) },
                                st,
                                resume_at(c + 2, st.len() as int, sub.cur),
                                sub.vars,
                                sub.disp,
                                path,
                                files,
                                links,
                                root,
                                fuel,
                            );
                        }
                    },
                    None => {
                        lemma_parse_menu_cur(m, st, c + 1, vars, disp, path, files, links, root, fuel);
                    },
                }
            },
            TokenV::Config => {
                if c + 1 < st.len() {
                    match st[c + 1] {
                        TokenV::Name(nm) => {
                            lemma_clauses_cur(st, c + 2, VariableV::blank(nm));
                            let cl = spec_parse_clauses(st, c + 2, VariableV::blank(nm));
                            if !cl.missing {
                                lemma_parse_menu_cur(
                                    MenuV {
                                        name: m.name,
                                        entries: m.entries.push(EntryV::Variable(nm)),
                                    },
                                    st,
                                    resume_at(c + 2, st.len() as int, cl.cur),
                                    tbl_insert(vars, nm, cl.var),
                                    disp,
                                    path,
                                    files,
                                    links,
                                    root,
                                    fuel,
                                );
                            }
                        },
                        _ => {},
                    }
                }
            },
            TokenV::Source => {
                let (s, c1) = spec_accept_str(st, c + 1);
                match s {
                    Some(rel) => {
                        match find_link(links, path, rel) {
                            Some(target) => {
                                if fuel > 0 {
                                    match spec_parse_file(target, files, links, (fuel - 1) as nat) {
                                        Ok(kv) => {
                                            lemma_parse_menu_cur(
                                                m,
                                                st,
                                                c + 2,
                                                tbl_merge(vars, kv.vars),
                                                disp,
                                                path,
                                                files,
                                                links,
                                                root,
                                                fuel,
                                            );
                                        },
                                        Err(_) => {},
                                    }
                                }
                            },
                            None => {},
                        }
                    },
                    None => {},
                }
            },
            _ => {},
        }
    }
}

/// The text of the first loaded file bearing `path`, if any.
fn lookup_file(files: &Vec<SourceFile>, path: &str) -> (r: Option<String>)
    ensures
        match r {
            Some(t) => find_file(files_view(files@), path@) == Some(t@),
            None => find_file(files_view(files@), path@) is None,
        },
{
    let ghost fv = files_view(files@);
    proof {
        assert(fv.skip(0) =~= fv);
    }
    let mut i: usize = 0;
    while i < files.len()
        invariant
            0 <= i <= files.len(),
            fv == files_view(files@),
            fv.len() == files@.len(),
            find_file(fv, path@) == find_file(fv.skip(i as int), path@),
        decreases files.len() - i,
    {
        proof {
            assert(fv.skip(i as int)[0] == fv[i as int]);
            assert(fv.skip(i as int).drop_first() =~= fv.skip(i as int + 1));
        }
        if crate::strutil::str_eq(files[i].path.as_str(), path) {
            return Some(files[i].text.clone());
        }
        i = i + 1;
    }
    proof {
        assert(fv.skip(files@.len() as int).len() == 0);
    }
    None
}

/// The target of the first resolution for `source "rel"` within `file`,
/// if any.
fn lookup_link(links: &Vec<SourceLink>, file: &str, rel: &str) -> (r: Option<String>)
    ensures
        match r {
            Some(t) => find_link(links_view(links@), file@, rel@) == Some(t@),
            None => find_link(links_view(links@), file@, rel@) is None,
        },
{
    let ghost lv = links_view(links@);
    proof {
        assert(lv.skip(0) =~= lv);
    }
    let mut i: usize = 0;
    while i < links.len()
        invariant
            0 <= i <= links.len(),
            lv == links_view(links@),
            lv.len() == links@.len(),
            find_link(lv, file@, rel@) == find_link(lv.skip(i as int), file@, rel@),
        decreases links.len() - i,
    {
        proof {
            assert(lv.skip(i as int)[0] == lv[i as int]);
            assert(lv.skip(i as int).drop_first() =~= lv.skip(i as int + 1));
        }
        if crate::strutil::str_eq(links[i].file.as_str(), file) && crate::strutil::str_eq(
            links[i].rel.as_str(),
            rel,
        ) {
            return Some(links[i].target.clone());
        }
        i = i + 1;
    }
    proof {
        assert(lv.skip(links@.len() as int).len() == 0);
    }
    None
}

/// Parse the clause list of a `config` declaration into `var`: any
/// number of type clauses, then at most one `default` clause.  Yields
/// whether a `default` clause lacked its boolean argument.
fn parse_clauses(toks: &mut Parser, var: &mut Variable) -> (missing: bool)
    requires
        0 <= old(toks).cursor(),
        old(toks).cursor() <= old(toks).stream().len(),
    ensures
        ({
            let cl = spec_parse_clauses(old(toks).stream(), old(toks).cursor(), old(var)@);
            &&& final(toks).stream() == old(toks).stream()
            &&& final(toks).cursor() == cl.cur
            &&& missing == cl.missing
            &&& final(var)@.name == old(var)@.name
            &&& (!cl.missing ==> final(var)@ == cl.var)
        }),
{
    let ghost st = toks.stream();
    let ghost cc = toks.cursor();
    let ghost clo = spec_parse_clauses(st, cc, old(var)@);
    let mut missing = false;
    loop
        invariant_except_break
            toks.stream() == st,
            0 <= toks.cursor() <= st.len(),
            missing == false,
            var@.name == old(var)@.name,
            clo == spec_parse_clauses(st, toks.cursor(), var@),
        ensures
            toks.stream() == st,
            var@.name == old(var)@.name,
            missing == clo.missing,
            toks.cursor() == clo.cur,
            !missing ==> var@ == clo.var,
        decreases st.len() - toks.cursor(),
    {
        match toks.accept_type() {
            Some(ty) => {
                var.ty = Some(ty);
                match toks.accept_string() {
                    Some(d) => {
                        var.desc = Some(d);
                    },
                    None => {},
                }
            },
            None => {
                let ghost cd = toks.cursor();
                let ghost var_d = var@;
                let pk = toks.peek();
                let is_default = match pk {
                    Some(Token::Default) => true,
                    _ => false,
                };
                if is_default {
                    proof {
                        assert(st[cd] == TokenV::Default);
                    }
                    let _ = toks.next();
                    match toks.parse_value() {
                        Some(val) => {
                            var.default = Some(val);
                            proof {
                                assert(spec_parse_value(st, cd + 1) == (Some(val@), cd + 2));
                                lemma_clauses_default(st, cd, var_d, val@);
                                assert(var@ == clo.var);
                            }
                            break ;
                        },
                        None => {
                            missing = true;
                            proof {
                                lemma_clauses_missing(st, cd, var_d);
                            }
                            break ;
                        },
                    }
                } else {
                    proof {
                        lemma_clauses_end(st, cd, var_d);
                    }
                    break ;
                }
            },
        }
    }
    missing
}

impl Menu {
    /// Parse directives into this menu until `endmenu` or the end of the
    /// stream: the core procedure of the parser.  The variable table, the
    /// display name and the token cursor are threaded through the whole
    /// recursion; `root` tells whether running out of tokens is balanced;
    /// `fuel` bounds the depth of `source` inclusion.
    #[verifier::loop_isolation(false)]
    pub fn parse(
        &mut self,
        path: &str,
        toks: &mut Parser,
        vars: &mut IndexMap<String, Variable>,
        disp: &mut Option<String>,
        files: &Vec<SourceFile>,
        links: &Vec<SourceLink>,
        root: bool,
        fuel: usize,
    ) -> (r: Result<(), ParseError>)
        requires
            0 <= old(toks).cursor(),
            old(toks).cursor() <= old(toks).stream().len(),
        ensures
            ({
                let o = spec_parse_menu(
                    menu_view(*old(self)),
                    old(toks).stream(),
                    old(toks).cursor(),
                    table_model(*old(vars)),
                    opt_string_view(*old(disp)),
                    path@,
                    files_view(files@),
                    links_view(links@),
                    root,
                    fuel as nat,
                );
                &&& final(toks).stream() == old(toks).stream()
                &&& final(toks).cursor() == o.cur
                &&& table_model(*final(vars)) == o.vars
                &&& opt_string_view(*final(disp)) == o.disp
                &&& menu_view(*final(self)) == o.menu
                &&& (match r {
                    Ok(_) => o.err is None,
                    Err(e) => o.err == Some(e@),
                })
            }),
        decreases fuel, 0nat, toks.stream().len() - toks.cursor(),
    {
        let ghost st = toks.stream();
        let ghost c0 = toks.cursor();
        let ghost fv = files_view(files@);
        let ghost lv = links_view(links@);
        let ghost o = spec_parse_menu(
            menu_view(*self),
            st,
            c0,
            table_model(*vars),
            opt_string_view(*disp),
            path@,
            fv,
            lv,
            root,
            fuel as nat,
        );
        loop
            invariant
                toks.stream() == st,
                c0 <= toks.cursor() <= st.len(),
                o == spec_parse_menu(
                    menu_view(*self),
                    st,
                    toks.cursor(),
                    table_model(*vars),
                    opt_string_view(*disp),
                    path@,
                    fv,
                    lv,
                    root,
                    fuel as nat,
                ),
            decreases st.len() - toks.cursor(),
        {
            let ghost c = toks.cursor();
            let ghost m_c = menu_view(*self);
            let ghost vars_c = table_model(*vars);
            let ghost disp_c = opt_string_view(*disp);
            let t = toks.next();
            match t {
                None => {
                    proof {
                        assert(c == st.len() as int);
                        assert(o == MenuParse {
                            menu: m_c,
                            cur: c,
                            vars: vars_c,
                            disp: disp_c,
                            err: if root {
                                None
                            } else {
                                Some(ParseErrorV::Unbalanced)
                            },
                        });
                    }
                    if root {
                        return Ok(());
                    } else {
                        return Err(ParseError::Unbalanced);
                    }
                },
                Some(tok) => {
                    match tok {
                        Token::EndMenu => {
                            proof {
                                assert(st[c] == TokenV::EndMenu);
                                assert(o == MenuParse {
                                    menu: m_c,
                                    cur: c + 1,
                                    vars: vars_c,
                                    disp: disp_c,
                                    err: None,
                                });
                            }
                            return Ok(());
                        },
                        Token::MainMenu => {
                            let t2 = toks.next();
                            match t2 {
                                Some(Token::Str(s)) => {
                                    *disp = Some(s);
                                },
                                _ => {
                                    return Err(ParseError::InvalidMainmenu);
                                },
                            }
                        },
                        Token::Menu => {
                            match toks.accept_string() {
                                Some(label) => {
                                    let mut sub = Menu::new(label.as_str());
                                    let ghost c1 = toks.cursor();
                                    proof {
                                        lemma_parse_menu_cur(
                                            MenuV::empty(label@),
                                            st,
                                            c1,
                                            vars_c,
                                            disp_c,
                                            path@,
                                            fv,
                                            lv,
                                            false,
                                            fuel as nat,
                                        );
                                    }
                                    let rr = sub.parse(
                                        path,
                                        toks,
                                        vars,
                                        disp,
                                        files,
                                        links,
                                        false,
                                        fuel,
                                    );
                                    match rr {
                                        Ok(_) => {
                                            let ghost es = self.entries@;
                                            self.entries.push(Entry::Menu(sub));
                                            proof {
                                                crate::lemma_entries_view_push(
                                                    es,
                                                    Entry::Menu(sub),
                                                );
                                            }
                                        },
                                        Err(e) => {
                                            return Err(e);
                                        },
                                    }
                                },
                                None => {},
                            }
                        },
                        Token::Config => {
                            let t2 = toks.next();
                            match t2 {
                                Some(Token::Name(nm)) => {
                                    let mut var = Variable::new(nm.as_str());
                                    let ghost cc = toks.cursor();
                                    let ghost blank = VariableV::blank(nm@);
                                    let ghost clo = spec_parse_clauses(st, cc, blank);
                                    proof {
                                        lemma_clauses_cur(st, cc, blank);
                                    }
                                    let missing = parse_clauses(toks, &mut var);
                                    if missing {
                                        return Err(ParseError::MissingDefault);
                                    }
                                    let k = var.name.clone();
                                    crate::table::table_insert(vars, k, var);
                                    let ghost es = self.entries@;
                                    self.entries.push(Entry::Variable(nm));
                                    proof {
                                        crate::lemma_entries_view_push(es, Entry::Variable(nm));
                                    }
                                },
                                _ => {
                                    return Err(ParseError::InvalidConfigName);
                                },
                            }
                        },
                        Token::Source => {
                            match toks.accept_string() {
                                Some(rel) => {
                                    match lookup_link(links, path, rel.as_str()) {
                                        Some(target) => {
                                            if fuel == 0 {
                                                return Err(ParseError::SourceLoop);
                                            }
                                            match parse_file_at(
                                                target.as_str(),
                                                files,
                                                links,
                                                fuel - 1,
                                            ) {
                                                Ok(other) => {
                                                    crate::table::table_merge_into(
                                                        vars,
                                                        other.vars,
                                                    );
                                                },
                                                Err(e) => {
                                                    return Err(e);
                                                },
                                            }
                                        },
                                        None => {
                                            return Err(
                                                ParseError::NeedFile {
                                                    file: path.to_owned(),
                                                    rel,
                                                },
                                            );
                                        },
                                    }
                                },
                                None => {
                                    return Err(ParseError::InvalidSource);
                                },
                            }
                        },
                        _ => {
                            return Err(ParseError::InvalidToken);
                        },
                    }
                },
            }
        }
    }
}

/// Parse the loaded file at `path`: tokenize its text and parse it at
/// depth zero into a fresh `KConfig`.
pub fn parse_file_at(path: &str, files: &Vec<SourceFile>, links: &Vec<SourceLink>, fuel: usize) -> (r:
    Result<KConfig, ParseError>)
    ensures
        ({
            let o = spec_parse_file(path@, files_view(files@), links_view(links@), fuel as nat);
            match r {
                Ok(k) => o == Ok::<KConfigV, ParseErrorV>(k@),
                Err(e) => o == Err::<KConfigV, ParseErrorV>(e@),
            }
        }),
    decreases fuel, 1nat, 0int,
{
    match lookup_file(files, path) {
        None => Err(ParseError::NeedFile { file: String::new(), rel: path.to_owned() }),
        Some(text) => {
            let mut toks = Parser::new(text.as_str());
            let mut root_menu = Menu::new("(top)");
            let mut vars = crate::table::table_new();
            let mut disp: Option<String> = None;
            let rr = root_menu.parse(path, &mut toks, &mut vars, &mut disp, files, links, true, fuel);
            match rr {
                Ok(_) => {
                    let name = match disp {
                        Some(n) => n,
                        None => "(top)".to_owned(),
                    };
                    Ok(KConfig { name, root: root_menu, vars })
                },
                Err(e) => Err(e),
            }
        },
    }
}

/// Parsing keeps the table invariant: keys stay unique and keep naming
/// the variable they hold.
pub proof fn lemma_parse_menu_wf(
    m: MenuV,
    st: Seq<TokenV>,
    c: int,
    vars: TableV,
    disp: Option<Seq<char>>,
    path: Seq<char>,
    files: Seq<SourceFileV>,
    links: Seq<SourceLinkV>,
    root: bool,
    fuel: nat,
)
    requires
        0 <= c <= st.len(),
        crate::table::tbl_unique(vars),
        crate::table::tbl_named(vars),
    ensures
        ({
            let o = spec_parse_menu(m, st, c, vars, disp, path, files, links, root, fuel);
            crate::table::tbl_unique(o.vars) && crate::table::tbl_named(o.vars)
        }),
    decreases fuel, 2nat, st.len() - c,
{
    if c < st.len() {
        match st[c] {
            TokenV::MainMenu => {
                if c + 1 < st.len() && st[c + 1] is Str {
                    let s = match st[c + 1] {
                        TokenV::Str(s) => s,
                        _ => Seq::empty(),
                    };
                    lemma_parse_menu_wf(m, st, c + 2, vars, Some(s), path, files, links, root, fuel);
                }
            },
            TokenV::Menu => {
                let (s, c1) = spec_accept_str(st, c + 1);
                match s {
                    Some(label) => {
                        lemma_parse_menu_wf(
                            MenuV::empty(label),
                            st,
                            c1,
                            vars,
                            disp,
                            path,
                            files,
                            links,
                            false,
                            fuel,
                        );
                        lemma_parse_menu_cur(
                            MenuV::empty(label),
                            st,
                            c1,
                            vars,
                            disp,
                            path,
                            files,
                            links,
                            false,
                            fuel,
                        );
                        let sub = spec_parse_menu(
                            MenuV::empty(label),
                            st,
                            c1,
                            vars,
                            disp,
                            path,
                            files,
                            links,
                            false,
                            fuel,
                        );
                        if !(sub.err is Some) {
                            lemma_parse_menu_wf(
                                MenuV { name: m.name, entries: m.entries.push(EntryV::Menu(sub.menu)) },
                                st,
                                resume_at(c + 2, st.len() as int, sub.cur),
                                sub.vars,
                                sub.disp,
                                path,
                                files,
                                links,
                                root,
                                fuel,
                            );
                        }
                    },
                    None => {
                        lemma_parse_menu_wf(m, st, c + 1, vars, disp, path, files, links, root, fuel);
                    },
                }
            },
            TokenV::Config => {
                if c + 1 < st.len() {
                    match st[c + 1] {
                        TokenV::Name(nm) => {
                            lemma_clauses_cur(st, c + 2, VariableV::blank(nm));
                            let cl = spec_parse_clauses(st, c + 2, VariableV::blank(nm));
                            if !cl.missing {
                                crate::table::lemma_tbl_insert_wf(vars, nm, cl.var);
                                lemma_parse_menu_wf(
                                    MenuV {
                                        name: m.name,
                                        entries: m.entries.push(EntryV::Variable(nm)),
                                    },
                                    st,
                                    resume_at(c + 2, st.len() as int, cl.cur),
                                    tbl_insert(vars, nm, cl.var),
                                    disp,
                                    path,
                                    files,
                                    links,
                                    root,
                                    fuel,
                                );
                            }
                        },
                        _ => {},
                    }
                }
            },
            TokenV::Source => {
                let (s, c1) = spec_accept_str(st, c + 1);
                match s {
                    Some(rel) => {
                        match find_link(links, path, rel) {
                            Some(target) => {
                                if fuel > 0 {
                                    match spec_parse_file(target, files, links, (fuel - 1) as nat) {
                                        Ok(kv) => {
                                            lemma_parse_file_wf(
                                                target,
                                                files,
                                                links,
                                                (fuel - 1) as nat,
                                            );
                                            crate::table::lemma_tbl_merge_wf(vars, kv.vars);
                                            lemma_parse_menu_wf(
                                                m,
                                                st,
                                                c + 2,
                                                tbl_merge(vars, kv.vars),
                                                disp,
                                                path,
                                                files,
                                                links,
                                                root,
                                                fuel,
                                            );
                                        },
                                        Err(_) => {},
                                    }
                                }
                            },
                            None => {},
                        }
                    },
                    None => {},
                }
            },
            _ => {},
        }
    }
}

/// A parsed file's table keeps the table invariant.
pub proof fn lemma_parse_file_wf(
    path: Seq<char>,
    files: Seq<SourceFileV>,
    links: Seq<SourceLinkV>,
    fuel: nat,
)
    ensures
        ({
            match spec_parse_file(path, files, links, fuel) {
                Ok(kv) => crate::table::tbl_unique(kv.vars) && crate::table::tbl_named(kv.vars),
                Err(_) => true,
            }
        }),
    decreases fuel, 3nat, 0int,
{
    match find_file(files, path) {
        Some(text) => {
            lemma_parse_menu_wf(
                MenuV::empty("(top)"@),
                spec_tokenize(text),
                0,
                Seq::empty(),
                None,
                path,
                files,
                links,
                true,
                fuel,
            );
        },
        None => {},
    }
}

/// Whether `l` is exactly the persisted line `# CONFIG_<NAME> is not
/// set`, with a nonempty `<NAME>` free of spaces.
pub open spec fn unset_shape(l: Seq<char>) -> bool {
    &&& l.len() >= 21
    &&& l.subrange(0, 9) == "# CONFIG_"@
    &&& l.subrange(l.len() - 11, l.len() as int) == " is not set"@
    &&& (forall|k: int| 9 <= k < l.len() - 11 ==> l[k] != ' ')
}

/// The name inside an `is not set` line.
pub open spec fn unset_name(l: Seq<char>) -> Seq<char> {
    l.subrange(9, l.len() - 11)
}

/// What one line of a persisted state file records: the `is not set`
/// shape stands for a false boolean; `CONFIG_<NAME>=<value>` yields the
/// boolean literal after the equals sign; anything else records nothing.
pub open spec fn spec_decode_line(l: Seq<char>) -> Option<(Seq<char>, ValueV)> {
    if unset_shape(l) {
        Some((unset_name(l), ValueV::Bool(false)))
    } else {
        let st = spec_tokenize(l);
        if st.len() == 3 {
            match (st[0], st[1], st[2]) {
                (TokenV::Name(nm), TokenV::Equals, TokenV::Yes) => if nm.len() >= 7
                    && nm.subrange(0, 7) == "CONFIG_"@ {
                    Some((nm.skip(7), ValueV::Bool(true)))
                } else {
                    None
                },
                (TokenV::Name(nm), TokenV::Equals, TokenV::No) => if nm.len() >= 7 && nm.subrange(
                    0,
                    7,
                ) == "CONFIG_"@ {
                    Some((nm.skip(7), ValueV::Bool(false)))
                } else {
                    None
                },
                _ => None,
            }
        } else {
            None
        }
    }
}

/// Recognize the `is not set` shape and yield its name.
fn check_unset(line: &str) -> (r: Option<String>)
    ensures
        match r {
            Some(s) => unset_shape(line@) && s@ == unset_name(line@),
            None => !unset_shape(line@),
        },
{
    let n = line.unicode_len();
    if n < 21 {
        return None;
    }
    let pre = line.substring_char(0, 9);
    if !crate::strutil::str_eq(pre, "# CONFIG_") {
        return None;
    }
    let suf = line.substring_char(n - 11, n);
    if !crate::strutil::str_eq(suf, " is not set") {
        return None;
    }
    let mut i: usize = 9;
    while i < n - 11
        invariant
            9 <= i <= n - 11,
            21 <= n == line@.len(),
            forall|k: int| 9 <= k < i ==> line@[k] != ' ',
        decreases n - 11 - i,
    {
        if line.get_char(i) == ' ' {
            return None;
        }
        i = i + 1;
    }
    Some(line.substring_char(9, n - 11).to_owned())
}

impl KConfig {
    /// Load persisted state from the text of a `.config` file: each line
    /// that decodes to a setting overwrites the current value of the
    /// variable of that name, if the table has one; all other lines, and
    /// settings for unknown names, are skipped.
    pub fn load_str(&mut self, text: &str)
        ensures
            final(self)@.name == old(self)@.name,
            final(self)@.root == old(self)@.root,
            final(self)@.vars == spec_load_lines(
                old(self)@.vars,
                crate::strutil::spec_split_lines(text@),
            ),
            old(self).inv() ==> final(self).inv(),
    {
        proof {
            if old(self).inv() {
                lemma_load_lines_wf(self@.vars, crate::strutil::spec_split_lines(text@));
            }
        }
        let ghost t0 = self@.vars;
        let lines = crate::strutil::split_lines(text);
        let ghost lv = crate::strutil::lines_view(lines@);
        proof {
            assert(lv.skip(0) =~= lv);
        }
        let mut i: usize = 0;
        while i < lines.len()
            invariant
                0 <= i <= lines.len(),
                lv == crate::strutil::lines_view(lines@),
                lv.len() == lines@.len(),
                spec_load_lines(t0, lv) == spec_load_lines(
                    table_model(self.vars),
                    lv.skip(i as int),
                ),
                self.name@ == old(self)@.name,
                menu_view(self.root) == old(self)@.root,
            decreases lines.len() - i,
        {
            proof {
                assert(lv.skip(i as int)[0] == lv[i as int]);
                assert(lv.skip(i as int).drop_first() =~= lv.skip(i as int + 1));
            }
            match parse_config_line(lines[i].as_str()) {
                Some(kv) => {
                    let (k, v) = kv;
                    let got = table_get(&self.vars, k.as_str());
                    match got {
                        Some(var0) => {
                            let mut nv = crate::dup_variable(var0);
                            nv.value = Some(v);
                            crate::table::table_insert(&mut self.vars, k, nv);
                        },
                        None => {},
                    }
                },
                None => {},
            }
            i = i + 1;
        }
        proof {
            assert(lv.skip(lines@.len() as int).len() == 0);
        }
    }
}

/// The table after one decoded setting: the named variable's current
/// value overwritten, where the table has that name; unchanged otherwise.
pub open spec fn tbl_set_value(t: TableV, k: Seq<char>, v: ValueV) -> TableV {
    match crate::table::tbl_get(t, k) {
        Some(var) => tbl_insert(t, k, VariableV { value: Some(v), ..var }),
        None => t,
    }
}

/// The table after loading every line of a persisted state file in order.
pub open spec fn spec_load_lines(t: TableV, lines: Seq<Seq<char>>) -> TableV
    decreases lines.len(),
{
    if lines.len() == 0 {
        t
    } else {
        let t1 = match spec_decode_line(lines[0]) {
            Some(p) => tbl_set_value(t, p.0, p.1),
            None => t,
        };
        spec_load_lines(t1, lines.drop_first())
    }
}

/// Loading persisted state keeps the table invariant: keys stay unique
/// and keep naming the variable they hold.
pub proof fn lemma_load_lines_wf(t: TableV, lines: Seq<Seq<char>>)
    requires
        crate::table::tbl_unique(t),
        crate::table::tbl_named(t),
    ensures
        crate::table::tbl_unique(spec_load_lines(t, lines)),
        crate::table::tbl_named(spec_load_lines(t, lines)),
    decreases lines.len(),
{
    if lines.len() > 0 {
        let t1 = match spec_decode_line(lines[0]) {
            Some(p) => tbl_set_value(t, p.0, p.1),
            None => t,
        };
        match spec_decode_line(lines[0]) {
            Some(p) => {
                crate::table::lemma_tbl_index_of(t, p.0);
                if crate::table::tbl_has(t, p.0) {
                    let idx = crate::table::tbl_index_of(t, p.0);
                    let var = t[idx].1;
                    assert(t[idx].0 == t[idx].1.name);
                    crate::table::lemma_tbl_insert_wf(
                        t,
                        p.0,
                        VariableV { value: Some(p.1), ..var },
                    );
                }
            },
            None => {},
        }
        lemma_load_lines_wf(t1, lines.drop_first());
    }
}

/// Return a variable/value mapping, parsed from one line of a persisted
/// `.config` state file, if the line records one.
pub fn parse_config_line(line: &str) -> (r: Option<(String, Value)>)
    ensures
        ({
            let d = spec_decode_line(line@);
            match r {
                Some(p) => d == Some((p.0@, p.1@)),
                None => d is None,
            }
        }),
{
    match check_unset(line) {
        Some(name) => {
            return Some((name, Value::Bool(false)));
        },
        None => {},
    }
    let ghost st = spec_tokenize(line@);
    let mut toks = Parser::new(line);
    let t1 = toks.next();
    match t1 {
        Some(Token::Name(nm)) => {
            let t2 = toks.next();
            match t2 {
                Some(Token::Equals) => {
                    match toks.parse_value() {
                        Some(v) => {
                            let t4 = toks.next();
                            match t4 {
                                None => {
                                    proof {
                                        assert(st.len() == 3);
                                    }
                                    let ln = nm.as_str().unicode_len();
                                    if ln >= 7 {
                                        let pre = nm.as_str().substring_char(0, 7);
                                        if crate::strutil::str_eq(pre, "CONFIG_") {
                                            let rest = nm.as_str().substring_char(7, ln);
                                            proof {
                                                assert(nm@.skip(7) =~= nm@.subrange(7, ln as int));
                                            }
                                            return Some((rest.to_owned(), v));
                                        }
                                    }
                                    None
                                },
                                Some(_) => None,
                            }
                        },
                        None => None,
                    }
                },
                _ => None,
            }
        },
        _ => None,
    }
}

/// Parse the configuration rooted at the file at `root_path`, resolving
/// `source` inclusion against the loaded `files` through the caller's
/// `links`.  A chain of inclusions deeper than the number of loaded files
/// must revisit a file, and fails with `ParseError::SourceLoop`.
pub fn parse_files(root_path: &str, files: &Vec<SourceFile>, links: &Vec<SourceLink>) -> (r: Result<
    KConfig,
    ParseError,
>)
    ensures
        ({
            let o = spec_parse_file(
                root_path@,
                files_view(files@),
                links_view(links@),
                files@.len() as nat,
            );
            match r {
                Ok(k) => o == Ok::<KConfigV, ParseErrorV>(k@) && k.inv(),
                Err(e) => o == Err::<KConfigV, ParseErrorV>(e@),
            }
        }),
{
    proof {
        lemma_parse_file_wf(
            root_path@,
            files_view(files@),
            links_view(links@),
            files@.len() as nat,
        );
    }
    parse_file_at(root_path, files, links, files.len())
}




/// One step of the clause grammar: a well-formed `default` clause sets
/// the default value and consumes two tokens.
proof fn lemma_clauses_default(st: Seq<TokenV>, c: int, v: VariableV, w: ValueV)
    requires
        0 <= c < st.len(),
        st[c] == TokenV::Default,
        spec_accept_type(st, c).0 is None,
        spec_parse_value(st, c + 1) == (Some(w), c + 2),
    ensures
        spec_parse_clauses(st, c, v) == (ClauseParse {
            var: (VariableV { default: Some(w), ..v }),
            cur: c + 2,
            missing: false,
        }),
{
}

/// One step of the clause grammar: a `default` clause without a boolean
/// literal after it is the missing-argument error.
proof fn lemma_clauses_missing(st: Seq<TokenV>, c: int, v: VariableV)
    requires
        0 <= c < st.len(),
        st[c] == TokenV::Default,
        spec_accept_type(st, c).0 is None,
        spec_parse_value(st, c + 1).0 is None,
    ensures
        spec_parse_clauses(st, c, v) == (ClauseParse { var: v, cur: c + 1, missing: true }),
{
}

/// One step of the clause grammar: no type clause and no `default`
/// clause ends the clause list where it stands.
proof fn lemma_clauses_end(st: Seq<TokenV>, c: int, v: VariableV)
    requires
        0 <= c,
        spec_accept_type(st, c).0 is None,
        c < st.len() ==> st[c] != TokenV::Default,
    ensures
        spec_parse_clauses(st, c, v) == (ClauseParse { var: v, cur: c, missing: false }),
{
}


} // verus!

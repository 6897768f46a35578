//! The lexer: classifies source text into a stream of tokens.
//!
//! Keywords and the `y`/`n` literals are lowercase words; names are runs
//! of `A`-`Z` and `_`; quoted strings keep the characters between two
//! quotes; `=` stands alone; whitespace separates tokens and is dropped.
//! Any other input yields the error token, which ends the stream.
use crate::strutil::str_eq;
use crate::{spec_type_new, Type};
use vstd::prelude::*;
use vstd::string::StrSliceExecFns;

verus! {

/// One classified token of source text.
#[derive(Debug)]
pub enum Token {
    MainMenu,
    Source,
    Menu,
    EndMenu,
    Config,
    Default,
    Yes,
    No,
    Equals,
    Name(String),
    Str(String),
    Ty(Type),
    Bad,
}

/// The mathematical content of a `Token`.
pub enum TokenV {
    MainMenu,
    Source,
    Menu,
    EndMenu,
    Config,
    Default,
    Yes,
    No,
    Equals,
    Name(Seq<char>),
    Str(Seq<char>),
    Ty(Type),
    Bad,
}

impl View for Token {
    type V = TokenV;

    open spec fn view(&self) -> TokenV {
        match self {
            Token::MainMenu => TokenV::MainMenu,
            Token::Source => TokenV::Source,
            Token::Menu => TokenV::Menu,
            Token::EndMenu => TokenV::EndMenu,
            Token::Config => TokenV::Config,
            Token::Default => TokenV::Default,
            Token::Yes => TokenV::Yes,
            Token::No => TokenV::No,
            Token::Equals => TokenV::Equals,
            Token::Name(s) => TokenV::Name(s@),
            Token::Str(s) => TokenV::Str(s@),
            Token::Ty(t) => TokenV::Ty(*t),
            Token::Bad => TokenV::Bad,
        }
    }
}

/// Copy a token; the copy has the same content.
pub fn dup_token(t: &Token) -> (r: Token)
    ensures
        r@ == t@,
{
    match t {
        Token::MainMenu => Token::MainMenu,
        Token::Source => Token::Source,
        Token::Menu => Token::Menu,
        Token::EndMenu => Token::EndMenu,
        Token::Config => Token::Config,
        Token::Default => Token::Default,
        Token::Yes => Token::Yes,
        Token::No => Token::No,
        Token::Equals => Token::Equals,
        Token::Name(s) => Token::Name(s.clone()),
        Token::Str(s) => Token::Str(s.clone()),
        Token::Ty(ty) => Token::Ty(*ty),
        Token::Bad => Token::Bad,
    }
}

/// The contents of a sequence of tokens.
pub open spec fn toks_view(ts: Seq<Token>) -> Seq<TokenV> {
    Seq::new(ts.len(), |i: int| ts[i]@)
}

/// Whitespace: space, tab, newline, formfeed.
pub open spec fn is_ws(c: char) -> bool {
    c == ' ' || c == '\t' || c == '\n' || c == '\u{000C}'
}

/// A character of a name: `A`-`Z` or `_`.
pub open spec fn is_name_char(c: char) -> bool {
    (('A' as u32) <= (c as u32) && (c as u32) <= ('Z' as u32)) || c == '_'
}

/// A character of a keyword: `a`-`z`.
pub open spec fn is_word_char(c: char) -> bool {
    ('a' as u32) <= (c as u32) && (c as u32) <= ('z' as u32)
}

/// Whitespace test, executable form.
fn ws_char(c: char) -> (b: bool)
    ensures
        b == is_ws(c),
{
    c == ' ' || c == '\t' || c == '\n' || c == '\u{000C}'
}

/// Name-character test, executable form.
fn name_char(c: char) -> (b: bool)
    ensures
        b == is_name_char(c),
{
    (('A' as u32) <= (c as u32) && (c as u32) <= ('Z' as u32)) || c == '_'
}

/// Keyword-character test, executable form.
fn word_char(c: char) -> (b: bool)
    ensures
        b == is_word_char(c),
{
    ('a' as u32) <= (c as u32) && (c as u32) <= ('z' as u32)
}

/// The length of the longest prefix of `s` made of name characters.
pub open spec fn name_run(s: Seq<char>) -> nat
    decreases s.len(),
{
    if s.len() > 0 && is_name_char(s[0]) {
        (1 + name_run(s.drop_first())) as nat
    } else {
        0
    }
}

/// The length of the longest prefix of `s` made of keyword characters.
pub open spec fn word_run(s: Seq<char>) -> nat
    decreases s.len(),
{
    if s.len() > 0 && is_word_char(s[0]) {
        (1 + word_run(s.drop_first())) as nat
    } else {
        0
    }
}

/// The length of the longest prefix of `s` without a quote character.
pub open spec fn quote_run(s: Seq<char>) -> nat
    decreases s.len(),
{
    if s.len() > 0 && s[0] != '"' {
        (1 + quote_run(s.drop_first())) as nat
    } else {
        0
    }
}

/// A run is no longer than the sequence, all its characters satisfy the
/// class, and the character after it (if any) does not.
pub proof fn lemma_name_run(s: Seq<char>)
    ensures
        name_run(s) <= s.len(),
        forall|i: int| 0 <= i < name_run(s) ==> is_name_char(s[i]),
        name_run(s) < s.len() ==> !is_name_char(s[name_run(s) as int]),
    decreases s.len(),
{
    if s.len() > 0 && is_name_char(s[0]) {
        lemma_name_run(s.drop_first());
        assert forall|i: int| 0 <= i < name_run(s) implies is_name_char(s[i]) by {
            if i > 0 {
                assert(is_name_char(s.drop_first()[i - 1]));
            }
        }
    }
}

/// A stretch that satisfies the class and then stops is exactly the run.
pub proof fn lemma_name_run_is(s: Seq<char>, n: int)
    requires
        0 <= n <= s.len(),
        forall|i: int| 0 <= i < n ==> is_name_char(s[i]),
        n < s.len() ==> !is_name_char(s[n]),
    ensures
        name_run(s) == n,
    decreases s.len(),
{
    if n > 0 {
        assert(is_name_char(s[0]));
        assert forall|i: int| 0 <= i < n - 1 implies is_name_char(s.drop_first()[i]) by {
            assert(is_name_char(s[i + 1]));
        }
        lemma_name_run_is(s.drop_first(), n - 1);
    }
}

/// See `lemma_name_run`.
pub proof fn lemma_word_run(s: Seq<char>)
    ensures
        word_run(s) <= s.len(),
        forall|i: int| 0 <= i < word_run(s) ==> is_word_char(s[i]),
        word_run(s) < s.len() ==> !is_word_char(s[word_run(s) as int]),
    decreases s.len(),
{
    if s.len() > 0 && is_word_char(s[0]) {
        lemma_word_run(s.drop_first());
        assert forall|i: int| 0 <= i < word_run(s) implies is_word_char(s[i]) by {
            if i > 0 {
                assert(is_word_char(s.drop_first()[i - 1]));
            }
        }
    }
}

/// See `lemma_name_run_is`.
pub proof fn lemma_word_run_is(s: Seq<char>, n: int)
    requires
        0 <= n <= s.len(),
        forall|i: int| 0 <= i < n ==> is_word_char(s[i]),
        n < s.len() ==> !is_word_char(s[n]),
    ensures
        word_run(s) == n,
    decreases s.len(),
{
    if n > 0 {
        assert(is_word_char(s[0]));
        assert forall|i: int| 0 <= i < n - 1 implies is_word_char(s.drop_first()[i]) by {
            assert(is_word_char(s[i + 1]));
        }
        lemma_word_run_is(s.drop_first(), n - 1);
    }
}

/// See `lemma_name_run`.
pub proof fn lemma_quote_run(s: Seq<char>)
    ensures
        quote_run(s) <= s.len(),
        forall|i: int| 0 <= i < quote_run(s) ==> s[i] != '"',
        quote_run(s) < s.len() ==> s[quote_run(s) as int] == '"',
    decreases s.len(),
{
    if s.len() > 0 && s[0] != '"' {
        lemma_quote_run(s.drop_first());
        assert forall|i: int| 0 <= i < quote_run(s) implies s[i] != '"' by {
            if i > 0 {
                assert(s.drop_first()[i - 1] != '"');
            }
        }
    }
}

/// See `lemma_name_run_is`.
pub proof fn lemma_quote_run_is(s: Seq<char>, n: int)
    requires
        0 <= n <= s.len(),
        forall|i: int| 0 <= i < n ==> s[i] != '"',
        n < s.len() ==> s[n] == '"',
    ensures
        quote_run(s) == n,
    decreases s.len(),
{
    if n > 0 {
        assert(s[0] != '"');
        assert forall|i: int| 0 <= i < n - 1 implies s.drop_first()[i] != '"' by {
            assert(s[i + 1] != '"');
        }
        lemma_quote_run_is(s.drop_first(), n - 1);
    }
}

/// The token a lowercase word stands for: a keyword, a boolean literal, a
/// type keyword, or the error token for an unknown word.
pub open spec fn keyword_token(w: Seq<char>) -> TokenV {
    if w == "mainmenu"@ {
        TokenV::MainMenu
    } else if w == "source"@ {
        TokenV::Source
    } else if w == "menu"@ {
        TokenV::Menu
    } else if w == "endmenu"@ {
        TokenV::EndMenu
    } else if w == "config"@ {
        TokenV::Config
    } else if w == "default"@ {
        TokenV::Default
    } else if w == "y"@ {
        TokenV::Yes
    } else if w == "n"@ {
        TokenV::No
    } else if spec_type_new(w) is Some {
        TokenV::Ty(spec_type_new(w)->0)
    } else {
        TokenV::Bad
    }
}

/// The token stream of `s`: tokens in order of appearance; an error token
/// ends the stream at the first unmatched input.
pub open spec fn spec_tokenize(s: Seq<char>) -> Seq<TokenV>
    decreases s.len(),
    via spec_tokenize_dec
{
    if s.len() == 0 {
        Seq::empty()
    } else if is_ws(s[0]) {
        spec_tokenize(s.drop_first())
    } else if s[0] == '=' {
        seq![TokenV::Equals] + spec_tokenize(s.drop_first())
    } else if is_name_char(s[0]) {
        let n = name_run(s) as int;
        seq![TokenV::Name(s.take(n))] + spec_tokenize(s.skip(n))
    } else if is_word_char(s[0]) {
        let n = word_run(s) as int;
        let t = keyword_token(s.take(n));
        if t is Bad {
            seq![TokenV::Bad]
        } else {
            seq![t] + spec_tokenize(s.skip(n))
        }
    } else if s[0] == '"' {
        let n = quote_run(s.drop_first()) as int;
        if n >= 1 && n + 1 < s.len() {
            seq![TokenV::Str(s.subrange(1, n + 1))] + spec_tokenize(s.skip(n + 2))
        } else {
            seq![TokenV::Bad]
        }
    } else {
        seq![TokenV::Bad]
    }
}

#[via_fn]
proof fn spec_tokenize_dec(s: Seq<char>) {
    if s.len() > 0 {
        lemma_name_run(s);
        lemma_word_run(s);
        lemma_quote_run(s.drop_first());
    }
}

/// Classify the keyword word `w`; `Token::Bad` for an unknown word.
fn keyword_lookup(w: &str) -> (t: Token)
    ensures
        t@ == keyword_token(w@),
{
    if str_eq(w, "mainmenu") {
        Token::MainMenu
    } else if str_eq(w, "source") {
        Token::Source
    } else if str_eq(w, "menu") {
        Token::Menu
    } else if str_eq(w, "endmenu") {
        Token::EndMenu
    } else if str_eq(w, "config") {
        Token::Config
    } else if str_eq(w, "default") {
        Token::Default
    } else if str_eq(w, "y") {
        Token::Yes
    } else if str_eq(w, "n") {
        Token::No
    } else {
        match Type::new(w) {
            Some(t) => Token::Ty(t),
            None => Token::Bad,
        }
    }
}

/// Tokenize the whole of `text`, stopping at the first unmatched input,
/// which contributes the final error token.
pub fn tokenize(text: &str) -> (toks: Vec<Token>)
    ensures
        toks_view(toks@) == spec_tokenize(text@),
{
    let ghost s = text@;
    let n = text.unicode_len();
    let mut toks: Vec<Token> = Vec::new();
    let mut i: usize = 0;
    proof {
        assert(s.skip(0) =~= s);
        assert(toks_view(toks@) + spec_tokenize(s) =~= spec_tokenize(s));
    }
    while i < n
        invariant
            0 <= i <= n,
            n == s.len(),
            text@ == s,
            spec_tokenize(s) == toks_view(toks@) + spec_tokenize(s.skip(i as int)),
        decreases n - i,
    {
        let ghost toks0 = toks@;
        let ghost rest = s.skip(i as int);
        proof {
            assert(rest[0] == s[i as int]);
            assert(rest.drop_first() =~= s.skip(i as int + 1));
        }
        let c = text.get_char(i);
        if ws_char(c) {
            i = i + 1;
        } else if c == '=' {
            toks.push(Token::Equals);
            i = i + 1;
            proof {
                assert(toks_view(toks@) =~= toks_view(toks0).push(TokenV::Equals));
                assert(toks_view(toks0) + (seq![TokenV::Equals] + spec_tokenize(
                    s.skip(i as int),
                )) =~= toks_view(toks@) + spec_tokenize(s.skip(i as int)));
            }
        } else if name_char(c) {
            let mut j = i + 1;
            loop
                invariant_except_break
                    i < j <= n,
                    n == s.len(),
                    text@ == s,
                    forall|k: int| i <= k < j ==> is_name_char(s[k]),
                ensures
                    i < j <= n,
                    forall|k: int| i <= k < j ==> is_name_char(s[k]),
                    j == n || !is_name_char(s[j as int]),
                decreases n - j,
            {
                if j >= n {
                    break ;
                }
                if !name_char(text.get_char(j)) {
                    break ;
                }
                j = j + 1;
            }
            proof {
                assert forall|k: int| 0 <= k < j - i implies is_name_char(rest[k]) by {
                    assert(rest[k] == s[i + k]);
                }
                if j < n {
                    assert(rest[j - i] == s[j as int]);
                }
                lemma_name_run_is(rest, j - i);
                assert(rest.take(j - i) =~= s.subrange(i as int, j as int));
                assert(rest.skip(j - i) =~= s.skip(j as int));
            }
            let w = text.substring_char(i, j);
            toks.push(Token::Name(w.to_owned()));
            proof {
                assert(toks_view(toks@) =~= toks_view(toks0).push(TokenV::Name(w@)));
                assert(toks_view(toks0) + (seq![TokenV::Name(rest.take(j - i))] + spec_tokenize(
                    s.skip(j as int),
                )) =~= toks_view(toks@) + spec_tokenize(s.skip(j as int)));
            }
            i = j;
        } else if word_char(c) {
            let mut j = i + 1;
            loop
                invariant_except_break
                    i < j <= n,
                    n == s.len(),
                    text@ == s,
                    forall|k: int| i <= k < j ==> is_word_char(s[k]),
                ensures
                    i < j <= n,
                    forall|k: int| i <= k < j ==> is_word_char(s[k]),
                    j == n || !is_word_char(s[j as int]),
                decreases n - j,
            {
                if j >= n {
                    break ;
                }
                if !word_char(text.get_char(j)) {
                    break ;
                }
                j = j + 1;
            }
            proof {
                assert forall|k: int| 0 <= k < j - i implies is_word_char(rest[k]) by {
                    assert(rest[k] == s[i + k]);
                }
                if j < n {
                    assert(rest[j - i] == s[j as int]);
                }
                lemma_word_run_is(rest, j - i);
                assert(rest.take(j - i) =~= s.subrange(i as int, j as int));
                assert(rest.skip(j - i) =~= s.skip(j as int));
            }
            let w = text.substring_char(i, j);
            let t = keyword_lookup(w);
            let is_bad = match &t {
                Token::Bad => true,
                _ => false,
            };
            toks.push(t);
            if is_bad {
                proof {
                    assert(toks_view(toks@) =~= toks_view(toks0).push(TokenV::Bad));
                    assert(toks_view(toks0) + seq![TokenV::Bad] =~= toks_view(toks@));
                }
                return toks;
            }
            proof {
                assert(toks_view(toks@) =~= toks_view(toks0).push(keyword_token(w@)));
                assert(toks_view(toks0) + (seq![keyword_token(w@)] + spec_tokenize(
                    s.skip(j as int),
                )) =~= toks_view(toks@) + spec_tokenize(s.skip(j as int)));
            }
            i = j;
        } else if c == '"' {
            let mut j = i + 1;
            loop
                invariant_except_break
                    i < j <= n,
                    n == s.len(),
                    text@ == s,
                    forall|k: int| i < k < j ==> s[k] != '"',
                ensures
                    i < j <= n,
                    forall|k: int| i < k < j ==> s[k] != '"',
                    j == n || s[j as int] == '"',
                decreases n - j,
            {
                if j >= n {
                    break ;
                }
                if text.get_char(j) == '"' {
                    break ;
                }
                j = j + 1;
            }
            proof {
                assert forall|k: int| 0 <= k < j - i - 1 implies rest.drop_first()[k] != '"' by {
                    assert(rest.drop_first()[k] == s[i + 1 + k]);
                }
                if j < n {
                    assert(rest.drop_first()[j - i - 1] == s[j as int]);
                }
                lemma_quote_run_is(rest.drop_first(), j - i - 1);
            }
            if j < n && j > i + 1 {
                proof {
                    assert(rest.subrange(1, j - i) =~= s.subrange(i as int + 1, j as int));
                    assert(rest.skip(j - i + 1) =~= s.skip(j as int + 1));
                }
                let w = text.substring_char(i + 1, j);
                toks.push(Token::Str(w.to_owned()));
                proof {
                    assert(toks_view(toks@) =~= toks_view(toks0).push(TokenV::Str(w@)));
                    assert(toks_view(toks0) + (seq![TokenV::Str(w@)] + spec_tokenize(
                        s.skip(j as int + 1),
                    )) =~= toks_view(toks@) + spec_tokenize(s.skip(j as int + 1)));
                }
                i = j + 1;
            } else {
                toks.push(Token::Bad);
                proof {
                    assert(toks_view(toks@) =~= toks_view(toks0).push(TokenV::Bad));
                    assert(toks_view(toks0) + seq![TokenV::Bad] =~= toks_view(toks@));
                }
                return toks;
            }
        } else {
            toks.push(Token::Bad);
            proof {
                assert(toks_view(toks@) =~= toks_view(toks0).push(TokenV::Bad));
                assert(toks_view(toks0) + seq![TokenV::Bad] =~= toks_view(toks@));
            }
            return toks;
        }
    }
    proof {
        assert(s.skip(n as int).len() == 0);
        assert(toks_view(toks@) + spec_tokenize(s.skip(n as int)) =~= toks_view(toks@));
    }
    toks
}

/// What `Parser::accept_string` consumes and yields: a string payload and
/// one step of the cursor where the next token is a string, else nothing.
pub open spec fn spec_accept_str(st: Seq<TokenV>, c: int) -> (Option<Seq<char>>, int) {
    if 0 <= c < st.len() {
        match st[c] {
            TokenV::Str(s) => (Some(s), c + 1),
            _ => (None, c),
        }
    } else {
        (None, c)
    }
}

/// What `Parser::accept_type` consumes and yields.
pub open spec fn spec_accept_type(st: Seq<TokenV>, c: int) -> (Option<Type>, int) {
    if 0 <= c < st.len() {
        match st[c] {
            TokenV::Ty(t) => (Some(t), c + 1),
            _ => (None, c),
        }
    } else {
        (None, c)
    }
}

/// What `Parser::parse_value` consumes and yields: a boolean literal and
/// one step of the cursor where the next token is `y` or `n`, else
/// nothing.
pub open spec fn spec_parse_value(st: Seq<TokenV>, c: int) -> (Option<crate::ValueV>, int) {
    if 0 <= c < st.len() {
        match st[c] {
            TokenV::Yes => (Some(crate::ValueV::Bool(true)), c + 1),
            TokenV::No => (Some(crate::ValueV::Bool(false)), c + 1),
            _ => (None, c),
        }
    } else {
        (None, c)
    }
}

/// A token stream with one-token lookahead: the tokens of a source text
/// and a cursor over them.
pub struct Parser {
    toks: Vec<Token>,
    pos: usize,
}

impl Parser {
    /// The whole token stream.
    pub closed spec fn stream(&self) -> Seq<TokenV> {
        toks_view(self.toks@)
    }

    /// The position of the next token to be handed out.
    pub closed spec fn cursor(&self) -> int {
        self.pos as int
    }

    /// Tokenize `text` and stand at its first token.
    pub fn new(text: &str) -> (p: Self)
        ensures
            p.stream() == spec_tokenize(text@),
            p.cursor() == 0,
    {
        Parser { toks: tokenize(text), pos: 0 }
    }

    /// The next token, consumed; `None` at the end of the stream.
    pub fn next(&mut self) -> (r: Option<Token>)
        ensures
            final(self).stream() == old(self).stream(),
            ({
                let st = old(self).stream();
                let c = old(self).cursor();
                if c < st.len() {
                    &&& r is Some
                    &&& r.unwrap()@ == st[c]
                    &&& final(self).cursor() == c + 1
                } else {
                    &&& r is None
                    &&& final(self).cursor() == c
                }
            }),
    {
        if self.pos < self.toks.len() {
            let t = dup_token(&self.toks[self.pos]);
            self.pos = self.pos + 1;
            Some(t)
        } else {
            None
        }
    }

    /// The next token, not consumed; `None` at the end of the stream.
    pub fn peek(&self) -> (r: Option<Token>)
        ensures
            ({
                let st = self.stream();
                let c = self.cursor();
                if c < st.len() {
                    r is Some && r.unwrap()@ == st[c]
                } else {
                    r is None
                }
            }),
    {
        if self.pos < self.toks.len() {
            Some(dup_token(&self.toks[self.pos]))
        } else {
            None
        }
    }

    /// Consume and yield the next token's payload if it is a string.
    pub fn accept_string(&mut self) -> (r: Option<String>)
        ensures
            final(self).stream() == old(self).stream(),
            ({
                let (exp, c2) = spec_accept_str(old(self).stream(), old(self).cursor());
                &&& final(self).cursor() == c2
                &&& match r {
                    Some(s) => exp == Some(s@),
                    None => exp is None,
                }
            }),
    {
        let p = self.peek();
        match p {
            Some(Token::Str(s)) => {
                let _ = self.next();
                Some(s)
            },
            _ => None,
        }
    }

    /// Consume and yield the next token's type if it is a type keyword.
    pub fn accept_type(&mut self) -> (r: Option<Type>)
        ensures
            final(self).stream() == old(self).stream(),
            ({
                let (exp, c2) = spec_accept_type(old(self).stream(), old(self).cursor());
                &&& final(self).cursor() == c2
                &&& r == exp
            }),
    {
        let p = self.peek();
        match p {
            Some(Token::Ty(t)) => {
                let _ = self.next();
                Some(t)
            },
            _ => None,
        }
    }

    /// Consume and yield a boolean literal value, the only literal form
    /// this grammar reads; other tokens are left in place.
    pub fn parse_value(&mut self) -> (r: Option<crate::Value>)
        ensures
            final(self).stream() == old(self).stream(),
            ({
                let (exp, c2) = spec_parse_value(old(self).stream(), old(self).cursor());
                &&& final(self).cursor() == c2
                &&& match r {
                    Some(v) => exp == Some(v@),
                    None => exp is None,
                }
            }),
    {
        let p = self.peek();
        match p {
            Some(Token::Yes) => {
                let _ = self.next();
                Some(crate::Value::Bool(true))
            },
            Some(Token::No) => {
                let _ = self.next();
                Some(crate::Value::Bool(false))
            },
            _ => None,
        }
    }
}

} // verus!

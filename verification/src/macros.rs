//! The request macros: `get!`, `query!`, `post!`, `put!`, `patch!`, `delete!`,
//! `fetch!`, `submit!` and `stream!`. Each takes `key => value` pairs and
//! expands to the code that builds and sends the request. Here a macro is a
//! function from its argument text to the text of its expansion, or to the
//! message of the compile error it reports.
use vstd::prelude::*;
use crate::text::{chars_of, push_str, push_chars, string_of};

verus! {

/// A token of Rust source. A bracketed group is written as its opening
/// bracket, the tokens inside it, and its closing bracket.
#[derive(Clone, Debug, PartialEq, Eq)]
pub enum Token {
    Ident(String),
    /// A punctuation character; `true` where it is joined to the next one (as in `=>`).
    Punct(char, bool),
    Literal(String),
    /// The opening bracket of a group: `(`, `[` or `{`.
    Open(char),
    /// The closing bracket of a group: `)`, `]` or `}`.
    Close(char),
}

/// What a token holds, as plain values.
pub enum Tok {
    Ident(Seq<char>),
    Punct(char, bool),
    Literal(Seq<char>),
    Open(char),
    Close(char),
}

/// The plain value of a token.
pub open spec fn tok(t: Token) -> Tok {
    match t {
        Token::Ident(s) => Tok::Ident(s@),
        Token::Punct(c, j) => Tok::Punct(c, j),
        Token::Literal(s) => Tok::Literal(s@),
        Token::Open(c) => Tok::Open(c),
        Token::Close(c) => Tok::Close(c),
    }
}

/// The plain values of tokens.
pub open spec fn toks(ts: Seq<Token>) -> Seq<Tok> {
    Seq::new(ts.len(), |i: int| tok(ts[i]))
}

/// The `proc-macro2` token stream.
#[verifier::external_type_specification]
#[verifier::external_body]
pub struct ExTokenStream(proc_macro2::TokenStream);

/// The `proc-macro2` group delimiter.
#[verifier::external_type_specification]
#[verifier::external_body]
pub struct ExDelimiter(proc_macro2::Delimiter);

/// The brackets of a group delimiter (none for an invisible group).
#[verifier::external_body]
fn brackets(d: proc_macro2::Delimiter) -> Option<(char, char)> {
    match d {
        proc_macro2::Delimiter::Parenthesis => Some(('(', ')')),
        proc_macro2::Delimiter::Bracket => Some(('[', ']')),
        proc_macro2::Delimiter::Brace => Some(('{', '}')),
        proc_macro2::Delimiter::None => None,
    }
}

/// Appends the token trees of a `proc-macro2` stream as plain tokens, each
/// group as its brackets around its contents.
#[verifier::external_body]
fn flatten(stream: proc_macro2::TokenStream, out: &mut Vec<Token>) {
    for tree in stream {
        match tree {
            proc_macro2::TokenTree::Ident(i) => out.push(Token::Ident(i.to_string())),
            proc_macro2::TokenTree::Punct(p) => out.push(Token::Punct(p.as_char(), p.spacing() == proc_macro2::Spacing::Joint)),
            proc_macro2::TokenTree::Literal(l) => out.push(Token::Literal(l.to_string())),
            proc_macro2::TokenTree::Group(g) => {
                let b = brackets(g.delimiter());
                out.extend(b.map(|(o, _)| Token::Open(o)));
                flatten(g.stream(), out);
                out.extend(b.map(|(_, c)| Token::Close(c)));
            },
        }
    }
}

/// Lexes a text with `proc_macro2::TokenStream::from_str`. Which lexer runs
/// (the compiler's inside a procedural macro, a fallback elsewhere) is chosen
/// at run time, so nothing is stated of the tokens: callers take them as they come.
#[verifier::external_body]
fn lex(text: &str) -> Option<Vec<Token>> {
    let stream: proc_macro2::TokenStream = text.parse().ok()?;
    let mut out = Vec::new();
    flatten(stream, &mut out);
    Some(out)
}

/// The text of a token.
pub open spec fn tok_text(t: Tok) -> Seq<char> {
    match t {
        Tok::Ident(s) => s,
        Tok::Punct(c, _) => seq![c],
        Tok::Literal(s) => s,
        Tok::Open(c) => seq![c],
        Tok::Close(c) => seq![c],
    }
}

/// What goes between a token and the next: nothing after a joined punctuation
/// character, a space otherwise.
pub open spec fn tok_sep(t: Tok) -> Seq<char> {
    match t {
        Tok::Punct(_, true) => Seq::empty(),
        _ => seq![' '],
    }
}

/// Tokens written back out as text.
pub open spec fn render(ts: Seq<Tok>) -> Seq<char>
    decreases ts.len(),
{
    if ts.len() == 0 {
        Seq::empty()
    } else if ts.len() == 1 {
        tok_text(ts[0])
    } else {
        render(ts.drop_last()) + tok_sep(ts[ts.len() - 2]) + tok_text(ts.last())
    }
}

fn token_text(t: &Token) -> (r: Vec<char>)
    ensures
        r@ == tok_text(tok(*t)),
{
    match t {
        Token::Ident(s) => chars_of(s.as_str()),
        Token::Punct(c, _) => vec![*c],
        Token::Literal(s) => chars_of(s.as_str()),
        Token::Open(c) => vec![*c],
        Token::Close(c) => vec![*c],
    }
}

/// Appends `render(ts[a..b])`.
fn push_render(acc: &mut Vec<char>, ts: &Vec<Token>, a: usize, b: usize)
    requires
        a <= b <= ts@.len(),
    ensures
        final(acc)@ == old(acc)@ + render(toks(ts@).subrange(a as int, b as int)),
{
    let ghost start = acc@;
    let ghost all = toks(ts@);
    let mut i = a;
    while i < b
        invariant
            a <= i <= b <= ts@.len(),
            all == toks(ts@),
            acc@ == start + render(all.subrange(a as int, i as int)),
        decreases b - i,
    {
        if i > a {
            let prev = &ts[i - 1];
            match prev {
                Token::Punct(_, true) => {},
                _ => acc.push(' '),
            }
        }
        let t = token_text(&ts[i]);
        push_chars(acc, t.as_slice());
        proof {
            let s1 = all.subrange(a as int, i + 1);
            assert(s1.drop_last() == all.subrange(a as int, i as int));
            assert(s1.last() == all[i as int]);
            if i > a {
                assert(s1[s1.len() - 2] == all[i - 1]);
                assert(all[i - 1] == tok(ts@[i - 1]));
            } else {
                assert(s1.len() == 1);
            }
        }
        i = i + 1;
    }
}

} // verus!

verus! {

/// The keys that the macros take.
#[derive(Clone, Copy, Debug, PartialEq, Eq, Structural)]
pub enum ArgKey {
    Url,
    Headers,
    ReqBodyTy,
    Data,
    Client,
    ResBodyTy,
    ResTy,
    Method,
}

/// How a key's value is read: an expression, a single identifier, or a type.
#[derive(Clone, Copy, Debug, PartialEq, Eq, Structural)]
pub enum ValueKind {
    Expr,
    Ident,
    Type,
}

/// The macros.
#[derive(Clone, Copy, Debug, PartialEq, Eq, Structural)]
pub enum MacroName {
    Get,
    Query,
    Post,
    Put,
    Patch,
    Delete,
    Fetch,
    Submit,
    Stream,
}

/// The number of keys.
pub const KEY_COUNT: usize = 8;

/// The position of a key among the parsed arguments.
pub open spec fn key_index(k: ArgKey) -> int {
    match k {
        ArgKey::Url => 0,
        ArgKey::Headers => 1,
        ArgKey::ReqBodyTy => 2,
        ArgKey::Data => 3,
        ArgKey::Client => 4,
        ArgKey::ResBodyTy => 5,
        ArgKey::ResTy => 6,
        ArgKey::Method => 7,
    }
}

/// The name of a key, as it is written in a macro call.
pub open spec fn key_name(k: ArgKey) -> Seq<char> {
    match k {
        ArgKey::Url => "url"@,
        ArgKey::Headers => "headers"@,
        ArgKey::ReqBodyTy => "req_body_ty"@,
        ArgKey::Data => "data"@,
        ArgKey::Client => "client"@,
        ArgKey::ResBodyTy => "res_body_ty"@,
        ArgKey::ResTy => "res_ty"@,
        ArgKey::Method => "method"@,
    }
}

/// How a key's value is read.
pub open spec fn value_kind(k: ArgKey) -> ValueKind {
    match k {
        ArgKey::ReqBodyTy | ArgKey::ResBodyTy => ValueKind::Ident,
        ArgKey::ResTy => ValueKind::Type,
        _ => ValueKind::Expr,
    }
}

/// Whether a macro takes a key: `get!`, `fetch!` and `stream!` take the
/// response keys; `query!`, `post!`, `put!` and `patch!` take the request and
/// response keys; `delete!` takes only `url`, `headers` and `client`; `submit!`
/// takes `url`, `method`, `headers`, `data` and `client`.
pub open spec fn takes(m: MacroName, k: ArgKey) -> bool {
    match k {
        ArgKey::Url | ArgKey::Headers | ArgKey::Client => true,
        ArgKey::ReqBodyTy => m == MacroName::Query || m == MacroName::Post || m == MacroName::Put || m == MacroName::Patch,
        ArgKey::Data => m == MacroName::Query || m == MacroName::Post || m == MacroName::Put || m == MacroName::Patch
            || m == MacroName::Submit,
        ArgKey::ResBodyTy | ArgKey::ResTy => m == MacroName::Get || m == MacroName::Fetch || m == MacroName::Stream
            || m == MacroName::Query || m == MacroName::Post || m == MacroName::Put || m == MacroName::Patch,
        ArgKey::Method => m == MacroName::Submit,
    }
}

/// The key a macro takes under a name.
pub open spec fn key_of(m: MacroName, name: Seq<char>) -> Option<ArgKey> {
    if name == key_name(ArgKey::Url) && takes(m, ArgKey::Url) { Some(ArgKey::Url) }
    else if name == key_name(ArgKey::Headers) && takes(m, ArgKey::Headers) { Some(ArgKey::Headers) }
    else if name == key_name(ArgKey::ReqBodyTy) && takes(m, ArgKey::ReqBodyTy) { Some(ArgKey::ReqBodyTy) }
    else if name == key_name(ArgKey::Data) && takes(m, ArgKey::Data) { Some(ArgKey::Data) }
    else if name == key_name(ArgKey::Client) && takes(m, ArgKey::Client) { Some(ArgKey::Client) }
    else if name == key_name(ArgKey::ResBodyTy) && takes(m, ArgKey::ResBodyTy) { Some(ArgKey::ResBodyTy) }
    else if name == key_name(ArgKey::ResTy) && takes(m, ArgKey::ResTy) { Some(ArgKey::ResTy) }
    else if name == key_name(ArgKey::Method) && takes(m, ArgKey::Method) { Some(ArgKey::Method) }
    else { None }
}

/// The message for a key given twice.
pub open spec fn duplicate_message(k: ArgKey) -> Seq<char> {
    if k == ArgKey::Url {
        "duplicate key: url"@
    } else {
        "Duplicate '"@ + key_name(k) + "' parameter"@
    }
}

/// Whether a token is a comma.
pub open spec fn is_comma(t: Tok) -> bool {
    t matches Tok::Punct(c, _) && c == ','
}

/// The words that `syn` does not take as identifiers.
pub open spec fn keyword_list() -> Seq<&'static str> {
    seq![
        "_", "abstract", "as", "async", "await", "become", "box", "break", "const", "continue", "crate", "do",
        "dyn", "else", "enum", "extern", "false", "final", "fn", "for", "if", "impl", "in", "let", "loop",
        "macro", "match", "mod", "move", "mut", "override", "priv", "pub", "ref", "return", "Self", "self",
        "static", "struct", "super", "trait", "true", "try", "type", "typeof", "unsafe", "unsized", "use",
        "virtual", "where", "while", "yield",
    ]
}

/// Whether an identifier token is a keyword.
pub open spec fn is_keyword(s: Seq<char>) -> bool {
    exists|j: int| 0 <= j < keyword_list().len() && s == (#[trigger] keyword_list()[j])@
}

/// The message for a keyword where an identifier is expected.
pub open spec fn keyword_message(s: Seq<char>) -> Seq<char> {
    "expected identifier, found keyword `"@ + s + "`"@
}

/// How far the tokens nest: opening brackets less closing ones.
pub open spec fn nest(ts: Seq<Tok>) -> int
    decreases ts.len(),
{
    if ts.len() == 0 {
        0
    } else {
        nest(ts.drop_last()) + match ts.last() {
            Tok::Open(_) => 1int,
            Tok::Close(_) => -1int,
            _ => 0int,
        }
    }
}

/// The tokens are whole token trees: no bracket closes one that opened
/// before them, and every bracket they open they close.
pub open spec fn whole_trees(ts: Seq<Tok>) -> bool {
    &&& nest(ts) == 0
    &&& forall|k: int| 0 <= k <= ts.len() ==> nest(#[trigger] ts.take(k)) >= 0
}

/// For each run `ts[v..e]` of the tokens of a call, whether `syn` reads its
/// text as one expression (`expr[v][e]`) and as one type (`ty[v][e]`).
/// `syn` lexes the text again with a lexer that `proc-macro2` picks at run
/// time, so these answers are taken as they come.
pub struct VerdictsView {
    pub expr: Seq<Seq<bool>>,
    pub ty: Seq<Seq<bool>>,
}

/// An entry of a verdict table (`false` outside it).
pub open spec fn verdict(t: Seq<Seq<bool>>, v: int, e: int) -> bool {
    0 <= v < t.len() && 0 <= e < t[v].len() && t[v][e]
}

/// Whether a value of the given kind may be `ts[v..e]` (identifiers are read token by token).
pub open spec fn accepts(vk: ValueKind, vd: VerdictsView, v: int, e: int) -> bool {
    match vk {
        ValueKind::Expr => verdict(vd.expr, v, e),
        ValueKind::Type => verdict(vd.ty, v, e),
        ValueKind::Ident => false,
    }
}

/// `ts[v..e]` can be the value: whole token trees that read as a value of the kind.
pub open spec fn value_candidate(ts: Seq<Tok>, v: int, e: int, vk: ValueKind, vd: VerdictsView) -> bool {
    &&& 0 <= v < e <= ts.len()
    &&& whole_trees(ts.subrange(v, e))
    &&& accepts(vk, vd, v, e)
}

/// `e` is the farthest end of a value that starts at `v`.
pub open spec fn longest_value(ts: Seq<Tok>, v: int, e: int, vk: ValueKind, vd: VerdictsView) -> bool {
    &&& value_candidate(ts, v, e, vk, vd)
    &&& forall|e2: int| #[trigger] value_candidate(ts, v, e2, vk, vd) ==> e2 <= e
}

/// Where a value of the given kind that starts at `v` ends, or the error.
/// An identifier is one identifier token that is not a keyword; an
/// expression or a type is the longest run of whole token trees that the
/// verdicts accept as one.
pub open spec fn value_extent(ts: Seq<Tok>, v: int, vk: ValueKind, vd: VerdictsView) -> Result<int, Seq<char>> {
    match vk {
        ValueKind::Ident => if 0 <= v < ts.len() && ts[v] is Ident {
            if is_keyword(ts[v]->Ident_0) { Err(keyword_message(ts[v]->Ident_0)) } else { Ok(v + 1) }
        } else {
            Err("expected identifier"@)
        },
        _ => if exists|e: int| value_candidate(ts, v, e, vk, vd) {
            Ok(choose|e: int| longest_value(ts, v, e, vk, vd))
        } else {
            Err(expected_message(vk))
        },
    }
}

/// The message for a missing value of the given kind.
pub open spec fn expected_message(vk: ValueKind) -> Seq<char> {
    match vk {
        ValueKind::Ident => "expected identifier"@,
        ValueKind::Expr => "expected an expression"@,
        ValueKind::Type => "expected a type"@,
    }
}

/// Whether `=>` stands at `j`.
pub open spec fn fat_arrow_at(ts: Seq<Tok>, j: int) -> bool {
    &&& 0 <= j && j + 1 < ts.len()
    &&& ts[j] matches Tok::Punct(c, joint) && c == '=' && joint
    &&& ts[j + 1] matches Tok::Punct(d, _) && d == '>'
}

/// Parsed arguments: for each key (by `key_index`), its value's tokens if it was given.
pub type ArgsView = Seq<Option<Seq<Tok>>>;

/// No argument given yet.
pub open spec fn no_args() -> ArgsView {
    Seq::new(KEY_COUNT as nat, |i: int| None::<Seq<Tok>>)
}

/// Reads `key => value` pairs from position `pos`, each optionally followed by
/// a comma. A key must be an identifier that is not a keyword, followed by
/// `=>`; it must be one the macro takes, and given once. Its value is read as
/// `value_extent` says.
pub open spec fn parse_args_from(m: MacroName, ts: Seq<Tok>, vd: VerdictsView, pos: int, acc: ArgsView) -> Result<ArgsView, Seq<char>>
    decreases ts.len() - pos,
{
    if pos < 0 || pos >= ts.len() {
        Ok(acc)
    } else if !(ts[pos] is Ident) {
        Err("expected identifier"@)
    } else if is_keyword(ts[pos]->Ident_0) {
        Err(keyword_message(ts[pos]->Ident_0))
    } else if !fat_arrow_at(ts, pos + 1) {
        Err("expected `=>`"@)
    } else {
        let name = ts[pos]->Ident_0;
        match key_of(m, name) {
            None => Err("Unknown parameter: "@ + name),
            Some(k) => {
                if acc[key_index(k)] is Some {
                    Err(duplicate_message(k))
                } else {
                    let v = pos + 3;
                    match value_extent(ts, v, value_kind(k), vd) {
                        Err(msg) => Err(msg),
                        Ok(e) => if e <= v || e > ts.len() {
                            Err(expected_message(value_kind(k)))
                        } else {
                            let next = if e < ts.len() && is_comma(ts[e]) { e + 1 } else { e };
                            parse_args_from(m, ts, vd, next, acc.update(key_index(k), Some(ts.subrange(v, e))))
                        },
                    }
                }
            },
        }
    }
}

/// The arguments of a macro call, or the message of the error it reports.
pub open spec fn parse_args(m: MacroName, ts: Seq<Tok>, vd: VerdictsView) -> Result<ArgsView, Seq<char>> {
    parse_args_from(m, ts, vd, 0, no_args())
}

} // verus!

verus! {

/// The plain value of parsed arguments.
pub open spec fn args_view(v: Seq<Option<Vec<Token>>>) -> ArgsView {
    Seq::new(v.len(), |i: int| match v[i] {
        Some(t) => Some(toks(t@)),
        None => None,
    })
}

fn key_name_chars(k: ArgKey) -> (r: Vec<char>)
    ensures
        r@ == key_name(k),
{
    match k {
        ArgKey::Url => chars_of("url"),
        ArgKey::Headers => chars_of("headers"),
        ArgKey::ReqBodyTy => chars_of("req_body_ty"),
        ArgKey::Data => chars_of("data"),
        ArgKey::Client => chars_of("client"),
        ArgKey::ResBodyTy => chars_of("res_body_ty"),
        ArgKey::ResTy => chars_of("res_ty"),
        ArgKey::Method => chars_of("method"),
    }
}

fn key_index_exec(k: ArgKey) -> (r: usize)
    ensures
        r as int == key_index(k),
        r < KEY_COUNT,
{
    match k {
        ArgKey::Url => 0,
        ArgKey::Headers => 1,
        ArgKey::ReqBodyTy => 2,
        ArgKey::Data => 3,
        ArgKey::Client => 4,
        ArgKey::ResBodyTy => 5,
        ArgKey::ResTy => 6,
        ArgKey::Method => 7,
    }
}

fn takes_exec(m: MacroName, k: ArgKey) -> (r: bool)
    ensures
        r == takes(m, k),
{
    match k {
        ArgKey::Url | ArgKey::Headers | ArgKey::Client => true,
        ArgKey::ReqBodyTy => m == MacroName::Query || m == MacroName::Post || m == MacroName::Put || m == MacroName::Patch,
        ArgKey::Data => m == MacroName::Query || m == MacroName::Post || m == MacroName::Put || m == MacroName::Patch
            || m == MacroName::Submit,
        ArgKey::ResBodyTy | ArgKey::ResTy => m == MacroName::Get || m == MacroName::Fetch || m == MacroName::Stream
            || m == MacroName::Query || m == MacroName::Post || m == MacroName::Put || m == MacroName::Patch,
        ArgKey::Method => m == MacroName::Submit,
    }
}

fn key_of_exec(m: MacroName, name: &[char]) -> (r: Option<ArgKey>)
    ensures
        r == key_of(m, name@),
{
    let order = [ArgKey::Url, ArgKey::Headers, ArgKey::ReqBodyTy, ArgKey::Data, ArgKey::Client,
        ArgKey::ResBodyTy, ArgKey::ResTy, ArgKey::Method];
    let mut i: usize = 0;
    while i < 8
        invariant
            order@ == seq![ArgKey::Url, ArgKey::Headers, ArgKey::ReqBodyTy, ArgKey::Data, ArgKey::Client,
                ArgKey::ResBodyTy, ArgKey::ResTy, ArgKey::Method],
            i <= 8,
            forall|j: int| 0 <= j < i ==> !(name@ == key_name(#[trigger] order@[j]) && takes(m, order@[j])),
        decreases 8 - i,
    {
        let k = order[i];
        let kn = key_name_chars(k);
        if crate::text::chars_eq(name, kn.as_slice()) && takes_exec(m, k) {
            assert(forall|j: int| 0 <= j < i ==> !(name@ == key_name(#[trigger] order@[j]) && takes(m, order@[j])));
            return Some(k);
        }
        i = i + 1;
    }
    assert(!(name@ == key_name(order@[0]) && takes(m, order@[0])));
    assert(!(name@ == key_name(order@[1]) && takes(m, order@[1])));
    assert(!(name@ == key_name(order@[2]) && takes(m, order@[2])));
    assert(!(name@ == key_name(order@[3]) && takes(m, order@[3])));
    assert(!(name@ == key_name(order@[4]) && takes(m, order@[4])));
    assert(!(name@ == key_name(order@[5]) && takes(m, order@[5])));
    assert(!(name@ == key_name(order@[6]) && takes(m, order@[6])));
    assert(!(name@ == key_name(order@[7]) && takes(m, order@[7])));
    None
}

fn comma(t: &Token) -> (r: bool)
    ensures
        r == is_comma(tok(*t)),
{
    match t {
        Token::Punct(c, _) => *c == ',',
        _ => false,
    }
}

/// `syn::parse_str::<syn::Expr>`: whether the text parses as one expression.
/// `syn` lexes the text with the lexer that `proc-macro2` picks at run time,
/// so nothing is stated of the answer.
#[verifier::external_body]
fn is_expr_text(text: &str) -> bool {
    syn::parse_str::<syn::Expr>(text).is_ok()
}

/// `syn::parse_str::<syn::Type>`: whether the text parses as one type.
/// As with expressions, nothing is stated of the answer.
#[verifier::external_body]
fn is_type_text(text: &str) -> bool {
    syn::parse_str::<syn::Type>(text).is_ok()
}

/// Decides `is_keyword`.
fn keyword(name: &[char]) -> (r: bool)
    ensures
        r == is_keyword(name@),
{
    let words: Vec<&'static str> = vec![
        "_", "abstract", "as", "async", "await", "become", "box", "break", "const", "continue", "crate", "do",
        "dyn", "else", "enum", "extern", "false", "final", "fn", "for", "if", "impl", "in", "let", "loop",
        "macro", "match", "mod", "move", "mut", "override", "priv", "pub", "ref", "return", "Self", "self",
        "static", "struct", "super", "trait", "true", "try", "type", "typeof", "unsafe", "unsized", "use",
        "virtual", "where", "while", "yield",
    ];
    assert(words@ == keyword_list());
    let mut k: usize = 0;
    while k < words.len()
        invariant
            words@ == keyword_list(),
            k <= words@.len(),
            forall|j: int| 0 <= j < k ==> name@ != (#[trigger] keyword_list()[j])@,
        decreases words@.len() - k,
    {
        let w = chars_of(words[k]);
        if crate::text::chars_eq(name, w.as_slice()) {
            return true;
        }
        k = k + 1;
    }
    false
}

/// The message for a keyword where an identifier is expected.
fn keyword_text(name: &[char]) -> (r: Vec<char>)
    ensures
        r@ == keyword_message(name@),
{
    let mut r = chars_of("expected identifier, found keyword `");
    push_chars(&mut r, name);
    push_str(&mut r, "`");
    r
}

/// Verdict tables: for each run `ts[v..e]`, whether `syn` read its text as
/// one expression (`expr[v][e]`) and as one type (`ty[v][e]`).
pub struct ValueVerdicts {
    pub expr: Vec<Vec<bool>>,
    pub ty: Vec<Vec<bool>>,
}

/// The rows of a table.
pub open spec fn rows(t: Seq<Vec<bool>>) -> Seq<Seq<bool>> {
    Seq::new(t.len(), |i: int| t[i]@)
}

impl View for ValueVerdicts {
    type V = VerdictsView;

    open spec fn view(&self) -> VerdictsView {
        VerdictsView { expr: rows(self.expr@), ty: rows(self.ty@) }
    }
}

/// An entry of a verdict table.
fn verdict_exec(t: &Vec<Vec<bool>>, v: usize, e: usize) -> (r: bool)
    ensures
        r == verdict(rows(t@), v as int, e as int),
{
    v < t.len() && e < t[v].len() && t[v][e]
}

/// Whether a value of the kind may be `ts[a..b]`, by the verdicts.
fn accepts_exec(vd: &ValueVerdicts, a: usize, b: usize, vk: ValueKind) -> (r: bool)
    ensures
        r == accepts(vk, vd@, a as int, b as int),
{
    match vk {
        ValueKind::Expr => verdict_exec(&vd.expr, a, b),
        ValueKind::Type => verdict_exec(&vd.ty, a, b),
        ValueKind::Ident => false,
    }
}

/// Asks `syn`, for every run `ts[v..e]`, whether its text is one expression
/// and whether it is one type. The tables have a row for each start and an
/// entry for each end; an entry whose run is empty is `false`.
pub fn syn_verdicts(ts: &Vec<Token>) -> (r: ValueVerdicts)
    ensures
        r.expr@.len() == ts@.len(),
        r.ty@.len() == ts@.len(),
        forall|v: int| 0 <= v < ts@.len() ==> (#[trigger] r.expr@[v])@.len() == ts@.len() + 1,
        forall|v: int| 0 <= v < ts@.len() ==> (#[trigger] r.ty@[v])@.len() == ts@.len() + 1,
        forall|v: int, e: int| 0 <= e <= v < ts@.len() ==> !(#[trigger] r.expr@[v]@[e]),
        forall|v: int, e: int| 0 <= e <= v < ts@.len() ==> !(#[trigger] r.ty@[v]@[e]),
{
    let n = ts.len();
    let mut expr: Vec<Vec<bool>> = Vec::new();
    let mut ty: Vec<Vec<bool>> = Vec::new();
    let mut v: usize = 0;
    while v < n
        invariant
            n == ts@.len(),
            v <= n,
            expr@.len() == v,
            ty@.len() == v,
            forall|i: int| 0 <= i < v ==> (#[trigger] expr@[i])@.len() == n + 1,
            forall|i: int| 0 <= i < v ==> (#[trigger] ty@[i])@.len() == n + 1,
            forall|i: int, e: int| 0 <= e <= i < v ==> !(#[trigger] expr@[i]@[e]),
            forall|i: int, e: int| 0 <= e <= i < v ==> !(#[trigger] ty@[i]@[e]),
        decreases n - v,
    {
        let mut er: Vec<bool> = vec![false];
        let mut tr: Vec<bool> = vec![false];
        let mut k: usize = 0;
        while k < n
            invariant
                n == ts@.len(),
                v < n,
                k <= n,
                er@.len() == k + 1,
                tr@.len() == k + 1,
                forall|e: int| 0 <= e <= v && e <= k ==> !(#[trigger] er@[e]),
                forall|e: int| 0 <= e <= v && e <= k ==> !(#[trigger] tr@[e]),
            decreases n - k,
        {
            let e = k + 1;
            if v < e {
                let mut text: Vec<char> = Vec::new();
                push_render(&mut text, ts, v, e);
                let t = string_of(text.as_slice());
                er.push(is_expr_text(t.as_str()));
                tr.push(is_type_text(t.as_str()));
            } else {
                er.push(false);
                tr.push(false);
            }
            k = k + 1;
        }
        expr.push(er);
        ty.push(tr);
        v = v + 1;
    }
    ValueVerdicts { expr, ty }
}

/// The nesting change of one token.
fn nest_step(t: &Token) -> (r: (bool, bool))
    ensures
        r.0 <==> tok(*t) is Open,
        r.1 <==> tok(*t) is Close,
{
    match t {
        Token::Open(_) => (true, false),
        Token::Close(_) => (false, true),
        _ => (false, false),
    }
}

/// Finds where a value that starts at `v` ends, or the error.
fn value_extent_exec(ts: &Vec<Token>, v: usize, vk: ValueKind, vd: &ValueVerdicts) -> (r: Result<usize, Vec<char>>)
    requires
        v <= ts@.len(),
    ensures
        match value_extent(toks(ts@), v as int, vk, vd@) {
            Ok(e) => r matches Ok(x) && x as int == e,
            Err(m) => r matches Err(x) && x@ == m,
        },
{
    let ghost all = toks(ts@);
    let n = ts.len();
    if vk == ValueKind::Ident {
        if v < n {
            match &ts[v] {
                Token::Ident(name) => {
                    let cs = chars_of(name.as_str());
                    if keyword(cs.as_slice()) {
                        return Err(keyword_text(cs.as_slice()));
                    }
                    return Ok(v + 1);
                },
                _ => {},
            }
        }
        return Err(expected_text(vk));
    }
    let mut best = v;
    let mut depth: usize = 0;
    let mut e = v;
    let mut stop = false;
    while e < n && !stop
        invariant
            all == toks(ts@),
            n == ts@.len(),
            vk != ValueKind::Ident,
            v <= best <= e <= n,
            depth as int == nest(all.subrange(v as int, e as int)),
            depth <= e - v,
            forall|k: int| v <= k <= e ==> nest(#[trigger] all.subrange(v as int, k)) >= 0,
            stop ==> e < n && all[e as int] is Close && depth == 0,
            best > v ==> value_candidate(all, v as int, best as int, vk, vd@),
            forall|e2: int| best < e2 <= e ==> !#[trigger] value_candidate(all, v as int, e2, vk, vd@),
            best == v ==> forall|e2: int| v < e2 <= e ==> !#[trigger] value_candidate(all, v as int, e2, vk, vd@),
        decreases n - e + if stop { 0int } else { 1int },
    {
        let (opens, closes) = nest_step(&ts[e]);
        if closes && depth == 0 {
            stop = true;
        } else {
            let ghost before = all.subrange(v as int, e as int);
            assert(all.subrange(v as int, e + 1).drop_last() =~= before);
            if opens {
                depth = depth + 1;
            } else if closes {
                depth = depth - 1;
            }
            e = e + 1;
            let ghost cur = all.subrange(v as int, e as int);
            if depth == 0 {
                let ok = accepts_exec(vd, v, e, vk);
                if ok {
                    assert forall|k: int| 0 <= k <= cur.len() implies nest(#[trigger] cur.take(k)) >= 0 by {
                        assert(cur.take(k) =~= all.subrange(v as int, v + k));
                    }
                    best = e;
                } else {
                    assert(!value_candidate(all, v as int, e as int, vk, vd@));
                }
            } else {
                assert(!value_candidate(all, v as int, e as int, vk, vd@));
            }
        }
    }
    proof {
        if stop {
            let bad = all.subrange(v as int, e + 1);
            assert(bad.drop_last() =~= all.subrange(v as int, e as int));
            assert(nest(bad) == -1);
            assert forall|e2: int| e < e2 <= n implies !#[trigger] value_candidate(all, v as int, e2, vk, vd@) by {
                let t = all.subrange(v as int, e2);
                assert(t.take(e + 1 - v) =~= bad);
            }
        }
        assert forall|e2: int| #[trigger] value_candidate(all, v as int, e2, vk, vd@) implies e2 <= best by {
            if e2 > best {
                if e2 <= e {
                } else {
                    assert(!stop ==> e == n);
                }
            }
        }
    }
    if best == v {
        return Err(expected_text(vk));
    }
    proof {
        assert(longest_value(all, v as int, best as int, vk, vd@));
        let c = choose|x: int| longest_value(all, v as int, x, vk, vd@);
        assert(longest_value(all, v as int, c, vk, vd@));
        assert(c <= best && best <= c);
    }
    Ok(best)
}

fn value_kind_exec(k: ArgKey) -> (r: ValueKind)
    ensures
        r == value_kind(k),
{
    match k {
        ArgKey::ReqBodyTy | ArgKey::ResBodyTy => ValueKind::Ident,
        ArgKey::ResTy => ValueKind::Type,
        _ => ValueKind::Expr,
    }
}

fn expected_text(vk: ValueKind) -> (r: Vec<char>)
    ensures
        r@ == expected_message(vk),
{
    match vk {
        ValueKind::Ident => chars_of("expected identifier"),
        ValueKind::Expr => chars_of("expected an expression"),
        ValueKind::Type => chars_of("expected a type"),
    }
}

fn duplicate_text(k: ArgKey) -> (r: Vec<char>)
    ensures
        r@ == duplicate_message(k),
{
    if k == ArgKey::Url {
        chars_of("duplicate key: url")
    } else {
        let mut r = chars_of("Duplicate '");
        let n = key_name_chars(k);
        push_chars(&mut r, n.as_slice());
        push_str(&mut r, "' parameter");
        r
    }
}

fn copy_tokens(ts: &Vec<Token>, a: usize, b: usize) -> (r: Vec<Token>)
    requires
        a <= b <= ts@.len(),
    ensures
        toks(r@) == toks(ts@).subrange(a as int, b as int),
{
    let mut r: Vec<Token> = Vec::new();
    let mut k = a;
    while k < b
        invariant
            a <= k <= b <= ts@.len(),
            toks(r@) == toks(ts@).subrange(a as int, k as int),
        decreases b - k,
    {
        let t = match &ts[k] {
            Token::Ident(s) => Token::Ident(s.clone()),
            Token::Punct(c, j) => Token::Punct(*c, *j),
            Token::Literal(s) => Token::Literal(s.clone()),
            Token::Open(c) => Token::Open(*c),
            Token::Close(c) => Token::Close(*c),
        };
        assert(tok(t) == tok(ts@[k as int]));
        let ghost before = r@;
        r.push(t);
        assert(toks(r@) =~= toks(before).push(tok(t)));
        assert(toks(ts@).subrange(a as int, k + 1) =~= toks(ts@).subrange(a as int, k as int).push(toks(ts@)[k as int]));
        k = k + 1;
    }
    r
}

/// Parses the tokens of a macro call into its arguments.
fn parse_tokens(m: MacroName, ts: &Vec<Token>, vd: &ValueVerdicts) -> (r: Result<Vec<Option<Vec<Token>>>, Vec<char>>)
    ensures
        r matches Ok(a) ==> parse_args(m, toks(ts@), vd@) == Ok::<ArgsView, Seq<char>>(args_view(a@)) && a@.len() == KEY_COUNT,
        r matches Err(e) ==> parse_args(m, toks(ts@), vd@) == Err::<ArgsView, Seq<char>>(e@),
{
    let ghost all = toks(ts@);
    let mut acc: Vec<Option<Vec<Token>>> = Vec::new();
    let mut i: usize = 0;
    while i < KEY_COUNT
        invariant
            i <= KEY_COUNT,
            acc@.len() == i,
            forall|j: int| 0 <= j < i ==> acc@[j] is None,
        decreases KEY_COUNT - i,
    {
        acc.push(None);
        i = i + 1;
    }
    assert(args_view(acc@) =~= no_args());
    let n = ts.len();
    let mut pos: usize = 0;
    while pos < n
        invariant
            n == ts@.len(),
            all == toks(ts@),
            pos <= n,
            acc@.len() == KEY_COUNT,
            parse_args(m, all, vd@) == parse_args_from(m, all, vd@, pos as int, args_view(acc@)),
        decreases n - pos,
    {
        let name = match &ts[pos] {
            Token::Ident(s) => s,
            _ => return Err(chars_of("expected identifier")),
        };
        let name_chars = chars_of(name.as_str());
        if keyword(name_chars.as_slice()) {
            return Err(keyword_text(name_chars.as_slice()));
        }
        let arrow = n - pos > 2 && match (&ts[pos + 1], &ts[pos + 2]) {
            (Token::Punct(c, joint), Token::Punct(d, _)) => *c == '=' && *joint && *d == '>',
            _ => false,
        };
        if !arrow {
            return Err(chars_of("expected `=>`"));
        }
        let k = match key_of_exec(m, name_chars.as_slice()) {
            Some(k) => k,
            None => {
                let mut msg = chars_of("Unknown parameter: ");
                push_chars(&mut msg, name_chars.as_slice());
                return Err(msg);
            },
        };
        let ki = key_index_exec(k);
        if acc[ki].is_some() {
            return Err(duplicate_text(k));
        }
        let v = pos + 3;
        let vk = value_kind_exec(k);
        let e = match value_extent_exec(ts, v, vk, vd) {
            Ok(e) => e,
            Err(msg) => return Err(msg),
        };
        if e <= v || e > n {
            return Err(expected_text(vk));
        }
        let value = copy_tokens(ts, v, e);
        let next = if e < n && comma(&ts[e]) { e + 1 } else { e };
        let ghost before = args_view(acc@);
        acc.set(ki, Some(value));
        assert(args_view(acc@) =~= before.update(key_index(k), Some(all.subrange(v as int, e as int))));
        pos = next;
    }
    Ok(acc)
}

} // verus!

verus! {

/// The request constructor that a macro calls.
pub open spec fn verb(m: MacroName) -> Seq<char> {
    match m {
        MacroName::Get | MacroName::Fetch | MacroName::Stream => "get"@,
        MacroName::Query => "query"@,
        MacroName::Post => "post"@,
        MacroName::Put => "put"@,
        MacroName::Patch => "patch"@,
        MacroName::Delete => "delete"@,
        MacroName::Submit => "at"@,
    }
}

/// Whether a macro serializes a request body.
pub open spec fn uses_request_body(m: MacroName) -> bool {
    m == MacroName::Query || m == MacroName::Post || m == MacroName::Put || m == MacroName::Patch
}

/// Whether a macro deserializes the response body.
pub open spec fn uses_response_body(m: MacroName) -> bool {
    m == MacroName::Get || m == MacroName::Fetch || m == MacroName::Query || m == MacroName::Post
        || m == MacroName::Put || m == MacroName::Patch
}

/// The message for a required key that is missing.
pub open spec fn missing_message(k: ArgKey) -> Seq<char> {
    "Missing required field: '"@ + key_name(k) + "'"@
}

/// The value of a key (meaningful where it was given).
pub open spec fn arg(a: ArgsView, k: ArgKey) -> Seq<Tok> {
    a[key_index(k)]->Some_0
}

/// Whether a key was given.
pub open spec fn is_given(a: ArgsView, k: ArgKey) -> bool {
    a[key_index(k)] is Some
}

/// `.headers(h)` where headers were given.
pub open spec fn headers_part(a: ArgsView) -> Seq<char> {
    if is_given(a, ArgKey::Headers) { ".headers("@ + render(arg(a, ArgKey::Headers)) + ")"@ } else { Seq::empty() }
}

/// `.body_as(format, data)?` where both were given.
pub open spec fn request_body_part(a: ArgsView) -> Seq<char> {
    if is_given(a, ArgKey::ReqBodyTy) && is_given(a, ArgKey::Data) {
        ".body_as("@ + render(arg(a, ArgKey::ReqBodyTy)) + ", "@ + render(arg(a, ArgKey::Data)) + ")?"@
    } else {
        Seq::empty()
    }
}

/// `.body_as::<format, type>(format).await?` where both were given.
pub open spec fn response_body_part(a: ArgsView) -> Seq<char> {
    if is_given(a, ArgKey::ResBodyTy) && is_given(a, ArgKey::ResTy) {
        ".body_as::<"@ + render(arg(a, ArgKey::ResBodyTy)) + ", "@ + render(arg(a, ArgKey::ResTy)) + ">("@
            + render(arg(a, ArgKey::ResBodyTy)) + ").await?"@
    } else {
        Seq::empty()
    }
}

/// `.text(data)` where data was given.
pub open spec fn text_part(a: ArgsView) -> Seq<char> {
    if is_given(a, ArgKey::Data) { ".text("@ + render(arg(a, ArgKey::Data)) + ")"@ } else { Seq::empty() }
}

/// The code a macro expands to: build the request, send it with the client,
/// then (for some macros) read the response body.
pub open spec fn expansion(m: MacroName, a: ArgsView) -> Seq<char> {
    let start = "deboa::HttpClient::execute("@ + render(arg(a, ArgKey::Client)) + ", deboa::request::DeboaRequest::"@;
    if m == MacroName::Submit {
        start + "at("@ + render(arg(a, ArgKey::Url)) + ", "@ + render(arg(a, ArgKey::Method)) + ")?"@
            + headers_part(a) + text_part(a) + ".build()?,).await?"@
    } else {
        start + verb(m) + "("@ + render(arg(a, ArgKey::Url)) + ")?"@ + headers_part(a)
            + (if uses_request_body(m) { request_body_part(a) } else { Seq::empty() })
            + ".build()?,).await?"@
            + (if uses_response_body(m) { response_body_part(a) } else { Seq::empty() })
            + (if m == MacroName::Stream { ".stream()"@ } else { Seq::empty() })
    }
}

/// The expansion of parsed arguments, or the error for the first missing
/// requirement: `url`, then `client`, then (for `submit!`) `method`, then
/// `data` where a request format was given, then `res_ty` where a response
/// format was given.
pub open spec fn expand(m: MacroName, a: ArgsView) -> Result<Seq<char>, Seq<char>> {
    if !is_given(a, ArgKey::Url) {
        Err(missing_message(ArgKey::Url))
    } else if !is_given(a, ArgKey::Client) {
        Err(missing_message(ArgKey::Client))
    } else if m == MacroName::Submit && !is_given(a, ArgKey::Method) {
        Err(missing_message(ArgKey::Method))
    } else if uses_request_body(m) && is_given(a, ArgKey::ReqBodyTy) && !is_given(a, ArgKey::Data) {
        Err(missing_message(ArgKey::Data))
    } else if uses_response_body(m) && is_given(a, ArgKey::ResBodyTy) && !is_given(a, ArgKey::ResTy) {
        Err(missing_message(ArgKey::ResTy))
    } else {
        Ok(expansion(m, a))
    }
}

/// `r` is what a macro call gives, for the tokens that the lexer made of
/// its text and the verdicts on their runs: the expansion, or the message
/// of the compile error.
pub open spec fn output_of(m: MacroName, ts: Seq<Tok>, vd: VerdictsView, r: Result<String, String>) -> bool {
    match r {
        Ok(c) => token_output(m, ts, vd) == Ok::<Seq<char>, Seq<char>>(c@),
        Err(e) => token_output(m, ts, vd) == Err::<Seq<char>, Seq<char>>(e@),
    }
}

/// What a macro call with the given argument text gives: the text does not
/// lex, or the outcome for the tokens that the lexer made of it and the
/// verdicts that `syn` gave on their runs (which lexer runs is chosen at run
/// time, so neither the tokens nor the verdicts are stated).
pub open spec fn macro_result(m: MacroName, r: Result<String, String>) -> bool {
    ||| r matches Err(e) && e@ == "cannot parse macro input"@
    ||| exists|ts: Seq<Tok>, vd: VerdictsView| output_of(m, ts, vd, r)
}

fn missing_text(k: ArgKey) -> (r: Vec<char>)
    ensures
        r@ == missing_message(k),
{
    let mut r = chars_of("Missing required field: '");
    let n = key_name_chars(k);
    push_chars(&mut r, n.as_slice());
    push_str(&mut r, "'");
    r
}

fn push_arg(acc: &mut Vec<char>, a: &Vec<Option<Vec<Token>>>, k: ArgKey)
    requires
        a@.len() == KEY_COUNT,
        is_given(args_view(a@), k),
    ensures
        final(acc)@ == old(acc)@ + render(arg(args_view(a@), k)),
{
    let ki = key_index_exec(k);
    match &a[ki] {
        Some(v) => {
            push_render(acc, v, 0, v.len());
            assert(toks(v@).subrange(0, v@.len() as int) == toks(v@));
        },
        None => {},
    }
}

fn given(a: &Vec<Option<Vec<Token>>>, k: ArgKey) -> (r: bool)
    requires
        a@.len() == KEY_COUNT,
    ensures
        r == is_given(args_view(a@), k),
{
    a[key_index_exec(k)].is_some()
}

fn verb_text(m: MacroName) -> (r: &'static str)
    ensures
        r@ == verb(m),
{
    match m {
        MacroName::Get | MacroName::Fetch | MacroName::Stream => "get",
        MacroName::Query => "query",
        MacroName::Post => "post",
        MacroName::Put => "put",
        MacroName::Patch => "patch",
        MacroName::Delete => "delete",
        MacroName::Submit => "at",
    }
}

fn headers_text(a: &Vec<Option<Vec<Token>>>) -> (r: Vec<char>)
    requires
        a@.len() == KEY_COUNT,
    ensures
        r@ == headers_part(args_view(a@)),
{
    let mut c: Vec<char> = Vec::new();
    if given(a, ArgKey::Headers) {
        push_str(&mut c, ".headers(");
        push_arg(&mut c, a, ArgKey::Headers);
        push_str(&mut c, ")");
    }
    c
}

fn text_text(a: &Vec<Option<Vec<Token>>>) -> (r: Vec<char>)
    requires
        a@.len() == KEY_COUNT,
    ensures
        r@ == text_part(args_view(a@)),
{
    let mut c: Vec<char> = Vec::new();
    if given(a, ArgKey::Data) {
        push_str(&mut c, ".text(");
        push_arg(&mut c, a, ArgKey::Data);
        push_str(&mut c, ")");
    }
    c
}

fn request_body_text(m: MacroName, a: &Vec<Option<Vec<Token>>>) -> (r: Vec<char>)
    requires
        a@.len() == KEY_COUNT,
    ensures
        r@ == (if uses_request_body(m) { request_body_part(args_view(a@)) } else { Seq::empty() }),
{
    let mut c: Vec<char> = Vec::new();
    let uses_req = m == MacroName::Query || m == MacroName::Post || m == MacroName::Put || m == MacroName::Patch;
    if uses_req && given(a, ArgKey::ReqBodyTy) && given(a, ArgKey::Data) {
        push_str(&mut c, ".body_as(");
        push_arg(&mut c, a, ArgKey::ReqBodyTy);
        push_str(&mut c, ", ");
        push_arg(&mut c, a, ArgKey::Data);
        push_str(&mut c, ")?");
    }
    c
}

fn response_body_text(m: MacroName, a: &Vec<Option<Vec<Token>>>) -> (r: Vec<char>)
    requires
        a@.len() == KEY_COUNT,
    ensures
        r@ == (if uses_response_body(m) { response_body_part(args_view(a@)) } else { Seq::empty() }),
{
    let mut c: Vec<char> = Vec::new();
    let uses_res = m == MacroName::Get || m == MacroName::Fetch || m == MacroName::Query || m == MacroName::Post
        || m == MacroName::Put || m == MacroName::Patch;
    if uses_res && given(a, ArgKey::ResBodyTy) && given(a, ArgKey::ResTy) {
        push_str(&mut c, ".body_as::<");
        push_arg(&mut c, a, ArgKey::ResBodyTy);
        push_str(&mut c, ", ");
        push_arg(&mut c, a, ArgKey::ResTy);
        push_str(&mut c, ">(");
        push_arg(&mut c, a, ArgKey::ResBodyTy);
        push_str(&mut c, ").await?");
    }
    c
}

fn stream_text(m: MacroName) -> (r: Vec<char>)
    ensures
        r@ == (if m == MacroName::Stream { ".stream()"@ } else { Seq::<char>::empty() }),
{
    if m == MacroName::Stream { chars_of(".stream()") } else { Vec::new() }
}

fn expansion_text(m: MacroName, a: &Vec<Option<Vec<Token>>>) -> (r: Vec<char>)
    requires
        a@.len() == KEY_COUNT,
        is_given(args_view(a@), ArgKey::Url),
        is_given(args_view(a@), ArgKey::Client),
        m == MacroName::Submit ==> is_given(args_view(a@), ArgKey::Method),
    ensures
        r@ == expansion(m, args_view(a@)),
{
    let mut c = chars_of("deboa::HttpClient::execute(");
    push_arg(&mut c, a, ArgKey::Client);
    push_str(&mut c, ", deboa::request::DeboaRequest::");
    let h = headers_text(a);
    if m == MacroName::Submit {
        push_str(&mut c, "at(");
        push_arg(&mut c, a, ArgKey::Url);
        push_str(&mut c, ", ");
        push_arg(&mut c, a, ArgKey::Method);
        push_str(&mut c, ")?");
        push_chars(&mut c, h.as_slice());
        let t = text_text(a);
        push_chars(&mut c, t.as_slice());
        push_str(&mut c, ".build()?,).await?");
        return c;
    }
    push_str(&mut c, verb_text(m));
    push_str(&mut c, "(");
    push_arg(&mut c, a, ArgKey::Url);
    push_str(&mut c, ")?");
    push_chars(&mut c, h.as_slice());
    let q = request_body_text(m, a);
    push_chars(&mut c, q.as_slice());
    push_str(&mut c, ".build()?,).await?");
    let s = response_body_text(m, a);
    push_chars(&mut c, s.as_slice());
    let st = stream_text(m);
    push_chars(&mut c, st.as_slice());
    c
}

fn expand_exec(m: MacroName, a: &Vec<Option<Vec<Token>>>) -> (r: Result<Vec<char>, Vec<char>>)
    requires
        a@.len() == KEY_COUNT,
    ensures
        r matches Ok(c) ==> expand(m, args_view(a@)) == Ok::<Seq<char>, Seq<char>>(c@),
        r matches Err(e) ==> expand(m, args_view(a@)) == Err::<Seq<char>, Seq<char>>(e@),
{
    if !given(a, ArgKey::Url) {
        return Err(missing_text(ArgKey::Url));
    }
    if !given(a, ArgKey::Client) {
        return Err(missing_text(ArgKey::Client));
    }
    let uses_req = m == MacroName::Query || m == MacroName::Post || m == MacroName::Put || m == MacroName::Patch;
    let uses_res = m == MacroName::Get || m == MacroName::Fetch || m == MacroName::Query || m == MacroName::Post
        || m == MacroName::Put || m == MacroName::Patch;
    if m == MacroName::Submit && !given(a, ArgKey::Method) {
        return Err(missing_text(ArgKey::Method));
    }
    if uses_req && given(a, ArgKey::ReqBodyTy) && !given(a, ArgKey::Data) {
        return Err(missing_text(ArgKey::Data));
    }
    if uses_res && given(a, ArgKey::ResBodyTy) && !given(a, ArgKey::ResTy) {
        return Err(missing_text(ArgKey::ResTy));
    }
    Ok(expansion_text(m, a))
}

/// What a macro call with the given top-level tokens expands to, or the
/// message of the compile error it reports, given the verdicts on the runs
/// of its tokens.
pub open spec fn token_output(m: MacroName, ts: Seq<Tok>, vd: VerdictsView) -> Result<Seq<char>, Seq<char>> {
    match parse_args(m, ts, vd) {
        Err(e) => Err(e),
        Ok(a) => expand(m, a),
    }
}

/// Runs a macro on its argument tokens, with the given verdicts on their runs.
pub fn expand_tokens_with(m: MacroName, ts: &Vec<Token>, vd: &ValueVerdicts) -> (r: Result<String, String>)
    ensures
        output_of(m, toks(ts@), vd@, r),
{
    let a = match parse_tokens(m, ts, vd) {
        Ok(a) => a,
        Err(e) => return Err(string_of(e.as_slice())),
    };
    match expand_exec(m, &a) {
        Ok(c) => Ok(string_of(c.as_slice())),
        Err(e) => Err(string_of(e.as_slice())),
    }
}

/// Runs a macro on its argument tokens, asking `syn` for the verdicts.
pub fn expand_tokens(m: MacroName, ts: &Vec<Token>) -> (r: Result<String, String>)
    ensures
        exists|vd: VerdictsView| output_of(m, toks(ts@), vd, r),
{
    let vd = syn_verdicts(ts);
    let r = expand_tokens_with(m, ts, &vd);
    assert(output_of(m, toks(ts@), vd@, r));
    r
}

/// Runs a macro on its argument text.
pub fn run_macro(m: MacroName, input: &str) -> (r: Result<String, String>)
    ensures
        macro_result(m, r),
{
    let ts = match lex(input) {
        Some(ts) => ts,
        None => return Err(String::from_str("cannot parse macro input")),
    };
    let vd = syn_verdicts(&ts);
    let r = expand_tokens_with(m, &ts, &vd);
    assert(output_of(m, toks(ts@), vd@, r));
    r
}

} // verus!

verus! {

/// The arguments of `query!` (and of `post!`, `put!` and `patch!`).
pub struct QueryArgs {
    pub url: Option<Vec<Token>>,
    pub headers: Option<Vec<Token>>,
    pub req_body_ty: Option<Vec<Token>>,
    pub data: Option<Vec<Token>>,
    pub client: Option<Vec<Token>>,
    pub res_body_ty: Option<Vec<Token>>,
    pub res_ty: Option<Vec<Token>>,
}

/// `r` is what reading a `query!` call's tokens gives, with the given verdicts.
pub open spec fn query_outcome(ts: Seq<Tok>, vd: VerdictsView, r: Result<QueryArgs, String>) -> bool {
    match r {
        Ok(q) => parse_args(MacroName::Query, ts, vd) == Ok::<ArgsView, Seq<char>>(q.args()),
        Err(e) => parse_args(MacroName::Query, ts, vd) == Err::<ArgsView, Seq<char>>(e@),
    }
}

/// The plain value of an optional token list.
pub open spec fn opt_toks(o: Option<Vec<Token>>) -> Option<Seq<Tok>> {
    match o {
        Some(t) => Some(toks(t@)),
        None => None,
    }
}

impl QueryArgs {
    /// The arguments as the macros' parser holds them.
    pub open spec fn args(&self) -> ArgsView {
        seq![opt_toks(self.url), opt_toks(self.headers), opt_toks(self.req_body_ty), opt_toks(self.data),
            opt_toks(self.client), opt_toks(self.res_body_ty), opt_toks(self.res_ty), None]
    }

    /// Reads the `key => value` pairs of a `query!` call from its tokens,
    /// asking `syn` which runs of them are expressions and types.
    pub fn parse(tokens: &Vec<Token>) -> (r: Result<QueryArgs, String>)
        ensures
            exists|vd: VerdictsView| query_outcome(toks(tokens@), vd, r),
    {
        let vd = syn_verdicts(tokens);
        let r = QueryArgs::parse_with(tokens, &vd);
        assert(query_outcome(toks(tokens@), vd@, r));
        r
    }

    /// Reads the `key => value` pairs of a `query!` call from its tokens,
    /// with the given verdicts on their runs.
    pub fn parse_with(tokens: &Vec<Token>, vd: &ValueVerdicts) -> (r: Result<QueryArgs, String>)
        ensures
            query_outcome(toks(tokens@), vd@, r),
    {
        match parse_tokens(MacroName::Query, tokens, vd) {
            Err(e) => Err(string_of(e.as_slice())),
            Ok(mut a) => {
                let ghost av = args_view(a@);
                proof {
                    lemma_query_never_method(toks(tokens@), vd@, 0, no_args());
                }
                let _method = a.pop().unwrap();
                let res_ty = a.pop().unwrap();
                let res_body_ty = a.pop().unwrap();
                let client = a.pop().unwrap();
                let data = a.pop().unwrap();
                let req_body_ty = a.pop().unwrap();
                let headers = a.pop().unwrap();
                let url = a.pop().unwrap();
                let q = QueryArgs { url, headers, req_body_ty, data, client, res_body_ty, res_ty };
                assert(q.args() =~= av);
                Ok(q)
            },
        }
    }
}

proof fn lemma_query_never_method(ts: Seq<Tok>, vd: VerdictsView, pos: int, acc: ArgsView)
    requires
        acc.len() == KEY_COUNT,
        acc[7] is None,
    ensures
        parse_args_from(MacroName::Query, ts, vd, pos, acc) matches Ok(a) ==> a.len() == KEY_COUNT && a[7] is None,
    decreases ts.len() - pos,
{
    if 0 <= pos < ts.len() && ts[pos] is Ident && fat_arrow_at(ts, pos + 1) {
        let name = ts[pos]->Ident_0;
        if let Some(k) = key_of(MacroName::Query, name) {
            let v = pos + 3;
            if let Ok(e) = value_extent(ts, v, value_kind(k), vd) {
                if !(acc[key_index(k)] is Some) && !(e <= v || e > ts.len()) {
                    let next = if e < ts.len() && is_comma(ts[e]) { e + 1 } else { e };
                    lemma_query_never_method(ts, vd, next, acc.update(key_index(k), Some(ts.subrange(v, e))));
                }
            }
        }
    }
}

} // verus!

verus! {

/// `get!`: sends a GET request; with `res_body_ty` and `res_ty` it reads the response body as that type.
/// Takes the macro's argument text; returns the expansion's text, or the
/// message of the compile error.
pub fn get(input: &str) -> (r: Result<String, String>)
    ensures
        macro_result(MacroName::Get, r),
{
    run_macro(MacroName::Get, input)
}

/// `query!`: sends a QUERY request, optionally with a serialized body (`req_body_ty`, `data`) and a read response body.
/// Takes the macro's argument text; returns the expansion's text, or the
/// message of the compile error.
pub fn query(input: &str) -> (r: Result<String, String>)
    ensures
        macro_result(MacroName::Query, r),
{
    run_macro(MacroName::Query, input)
}

/// `post!`: sends a POST request, optionally with a serialized body and a read response body.
/// Takes the macro's argument text; returns the expansion's text, or the
/// message of the compile error.
pub fn post(input: &str) -> (r: Result<String, String>)
    ensures
        macro_result(MacroName::Post, r),
{
    run_macro(MacroName::Post, input)
}

/// `put!`: sends a PUT request, optionally with a serialized body and a read response body.
/// Takes the macro's argument text; returns the expansion's text, or the
/// message of the compile error.
pub fn put(input: &str) -> (r: Result<String, String>)
    ensures
        macro_result(MacroName::Put, r),
{
    run_macro(MacroName::Put, input)
}

/// `patch!`: sends a PATCH request, optionally with a serialized body and a read response body.
/// Takes the macro's argument text; returns the expansion's text, or the
/// message of the compile error.
pub fn patch(input: &str) -> (r: Result<String, String>)
    ensures
        macro_result(MacroName::Patch, r),
{
    run_macro(MacroName::Patch, input)
}

/// `delete!`: sends a DELETE request.
/// Takes the macro's argument text; returns the expansion's text, or the
/// message of the compile error.
pub fn delete(input: &str) -> (r: Result<String, String>)
    ensures
        macro_result(MacroName::Delete, r),
{
    run_macro(MacroName::Delete, input)
}

/// `fetch!`: sends a GET request; with `res_body_ty` and `res_ty` it reads the response body as that type.
/// Takes the macro's argument text; returns the expansion's text, or the
/// message of the compile error.
pub fn fetch(input: &str) -> (r: Result<String, String>)
    ensures
        macro_result(MacroName::Fetch, r),
{
    run_macro(MacroName::Fetch, input)
}

/// `submit!`: sends a request with the given `method`, optionally with a text body (`data`).
/// Takes the macro's argument text; returns the expansion's text, or the
/// message of the compile error.
pub fn submit(input: &str) -> (r: Result<String, String>)
    ensures
        macro_result(MacroName::Submit, r),
{
    run_macro(MacroName::Submit, input)
}

/// `stream!`: sends a GET request and hands out the response body as a stream.
/// Takes the macro's argument text; returns the expansion's text, or the
/// message of the compile error.
pub fn stream(input: &str) -> (r: Result<String, String>)
    ensures
        macro_result(MacroName::Stream, r),
{
    run_macro(MacroName::Stream, input)
}

} // verus!

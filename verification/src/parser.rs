//! The query language: a tokenizer and a recursive-descent parser, each
//! specified by a functional grammar over characters and tokens.
use vstd::prelude::*;
use crate::query::{
    lemma_and_view, opt_expr_view, views, ClauseV, Comparator, ExprV, QueryClause, QueryExpr, QueryField,
    QueryMode, QueryPreset, QueryRequest, RequestV, SortDirection, SortField, SortSpec,
};
use crate::text::{
    chars_of, eq_ignore_case, eq_lit, find, ieq, is_whitespace, is_ws, lower, lower_vec, owned,
    parse_usize, parse_usize_vec, push_char, slice_vec, string_of, string_of_range, trim,
    trim_chars, trim_vec, find_vec,
};

verus! {

/// Which numeric directive carried a value that is not a number.
#[derive(Debug, Clone, Copy, PartialEq, Eq, Structural)]
pub enum Directive {
    Limit,
    Offset,
    Expand,
    Depth,
}

/// Why a query was rejected.
#[derive(Debug, Clone, Copy, PartialEq, Eq, Structural)]
pub enum QueryError {
    /// Nothing but whitespace was given.
    Empty,
    /// A quoted string has no closing quote.
    UnterminatedString,
    /// The query ended where more was expected.
    UnexpectedEnd,
    /// A word was expected; the parenthesis found is given.
    ExpectedWord(char),
    /// A value was expected; the parenthesis found is given.
    ExpectedValue(char),
    /// `ORDER` was not followed by `BY`.
    ExpectedBy,
    /// `PATH` was not written `PATH <from> -> <to>`.
    PathSyntax,
    /// A directive's value is not a number.
    NotNumeric(Directive),
    /// Something other than a directive follows the expression.
    UnexpectedToken,
    /// An opening parenthesis was not closed.
    ExpectedClosingParen,
    /// A closing parenthesis has no opening one.
    UnexpectedClosingParen,
    /// The field name is not known.
    UnsupportedField,
    /// The `ORDER BY` field is not known.
    UnsupportedSortField,
    /// The comparison operator is not known.
    UnsupportedOperator,
}

/// How a rejection reads. Errors that concern a given word read as the
/// general part of their message.
pub open spec fn query_error_text(e: QueryError) -> Seq<char> {
    match e {
        QueryError::Empty => "la query no puede estar vacía"@,
        QueryError::UnterminatedString => "string sin cierre"@,
        QueryError::UnexpectedEnd => "fin inesperado de query"@,
        QueryError::ExpectedWord(c) => if c == '(' {
            "se esperaba palabra y se encontró '('"@
        } else {
            "se esperaba palabra y se encontró ')'"@
        },
        QueryError::ExpectedValue(c) => if c == '(' {
            "se esperaba valor y se encontró '('"@
        } else {
            "se esperaba valor y se encontró ')'"@
        },
        QueryError::ExpectedBy => "se esperaba 'BY'"@,
        QueryError::PathSyntax => "PATH requiere sintaxis: PATH <from> -> <to>"@,
        QueryError::NotNumeric(d) => match d {
            Directive::Limit => "LIMIT debe ser numérico"@,
            Directive::Offset => "OFFSET debe ser numérico"@,
            Directive::Expand => "EXPAND debe ser numérico"@,
            Directive::Depth => "DEPTH debe ser numérico"@,
        },
        QueryError::UnexpectedToken => "token no esperado al final de la query"@,
        QueryError::ExpectedClosingParen => "se esperaba ')'"@,
        QueryError::UnexpectedClosingParen => "paréntesis de cierre inesperado"@,
        QueryError::UnsupportedField => "campo no soportado en query"@,
        QueryError::UnsupportedSortField => "campo no soportado para ORDER BY"@,
        QueryError::UnsupportedOperator => "operador no soportado"@,
    }
}

impl QueryError {
    /// How the rejection reads.
    pub fn message(&self) -> (r: &'static str)
        ensures
            r@ == query_error_text(*self),
    {
        match self {
            QueryError::Empty => "la query no puede estar vacía",
            QueryError::UnterminatedString => "string sin cierre",
            QueryError::UnexpectedEnd => "fin inesperado de query",
            QueryError::ExpectedWord(c) => if *c == '(' {
                "se esperaba palabra y se encontró '('"
            } else {
                "se esperaba palabra y se encontró ')'"
            },
            QueryError::ExpectedValue(c) => if *c == '(' {
                "se esperaba valor y se encontró '('"
            } else {
                "se esperaba valor y se encontró ')'"
            },
            QueryError::ExpectedBy => "se esperaba 'BY'",
            QueryError::PathSyntax => "PATH requiere sintaxis: PATH <from> -> <to>",
            QueryError::NotNumeric(d) => match d {
                Directive::Limit => "LIMIT debe ser numérico",
                Directive::Offset => "OFFSET debe ser numérico",
                Directive::Expand => "EXPAND debe ser numérico",
                Directive::Depth => "DEPTH debe ser numérico",
            },
            QueryError::UnexpectedToken => "token no esperado al final de la query",
            QueryError::ExpectedClosingParen => "se esperaba ')'",
            QueryError::UnexpectedClosingParen => "paréntesis de cierre inesperado",
            QueryError::UnsupportedField => "campo no soportado en query",
            QueryError::UnsupportedSortField => "campo no soportado para ORDER BY",
            QueryError::UnsupportedOperator => "operador no soportado",
        }
    }
}

#[derive(Debug, Clone, PartialEq, Eq)]
pub enum Token {
    Word(String),
    Quoted(String),
    LParen,
    RParen,
}

/// The abstract value of a token.
pub enum TokV {
    Word(Seq<char>),
    Quoted(Seq<char>),
    LParen,
    RParen,
}

impl View for Token {
    type V = TokV;

    open spec fn view(&self) -> TokV {
        match self {
            Token::Word(w) => TokV::Word(w@),
            Token::Quoted(w) => TokV::Quoted(w@),
            Token::LParen => TokV::LParen,
            Token::RParen => TokV::RParen,
        }
    }
}

pub open spec fn toks_view(ts: Seq<Token>) -> Seq<TokV> {
    Seq::new(ts.len(), |i: int| ts[i]@)
}

// ---------------------------------------------------------------------------
// Tokenizer grammar
// ---------------------------------------------------------------------------

/// Characters that end a bare word.
pub open spec fn is_delim(c: char) -> bool {
    is_ws(c) || c == '(' || c == ')' || c == '"' || c == '\''
}

/// The end of the bare word that starts at `i`.
pub open spec fn word_end(cs: Seq<char>, i: int) -> int
    decreases cs.len() - i,
{
    if 0 <= i < cs.len() && !is_delim(cs[i]) {
        word_end(cs, i + 1)
    } else {
        i
    }
}

pub open spec fn prefix_scan(pre: Seq<char>, r: Option<(Seq<char>, int)>) -> Option<(Seq<char>, int)> {
    match r {
        Some((v, j)) => Some((pre + v, j)),
        None => None,
    }
}

/// The body of a quoted string whose text starts at `k`, closed by `q`: its
/// value (a backslash takes the next character literally) and the index after
/// the closing quote; `None` when the quote is not closed.
pub open spec fn scan_quoted(cs: Seq<char>, k: int, q: char) -> Option<(Seq<char>, int)>
    decreases cs.len() - k,
{
    if 0 <= k < cs.len() {
        if cs[k] == '\\' && k + 1 < cs.len() {
            prefix_scan(seq![cs[k + 1]], scan_quoted(cs, k + 2, q))
        } else if cs[k] == q {
            Some((Seq::empty(), k + 1))
        } else {
            prefix_scan(seq![cs[k]], scan_quoted(cs, k + 1, q))
        }
    } else {
        None
    }
}

pub open spec fn prefix_toks(pre: Seq<TokV>, r: Result<Seq<TokV>, QueryError>) -> Result<Seq<TokV>, QueryError> {
    match r {
        Ok(s) => Ok(pre + s),
        Err(e) => Err(e),
    }
}

/// The tokens of `cs` from index `i` on: parentheses, quoted strings and bare
/// words, separated by whitespace.
pub open spec fn tokenize_from(cs: Seq<char>, i: int) -> Result<Seq<TokV>, QueryError>
    decreases cs.len() - i,
{
    if 0 <= i < cs.len() {
        let c = cs[i];
        if is_ws(c) {
            tokenize_from(cs, i + 1)
        } else if c == '(' {
            prefix_toks(seq![TokV::LParen], tokenize_from(cs, i + 1))
        } else if c == ')' {
            prefix_toks(seq![TokV::RParen], tokenize_from(cs, i + 1))
        } else if c == '"' || c == '\'' {
            match scan_quoted(cs, i + 1, c) {
                None => Err(QueryError::UnterminatedString),
                Some((v, j)) => if i < j <= cs.len() {
                    prefix_toks(seq![TokV::Quoted(v)], tokenize_from(cs, j))
                } else {
                    Err(QueryError::UnterminatedString)
                },
            }
        } else {
            let j = word_end(cs, i);
            if i < j <= cs.len() {
                prefix_toks(seq![TokV::Word(cs.subrange(i, j))], tokenize_from(cs, j))
            } else {
                Err(QueryError::UnexpectedEnd)
            }
        }
    } else {
        Ok(Seq::empty())
    }
}

proof fn lemma_word_end_bounds(cs: Seq<char>, i: int)
    requires
        0 <= i <= cs.len(),
    ensures
        i <= word_end(cs, i) <= cs.len(),
    decreases cs.len() - i,
{
    if 0 <= i < cs.len() && !is_delim(cs[i]) {
        lemma_word_end_bounds(cs, i + 1);
    }
}

proof fn lemma_prefix_toks(pre: Seq<TokV>, t: TokV, r: Result<Seq<TokV>, QueryError>)
    ensures
        prefix_toks(pre.push(t), r) == prefix_toks(pre, prefix_toks(seq![t], r)),
{
    match r {
        Ok(s) => {
            assert(pre.push(t) + s =~= pre + (seq![t] + s));
        },
        Err(_) => {},
    }
}

proof fn lemma_prefix_scan(pre: Seq<char>, c: char, r: Option<(Seq<char>, int)>)
    ensures
        prefix_scan(pre.push(c), r) == prefix_scan(pre, prefix_scan(seq![c], r)),
{
    match r {
        Some((v, j)) => {
            assert(pre.push(c) + v =~= pre + (seq![c] + v));
        },
        None => {},
    }
}

proof fn lemma_toks_push(ts: Seq<Token>, t: Token)
    ensures
        toks_view(ts.push(t)) == toks_view(ts).push(t@),
{
    assert(toks_view(ts.push(t)) =~= toks_view(ts).push(t@));
}

fn scan_quoted_exec(cs: &Vec<char>, k: usize, q: char) -> (r: Option<(String, usize)>)
    requires
        k <= cs.len(),
    ensures
        match r {
            Some((v, j)) => scan_quoted(cs@, k as int, q) == Some((v@, j as int)) && k < j
                <= cs.len(),
            None => scan_quoted(cs@, k as int, q) is None,
        },
{
    let mut value = String::new();
    let mut i: usize = k;
    assert(prefix_scan(value@, scan_quoted(cs@, i as int, q)) == scan_quoted(cs@, k as int, q)) by {
        match scan_quoted(cs@, k as int, q) {
            Some((v, j)) => {
                assert(value@ + v =~= v);
            },
            None => {},
        }
    }
    while i < cs.len()
        invariant
            k <= i <= cs.len(),
            scan_quoted(cs@, k as int, q) == prefix_scan(value@, scan_quoted(cs@, i as int, q)),
        decreases cs.len() - i,
    {
        let cur = cs[i];
        if cur == '\\' && i + 1 < cs.len() {
            let next = cs[i + 1];
            proof {
                lemma_prefix_scan(value@, next, scan_quoted(cs@, i + 2, q));
            }
            push_char(&mut value, next);
            i = i + 2;
            continue;
        }
        if cur == q {
            proof {
                assert(value@ + Seq::<char>::empty() =~= value@);
            }
            return Some((value, i + 1));
        }
        proof {
            lemma_prefix_scan(value@, cur, scan_quoted(cs@, i + 1, q));
        }
        push_char(&mut value, cur);
        i = i + 1;
    }
    None
}

fn is_delim_exec(c: char) -> (r: bool)
    ensures
        r == is_delim(c),
{
    is_whitespace(c) || c == '(' || c == ')' || c == '"' || c == '\''
}

/// Splits `cs` into tokens.
pub fn tokenize(cs: &Vec<char>) -> (r: Result<Vec<Token>, QueryError>)
    ensures
        match r {
            Ok(ts) => tokenize_from(cs@, 0) == Ok::<Seq<TokV>, QueryError>(toks_view(ts@)),
            Err(e) => tokenize_from(cs@, 0) == Err::<Seq<TokV>, QueryError>(e),
        },
{
    let mut tokens: Vec<Token> = Vec::new();
    let mut i: usize = 0;
    assert(prefix_toks(toks_view(tokens@), tokenize_from(cs@, 0)) == tokenize_from(cs@, 0)) by {
        match tokenize_from(cs@, 0) {
            Ok(s) => {
                assert(toks_view(tokens@) + s =~= s);
            },
            Err(_) => {},
        }
    }
    while i < cs.len()
        invariant
            i <= cs.len(),
            tokenize_from(cs@, 0) == prefix_toks(toks_view(tokens@), tokenize_from(cs@, i as int)),
        decreases cs.len() - i,
    {
        let ch = cs[i];
        if is_whitespace(ch) {
            i = i + 1;
            continue;
        }
        if ch == '(' {
            proof {
                lemma_prefix_toks(toks_view(tokens@), TokV::LParen, tokenize_from(cs@, i + 1));
                lemma_toks_push(tokens@, Token::LParen);
            }
            tokens.push(Token::LParen);
            i = i + 1;
            continue;
        }
        if ch == ')' {
            proof {
                lemma_prefix_toks(toks_view(tokens@), TokV::RParen, tokenize_from(cs@, i + 1));
                lemma_toks_push(tokens@, Token::RParen);
            }
            tokens.push(Token::RParen);
            i = i + 1;
            continue;
        }
        if ch == '"' || ch == '\'' {
            match scan_quoted_exec(cs, i + 1, ch) {
                None => {
                    return Err(QueryError::UnterminatedString);
                },
                Some((value, j)) => {
                    proof {
                        lemma_prefix_toks(
                            toks_view(tokens@),
                            TokV::Quoted(value@),
                            tokenize_from(cs@, j as int),
                        );
                        lemma_toks_push(tokens@, Token::Quoted(value));
                    }
                    tokens.push(Token::Quoted(value));
                    i = j;
                    continue;
                },
            }
        }
        let start = i;
        proof {
            lemma_word_end_bounds(cs@, i as int);
        }
        while i < cs.len() && !is_delim_exec(cs[i])
            invariant
                start <= i <= cs.len(),
                word_end(cs@, start as int) == word_end(cs@, i as int),
            decreases cs.len() - i,
        {
            i = i + 1;
        }
        let word = string_of_range(cs, start, i);
        proof {
            assert(i > start) by {
                assert(!is_delim(cs@[start as int]));
                if i == start {
                    assert(word_end(cs@, start as int) == word_end(cs@, start + 1));
                    lemma_word_end_bounds(cs@, start + 1);
                }
            }
            lemma_prefix_toks(
                toks_view(tokens@),
                TokV::Word(cs@.subrange(start as int, i as int)),
                tokenize_from(cs@, i as int),
            );
            lemma_toks_push(tokens@, Token::Word(word));
        }
        tokens.push(Token::Word(word));
    }
    proof {
        assert(toks_view(tokens@) + Seq::<TokV>::empty() =~= toks_view(tokens@));
    }
    Ok(tokens)
}

// ---------------------------------------------------------------------------
// Token-level grammar
// ---------------------------------------------------------------------------

/// The token at `p` is the word `kw`, ignoring ASCII case.
pub open spec fn is_word_ci(ts: Seq<TokV>, p: int, kw: Seq<char>) -> bool {
    0 <= p < ts.len() && (ts[p] matches TokV::Word(w) && ieq(w, kw))
}

/// The word or quoted string at `p` and the position after it.  `value`
/// selects the error reported on a parenthesis.
pub open spec fn next_value(ts: Seq<TokV>, p: int, value: bool) -> Result<(Seq<char>, int), QueryError> {
    if 0 <= p < ts.len() {
        match ts[p] {
            TokV::Word(w) => Ok((w, p + 1)),
            TokV::Quoted(w) => Ok((w, p + 1)),
            TokV::LParen => Err(
                if value {
                    QueryError::ExpectedValue('(')
                } else {
                    QueryError::ExpectedWord('(')
                },
            ),
            TokV::RParen => Err(
                if value {
                    QueryError::ExpectedValue(')')
                } else {
                    QueryError::ExpectedWord(')')
                },
            ),
        }
    } else {
        Err(QueryError::UnexpectedEnd)
    }
}

pub open spec fn is_directive(ts: Seq<TokV>, p: int) -> bool {
    ||| is_word_ci(ts, p, "ORDER"@)
    ||| is_word_ci(ts, p, "LIMIT"@)
    ||| is_word_ci(ts, p, "OFFSET"@)
    ||| is_word_ci(ts, p, "EXPLAIN"@)
    ||| is_word_ci(ts, p, "EXPAND"@)
    ||| is_word_ci(ts, p, "DEPTH"@)
}

pub open spec fn should_end(ts: Seq<TokV>, p: int) -> bool {
    !(0 <= p < ts.len()) || ts[p] is RParen || is_directive(ts, p)
}

pub open spec fn preset_of(w: Seq<char>) -> Option<QueryPreset> {
    let k = lower(w);
    if k == "services"@ || k == "service"@ {
        Some(QueryPreset::Services)
    } else if k == "technologies"@ || k == "technology"@ || k == "tech"@ {
        Some(QueryPreset::Technologies)
    } else if k == "episodes"@ || k == "episode"@ {
        Some(QueryPreset::Episodes)
    } else if k == "high-degree"@ || k == "high_degree"@ || k == "hubs"@ || k == "hub"@ {
        Some(QueryPreset::HighDegree)
    } else if k == "subdomains"@ || k == "subdomain"@ {
        Some(QueryPreset::Subdomains)
    } else if k == "targets"@ || k == "target"@ {
        Some(QueryPreset::Targets)
    } else if k == "ips"@ || k == "ip"@ {
        Some(QueryPreset::Ips)
    } else {
        None
    }
}

pub open spec fn field_of(s: Seq<char>) -> Option<QueryField> {
    let k = lower(s);
    if k == "kind"@ {
        Some(QueryField::Kind)
    } else if k == "label"@ {
        Some(QueryField::Label)
    } else if k == "technology"@ || k == "tech"@ || k == "has_technology"@ || k
        == "has-technology"@ {
        Some(QueryField::Technology)
    } else if k == "degree"@ {
        Some(QueryField::Degree)
    } else if k == "episode_kind"@ || k == "episode-kind"@ {
        Some(QueryField::EpisodeKind)
    } else if k == "severity"@ {
        Some(QueryField::Severity)
    } else if k == "criticality"@ {
        Some(QueryField::Criticality)
    } else if k == "state"@ {
        Some(QueryField::State)
    } else if k == "first_seen"@ || k == "first-seen"@ {
        Some(QueryField::FirstSeen)
    } else if k == "last_seen"@ || k == "last-seen"@ {
        Some(QueryField::LastSeen)
    } else if k == "source"@ {
        Some(QueryField::Source)
    } else if k == "target"@ {
        Some(QueryField::Target)
    } else if k == "title"@ {
        Some(QueryField::Title)
    } else if k == "provider"@ {
        Some(QueryField::Provider)
    } else if k == "status"@ {
        Some(QueryField::Status)
    } else if k == "scheme"@ {
        Some(QueryField::Scheme)
    } else if k == "tls_enabled"@ || k == "tls-enabled"@ || k == "tls"@ {
        Some(QueryField::TlsEnabled)
    } else if k == "score"@ {
        Some(QueryField::Score)
    } else if k == "resource_count"@ || k == "resource-count"@ {
        Some(QueryField::ResourceCount)
    } else if k == "neighbor_kind"@ || k == "neighbor-kind"@ {
        Some(QueryField::NeighborKind)
    } else if k == "edge_kind"@ || k == "edge-kind"@ {
        Some(QueryField::EdgeKind)
    } else if k == "connected_to"@ || k == "connected-to"@ || k == "neighbor"@ {
        Some(QueryField::ConnectedTo)
    } else if k == "in_episode"@ || k == "in-episode"@ {
        Some(QueryField::InEpisode)
    } else {
        None
    }
}

pub open spec fn sort_field_of(s: Seq<char>) -> Option<SortField> {
    let k = lower(s);
    if k == "degree"@ {
        Some(SortField::Degree)
    } else if k == "label"@ {
        Some(SortField::Label)
    } else if k == "kind"@ {
        Some(SortField::Kind)
    } else if k == "first_seen"@ || k == "first-seen"@ {
        Some(SortField::FirstSeen)
    } else if k == "last_seen"@ || k == "last-seen"@ {
        Some(SortField::LastSeen)
    } else if k == "score"@ {
        Some(SortField::Score)
    } else if k == "severity"@ {
        Some(SortField::Severity)
    } else if k == "criticality"@ {
        Some(SortField::Criticality)
    } else {
        None
    }
}

/// Comparison operators, matched exactly.
pub open spec fn comparator_of(s: Seq<char>) -> Option<Comparator> {
    if s == "="@ {
        Some(Comparator::Eq)
    } else if s == "~"@ {
        Some(Comparator::Contains)
    } else if s == ">"@ {
        Some(Comparator::Gt)
    } else if s == ">="@ {
        Some(Comparator::Gte)
    } else if s == "<"@ {
        Some(Comparator::Lt)
    } else if s == "<="@ {
        Some(Comparator::Lte)
    } else {
        None
    }
}

/// Boolean spellings are normalized to `true` / `false`; anything else is kept.
pub open spec fn norm_bool(s: Seq<char>) -> Seq<char> {
    let k = lower(s);
    if k == "true"@ || k == "yes"@ || k == "1"@ {
        "true"@
    } else if k == "false"@ || k == "no"@ || k == "0"@ {
        "false"@
    } else {
        s
    }
}

/// The operators tried, in order, when a clause is written as one word.
pub open spec fn op_at(k: int) -> Seq<char> {
    if k == 0 {
        "<="@
    } else if k == 1 {
        ">="@
    } else if k == 2 {
        "~"@
    } else if k == 3 {
        "="@
    } else if k == 4 {
        ">"@
    } else {
        "<"@
    }
}

/// The trimmed text before and after the first occurrence of `op`.
pub open spec fn split_parts(input: Seq<char>, op: Seq<char>) -> Option<(Seq<char>, Seq<char>)> {
    match find(input, op) {
        Some(idx) => Some(
            (trim(input.subrange(0, idx)), trim(input.subrange(idx + op.len(), input.len() as int))),
        ),
        None => None,
    }
}

/// `field op value` written as one word.
pub open spec fn split_inline(input: Seq<char>, k: int) -> Option<(Seq<char>, Seq<char>, Seq<char>)>
    decreases 6 - k,
{
    if 0 <= k < 6 {
        match split_parts(input, op_at(k)) {
            Some((f, r)) => if f.len() > 0 && r.len() > 0 {
                Some((f, op_at(k), r))
            } else {
                split_inline(input, k + 1)
            },
            None => split_inline(input, k + 1),
        }
    } else {
        None
    }
}

/// `field op` written as one word, the value following as its own token.
pub open spec fn split_no_rhs(input: Seq<char>, k: int) -> Option<(Seq<char>, Seq<char>)>
    decreases 6 - k,
{
    if 0 <= k < 6 {
        match split_parts(input, op_at(k)) {
            Some((f, r)) => if f.len() > 0 && r.len() == 0 {
                Some((f, op_at(k)))
            } else {
                split_no_rhs(input, k + 1)
            },
            None => split_no_rhs(input, k + 1),
        }
    } else {
        None
    }
}

pub open spec fn mk_clause(f: Seq<char>, op: Seq<char>, v: Seq<char>, q: int) -> Result<(ClauseV, int), QueryError> {
    match field_of(f) {
        None => Err(QueryError::UnsupportedField),
        Some(field) => match comparator_of(op) {
            None => Err(QueryError::UnsupportedOperator),
            Some(c) => Ok((ClauseV { field, comparator: c, value: norm_bool(v) }, q)),
        },
    }
}

/// A clause: `field=value`, `field= value`, or `field = value`.
pub open spec fn parse_clause_spec(ts: Seq<TokV>, p: int) -> Result<(ClauseV, int), QueryError> {
    match next_value(ts, p, true) {
        Err(e) => Err(e),
        Ok((first, p1)) => match split_inline(first, 0) {
            Some((f, op, r)) => mk_clause(f, op, r, p1),
            None => match split_no_rhs(first, 0) {
                Some((f, op)) => match next_value(ts, p1, true) {
                    Err(e) => Err(e),
                    Ok((v, p2)) => mk_clause(f, op, v, p2),
                },
                None => match field_of(first) {
                    None => Err(QueryError::UnsupportedField),
                    Some(_) => match next_value(ts, p1, false) {
                        Err(e) => Err(e),
                        Ok((op, p2)) => match next_value(ts, p2, true) {
                            Err(e) => Err(e),
                            Ok((v, p3)) => mk_clause(first, op, v, p3),
                        },
                    },
                },
            },
        },
    }
}

pub open spec fn finish_and(items: Seq<ExprV>) -> ExprV {
    if items.len() == 1 {
        items[0]
    } else {
        ExprV::And(items)
    }
}

pub open spec fn finish_or(items: Seq<ExprV>) -> ExprV {
    if items.len() == 1 {
        items[0]
    } else {
        ExprV::Or(items)
    }
}

/// `or := and (OR and)*`
pub open spec fn parse_or_spec(ts: Seq<TokV>, p: int) -> Result<(ExprV, int), QueryError>
    decreases ts.len() - p, 6int,
{
    match parse_and_spec(ts, p) {
        Err(e) => Err(e),
        Ok((e, q)) => if p < q <= ts.len() {
            or_tail(ts, q, seq![e])
        } else {
            Err(QueryError::UnexpectedEnd)
        },
    }
}

pub open spec fn or_tail(ts: Seq<TokV>, p: int, items: Seq<ExprV>) -> Result<(ExprV, int), QueryError>
    decreases ts.len() - p, 5int,
{
    if is_word_ci(ts, p, "OR"@) {
        match parse_and_spec(ts, p + 1) {
            Err(e) => Err(e),
            Ok((e, q)) => if p < q <= ts.len() {
                or_tail(ts, q, items.push(e))
            } else {
                Err(QueryError::UnexpectedEnd)
            },
        }
    } else {
        Ok((finish_or(items), p))
    }
}

/// `and := not ((AND)? not)*`, stopping at `OR`, `)`, a directive or the end.
pub open spec fn parse_and_spec(ts: Seq<TokV>, p: int) -> Result<(ExprV, int), QueryError>
    decreases ts.len() - p, 4int,
{
    match parse_not_spec(ts, p) {
        Err(e) => Err(e),
        Ok((e, q)) => if p < q <= ts.len() {
            and_tail(ts, q, seq![e])
        } else {
            Err(QueryError::UnexpectedEnd)
        },
    }
}

pub open spec fn and_tail(ts: Seq<TokV>, p: int, items: Seq<ExprV>) -> Result<(ExprV, int), QueryError>
    decreases ts.len() - p, 3int,
{
    if is_word_ci(ts, p, "AND"@) {
        match parse_not_spec(ts, p + 1) {
            Err(e) => Err(e),
            Ok((e, q)) => if p < q <= ts.len() {
                and_tail(ts, q, items.push(e))
            } else {
                Err(QueryError::UnexpectedEnd)
            },
        }
    } else if should_end(ts, p) || is_word_ci(ts, p, "OR"@) {
        Ok((finish_and(items), p))
    } else if 0 <= p < ts.len() {
        match parse_not_spec(ts, p) {
            Err(e) => Err(e),
            Ok((e, q)) => if p < q <= ts.len() {
                and_tail(ts, q, items.push(e))
            } else {
                Err(QueryError::UnexpectedEnd)
            },
        }
    } else {
        Ok((finish_and(items), p))
    }
}

/// `not := NOT not | primary`
pub open spec fn parse_not_spec(ts: Seq<TokV>, p: int) -> Result<(ExprV, int), QueryError>
    decreases ts.len() - p, 2int,
{
    if is_word_ci(ts, p, "NOT"@) {
        match parse_not_spec(ts, p + 1) {
            Err(e) => Err(e),
            Ok((e, q)) => Ok((ExprV::Not(Box::new(e)), q)),
        }
    } else {
        parse_primary_spec(ts, p)
    }
}

/// `primary := ( or ) | clause`
pub open spec fn parse_primary_spec(ts: Seq<TokV>, p: int) -> Result<(ExprV, int), QueryError>
    decreases ts.len() - p, 1int,
{
    if 0 <= p < ts.len() {
        match ts[p] {
            TokV::LParen => match parse_or_spec(ts, p + 1) {
                Err(e) => Err(e),
                Ok((e, q)) => if 0 <= q < ts.len() && ts[q] is RParen {
                    Ok((e, q + 1))
                } else {
                    Err(QueryError::ExpectedClosingParen)
                },
            },
            TokV::RParen => Err(QueryError::UnexpectedClosingParen),
            _ => match parse_clause_spec(ts, p) {
                Err(e) => Err(e),
                Ok((c, q)) => Ok((ExprV::Clause(c), q)),
            },
        }
    } else {
        Err(QueryError::UnexpectedEnd)
    }
}

/// The settings that the trailing directives give.
#[derive(Clone, Copy)]
pub struct DirState {
    pub sort: Option<SortSpec>,
    pub limit: usize,
    pub offset: usize,
    pub expand: usize,
    pub depth: usize,
    pub explain: bool,
}

/// A numeric directive at `p`: the updated settings and the position after its value.
pub open spec fn number_directive(ts: Seq<TokV>, p: int, st: DirState, d: Directive) -> Result<(DirState, int), QueryError> {
    match next_value(ts, p + 1, false) {
        Err(e) => Err(e),
        Ok((v, q)) => match parse_usize(v) {
            None => Err(QueryError::NotNumeric(d)),
            Some(n) => Ok(
                (
                    match d {
                        Directive::Limit => DirState { limit: n, ..st },
                        Directive::Offset => DirState { offset: n, ..st },
                        Directive::Expand => DirState { expand: n, ..st },
                        Directive::Depth => DirState { depth: n, ..st },
                    },
                    q,
                ),
            ),
        },
    }
}

/// `ORDER BY f [ASC|DESC]`, `LIMIT n`, `OFFSET n`, `EXPAND n`, `DEPTH n` and
/// `EXPLAIN`, in any order, up to the end of the query.
pub open spec fn directives(ts: Seq<TokV>, p: int, st: DirState) -> Result<DirState, QueryError>
    decreases ts.len() - p, 1int,
{
    if 0 <= p < ts.len() {
        if is_word_ci(ts, p, "ORDER"@) {
            match next_value(ts, p + 1, false) {
                Err(e) => Err(e),
                Ok((by, p2)) => if !ieq(by, "BY"@) {
                    Err(QueryError::ExpectedBy)
                } else {
                    match next_value(ts, p2, false) {
                        Err(e) => Err(e),
                        Ok((f, p3)) => match sort_field_of(f) {
                            None => Err(QueryError::UnsupportedSortField),
                            Some(field) => {
                                let asc = is_word_ci(ts, p3, "ASC"@);
                                let desc = is_word_ci(ts, p3, "DESC"@);
                                let direction = if asc {
                                    SortDirection::Asc
                                } else {
                                    SortDirection::Desc
                                };
                                let p4 = if asc || desc {
                                    p3 + 1
                                } else {
                                    p3
                                };
                                if p < p4 <= ts.len() {
                                    directives(
                                        ts,
                                        p4,
                                        DirState { sort: Some(SortSpec { field, direction }), ..st },
                                    )
                                } else {
                                    Err(QueryError::UnexpectedEnd)
                                }
                            },
                        },
                    }
                },
            }
        } else if is_word_ci(ts, p, "LIMIT"@) || is_word_ci(ts, p, "OFFSET"@) || is_word_ci(
            ts,
            p,
            "EXPAND"@,
        ) || is_word_ci(ts, p, "DEPTH"@) {
            let d = if is_word_ci(ts, p, "LIMIT"@) {
                Directive::Limit
            } else if is_word_ci(ts, p, "OFFSET"@) {
                Directive::Offset
            } else if is_word_ci(ts, p, "EXPAND"@) {
                Directive::Expand
            } else {
                Directive::Depth
            };
            match number_directive(ts, p, st, d) {
                Err(e) => Err(e),
                Ok((st2, q)) => if p < q <= ts.len() {
                    directives(ts, q, st2)
                } else {
                    Err(QueryError::UnexpectedEnd)
                },
            }
        } else if is_word_ci(ts, p, "EXPLAIN"@) {
            directives(ts, p + 1, DirState { explain: true, ..st })
        } else {
            Err(QueryError::UnexpectedToken)
        }
    } else {
        Ok(st)
    }
}

/// The preset named at `p`, if any, and the position after it.
pub open spec fn preset_at(ts: Seq<TokV>, p: int) -> (Option<QueryPreset>, int) {
    if 0 <= p < ts.len() {
        match ts[p] {
            TokV::Word(w) => match preset_of(w) {
                Some(pr) => (Some(pr), p + 1),
                None => (None, p),
            },
            _ => (None, p),
        }
    } else {
        (None, p)
    }
}

pub open spec fn path_request(raw: Seq<char>, ts: Seq<TokV>, p: int, explain: bool, default_limit: usize) -> Result<RequestV, QueryError> {
    match next_value(ts, p, true) {
        Err(e) => Err(e),
        Ok((from, p1)) => match next_value(ts, p1, false) {
            Err(e) => Err(e),
            Ok((arrow, p2)) => if arrow != "->"@ {
                Err(QueryError::PathSyntax)
            } else {
                match next_value(ts, p2, true) {
                    Err(e) => Err(e),
                    Ok((to, _)) => Ok(
                        RequestV {
                            raw,
                            mode: QueryMode::Path,
                            preset: None,
                            expr: None,
                            limit: default_limit,
                            offset: 0,
                            sort: None,
                            explain,
                            expand_depth: 0,
                            neighbors_depth: 0,
                            path_from: Some(from),
                            path_to: Some(to),
                        },
                    ),
                }
            },
        },
    }
}

pub open spec fn filter_request(raw: Seq<char>, ts: Seq<TokV>, p0: int, explain: bool, default_limit: usize) -> Result<RequestV, QueryError> {
    let neighbors = is_word_ci(ts, p0, "NEIGHBORS"@);
    let p1 = if neighbors {
        p0 + 1
    } else {
        p0
    };
    let mode = if neighbors {
        QueryMode::Neighbors
    } else {
        QueryMode::Filter
    };
    let (preset, p2) = preset_at(ts, p1);
    let er: Result<(Option<ExprV>, int), QueryError> = if !(0 <= p2 < ts.len()) || is_directive(
        ts,
        p2,
    ) {
        Ok((None, p2))
    } else {
        match parse_or_spec(ts, p2) {
            Err(e) => Err(e),
            Ok((e, q)) => Ok((Some(e), q)),
        }
    };
    match er {
        Err(e) => Err(e),
        Ok((expr, p3)) => finish_filter(
            raw,
            mode,
            preset,
            expr,
            directives(
                ts,
                p3,
                DirState { sort: None, limit: default_limit, offset: 0, expand: 0, depth: 1, explain },
            ),
        ),
    }
}

pub open spec fn finish_filter(
    raw: Seq<char>,
    mode: QueryMode,
    preset: Option<QueryPreset>,
    expr: Option<ExprV>,
    r: Result<DirState, QueryError>,
) -> Result<RequestV, QueryError> {
    match r {
        Err(e) => Err(e),
        Ok(st) => Ok(
            RequestV {
                raw,
                mode,
                preset,
                expr,
                limit: st.limit,
                offset: st.offset,
                sort: st.sort,
                explain: st.explain,
                expand_depth: st.expand,
                neighbors_depth: st.depth,
                path_from: None,
                path_to: None,
            },
        ),
    }
}

/// The whole query language: `[EXPLAIN] PATH <from> -> <to>`, or
/// `[EXPLAIN] [NEIGHBORS] [preset] [expression] directives*`.
pub open spec fn parse_query_spec(input: Seq<char>, default_limit: usize) -> Result<RequestV, QueryError> {
    let raw = trim(input);
    if raw.len() == 0 {
        Err(QueryError::Empty)
    } else {
        match tokenize_from(raw, 0) {
            Err(e) => Err(e),
            Ok(ts) => {
                let explain = is_word_ci(ts, 0, "EXPLAIN"@);
                let p0: int = if explain {
                    1
                } else {
                    0
                };
                if is_word_ci(ts, p0, "PATH"@) {
                    path_request(raw, ts, p0 + 1, explain, default_limit)
                } else {
                    filter_request(raw, ts, p0, explain, default_limit)
                }
            },
        }
    }
}

// ---------------------------------------------------------------------------
// Executable parser
// ---------------------------------------------------------------------------

fn word_ci(ts: &Vec<Token>, p: usize, kw: &str) -> (r: bool)
    ensures
        r == is_word_ci(toks_view(ts@), p as int, kw@),
{
    if p < ts.len() {
        match &ts[p] {
            Token::Word(w) => eq_ignore_case(w.as_str(), kw),
            _ => false,
        }
    } else {
        false
    }
}

fn next_value_exec(ts: &Vec<Token>, p: usize, value: bool) -> (r: Result<(String, usize), QueryError>)
    ensures
        match r {
            Ok((s, q)) => next_value(toks_view(ts@), p as int, value) == Ok::<
                (Seq<char>, int),
                QueryError,
            >((s@, q as int)) && q == p + 1 && q <= ts.len(),
            Err(e) => next_value(toks_view(ts@), p as int, value) == Err::<
                (Seq<char>, int),
                QueryError,
            >(e),
        },
{
    if p < ts.len() {
        match &ts[p] {
            Token::Word(w) => Ok((w.clone(), p + 1)),
            Token::Quoted(w) => Ok((w.clone(), p + 1)),
            Token::LParen => Err(
                if value {
                    QueryError::ExpectedValue('(')
                } else {
                    QueryError::ExpectedWord('(')
                },
            ),
            Token::RParen => Err(
                if value {
                    QueryError::ExpectedValue(')')
                } else {
                    QueryError::ExpectedWord(')')
                },
            ),
        }
    } else {
        Err(QueryError::UnexpectedEnd)
    }
}

fn is_directive_exec(ts: &Vec<Token>, p: usize) -> (r: bool)
    ensures
        r == is_directive(toks_view(ts@), p as int),
{
    word_ci(ts, p, "ORDER") || word_ci(ts, p, "LIMIT") || word_ci(ts, p, "OFFSET") || word_ci(
        ts,
        p,
        "EXPLAIN",
    ) || word_ci(ts, p, "EXPAND") || word_ci(ts, p, "DEPTH")
}

fn should_end_exec(ts: &Vec<Token>, p: usize) -> (r: bool)
    ensures
        r == should_end(toks_view(ts@), p as int),
{
    if p >= ts.len() {
        return true;
    }
    let rp = match &ts[p] {
        Token::RParen => true,
        _ => false,
    };
    rp || is_directive_exec(ts, p)
}

/// Parses a preset name, ignoring ASCII case.
pub fn parse_preset(token: &str) -> (r: Option<QueryPreset>)
    ensures
        r == preset_of(token@),
{
    let k = lower_vec(&chars_of(token));
    if eq_lit(&k, "services") || eq_lit(&k, "service") {
        Some(QueryPreset::Services)
    } else if eq_lit(&k, "technologies") || eq_lit(&k, "technology") || eq_lit(&k, "tech") {
        Some(QueryPreset::Technologies)
    } else if eq_lit(&k, "episodes") || eq_lit(&k, "episode") {
        Some(QueryPreset::Episodes)
    } else if eq_lit(&k, "high-degree") || eq_lit(&k, "high_degree") || eq_lit(&k, "hubs")
        || eq_lit(&k, "hub") {
        Some(QueryPreset::HighDegree)
    } else if eq_lit(&k, "subdomains") || eq_lit(&k, "subdomain") {
        Some(QueryPreset::Subdomains)
    } else if eq_lit(&k, "targets") || eq_lit(&k, "target") {
        Some(QueryPreset::Targets)
    } else if eq_lit(&k, "ips") || eq_lit(&k, "ip") {
        Some(QueryPreset::Ips)
    } else {
        None
    }
}

/// Parses a field name, ignoring ASCII case.
pub fn parse_field(input: &[char]) -> (r: Option<QueryField>)
    ensures
        r == field_of(input@),
{
    let k = lower_vec(input);
    if eq_lit(&k, "kind") {
        Some(QueryField::Kind)
    } else if eq_lit(&k, "label") {
        Some(QueryField::Label)
    } else if eq_lit(&k, "technology") || eq_lit(&k, "tech") || eq_lit(&k, "has_technology")
        || eq_lit(&k, "has-technology") {
        Some(QueryField::Technology)
    } else if eq_lit(&k, "degree") {
        Some(QueryField::Degree)
    } else if eq_lit(&k, "episode_kind") || eq_lit(&k, "episode-kind") {
        Some(QueryField::EpisodeKind)
    } else if eq_lit(&k, "severity") {
        Some(QueryField::Severity)
    } else if eq_lit(&k, "criticality") {
        Some(QueryField::Criticality)
    } else if eq_lit(&k, "state") {
        Some(QueryField::State)
    } else if eq_lit(&k, "first_seen") || eq_lit(&k, "first-seen") {
        Some(QueryField::FirstSeen)
    } else if eq_lit(&k, "last_seen") || eq_lit(&k, "last-seen") {
        Some(QueryField::LastSeen)
    } else if eq_lit(&k, "source") {
        Some(QueryField::Source)
    } else if eq_lit(&k, "target") {
        Some(QueryField::Target)
    } else if eq_lit(&k, "title") {
        Some(QueryField::Title)
    } else if eq_lit(&k, "provider") {
        Some(QueryField::Provider)
    } else if eq_lit(&k, "status") {
        Some(QueryField::Status)
    } else if eq_lit(&k, "scheme") {
        Some(QueryField::Scheme)
    } else if eq_lit(&k, "tls_enabled") || eq_lit(&k, "tls-enabled") || eq_lit(&k, "tls") {
        Some(QueryField::TlsEnabled)
    } else if eq_lit(&k, "score") {
        Some(QueryField::Score)
    } else if eq_lit(&k, "resource_count") || eq_lit(&k, "resource-count") {
        Some(QueryField::ResourceCount)
    } else if eq_lit(&k, "neighbor_kind") || eq_lit(&k, "neighbor-kind") {
        Some(QueryField::NeighborKind)
    } else if eq_lit(&k, "edge_kind") || eq_lit(&k, "edge-kind") {
        Some(QueryField::EdgeKind)
    } else if eq_lit(&k, "connected_to") || eq_lit(&k, "connected-to") || eq_lit(&k, "neighbor") {
        Some(QueryField::ConnectedTo)
    } else if eq_lit(&k, "in_episode") || eq_lit(&k, "in-episode") {
        Some(QueryField::InEpisode)
    } else {
        None
    }
}

/// Parses an `ORDER BY` field name, ignoring ASCII case.
pub fn parse_sort_field(input: &str) -> (r: Option<SortField>)
    ensures
        r == sort_field_of(input@),
{
    let k = lower_vec(&chars_of(input));
    if eq_lit(&k, "degree") {
        Some(SortField::Degree)
    } else if eq_lit(&k, "label") {
        Some(SortField::Label)
    } else if eq_lit(&k, "kind") {
        Some(SortField::Kind)
    } else if eq_lit(&k, "first_seen") || eq_lit(&k, "first-seen") {
        Some(SortField::FirstSeen)
    } else if eq_lit(&k, "last_seen") || eq_lit(&k, "last-seen") {
        Some(SortField::LastSeen)
    } else if eq_lit(&k, "score") {
        Some(SortField::Score)
    } else if eq_lit(&k, "severity") {
        Some(SortField::Severity)
    } else if eq_lit(&k, "criticality") {
        Some(SortField::Criticality)
    } else {
        None
    }
}

/// Parses a comparison operator.
pub fn parse_comparator(input: &[char]) -> (r: Option<Comparator>)
    ensures
        r == comparator_of(input@),
{
    if eq_lit(input, "=") {
        Some(Comparator::Eq)
    } else if eq_lit(input, "~") {
        Some(Comparator::Contains)
    } else if eq_lit(input, ">") {
        Some(Comparator::Gt)
    } else if eq_lit(input, ">=") {
        Some(Comparator::Gte)
    } else if eq_lit(input, "<") {
        Some(Comparator::Lt)
    } else if eq_lit(input, "<=") {
        Some(Comparator::Lte)
    } else {
        None
    }
}

/// Normalizes boolean spellings to `true` / `false`.
pub fn normalize_boolean_literal(input: &[char]) -> (r: String)
    ensures
        r@ == norm_bool(input@),
{
    let k = lower_vec(input);
    if eq_lit(&k, "true") || eq_lit(&k, "yes") || eq_lit(&k, "1") {
        owned("true")
    } else if eq_lit(&k, "false") || eq_lit(&k, "no") || eq_lit(&k, "0") {
        owned("false")
    } else {
        string_of(input)
    }
}

fn op_str(k: usize) -> (r: &'static str)
    ensures
        r@ == op_at(k as int),
{
    if k == 0 {
        "<="
    } else if k == 1 {
        ">="
    } else if k == 2 {
        "~"
    } else if k == 3 {
        "="
    } else if k == 4 {
        ">"
    } else {
        "<"
    }
}

fn split_parts_exec(input: &[char], op: &str) -> (r: Option<(Vec<char>, Vec<char>)>)
    ensures
        match r {
            Some((f, x)) => split_parts(input@, op@) == Some((f@, x@)),
            None => split_parts(input@, op@) is None,
        },
{
    let o = chars_of(op);
    match find_vec(input, &o) {
        Some(idx) => {
            let olen = o.len();
            let ilen = input.len();
            assert(idx + olen <= ilen);
            let left = slice_vec(input, 0, idx);
            let right = slice_vec(input, idx + olen, ilen);
            let tl = trim_vec(&left);
            let tr = trim_vec(&right);
            assert(find(input@, op@) == Some(idx as int));
            Some((tl, tr))
        },
        None => {
            assert(find(input@, op@) is None);
            None
        },
    }
}

fn split_inline_exec(input: &[char]) -> (r: Option<(Vec<char>, Vec<char>, Vec<char>)>)
    ensures
        match r {
            Some((f, op, x)) => split_inline(input@, 0) == Some((f@, op@, x@)),
            None => split_inline(input@, 0) is None,
        },
{
    let mut k: usize = 0;
    while k < 6
        invariant
            k <= 6,
            split_inline(input@, 0) == split_inline(input@, k as int),
        decreases 6 - k,
    {
        let op = op_str(k);
        match split_parts_exec(input, op) {
            Some((f, x)) => {
                if f.len() > 0 && x.len() > 0 {
                    return Some((f, chars_of(op), x));
                }
            },
            None => {},
        }
        k = k + 1;
    }
    None
}

fn split_no_rhs_exec(input: &[char]) -> (r: Option<(Vec<char>, Vec<char>)>)
    ensures
        match r {
            Some((f, op)) => split_no_rhs(input@, 0) == Some((f@, op@)),
            None => split_no_rhs(input@, 0) is None,
        },
{
    let mut k: usize = 0;
    while k < 6
        invariant
            k <= 6,
            split_no_rhs(input@, 0) == split_no_rhs(input@, k as int),
        decreases 6 - k,
    {
        let op = op_str(k);
        match split_parts_exec(input, op) {
            Some((f, x)) => {
                if f.len() > 0 && x.len() == 0 {
                    return Some((f, chars_of(op)));
                }
            },
            None => {},
        }
        k = k + 1;
    }
    None
}

fn mk_clause_exec(f: &[char], op: &[char], v: &[char], q: usize) -> (r: Result<(QueryClause, usize), QueryError>)
    ensures
        match r {
            Ok((c, q2)) => mk_clause(f@, op@, v@, q as int) == Ok::<(ClauseV, int), QueryError>(
                (c@, q2 as int),
            ) && q2 == q,
            Err(e) => mk_clause(f@, op@, v@, q as int) == Err::<(ClauseV, int), QueryError>(e),
        },
{
    let field = match parse_field(f) {
        None => return Err(QueryError::UnsupportedField),
        Some(x) => x,
    };
    let comparator = match parse_comparator(op) {
        None => return Err(QueryError::UnsupportedOperator),
        Some(x) => x,
    };
    let value = normalize_boolean_literal(v);
    Ok((QueryClause { field, comparator, value }, q))
}

fn parse_clause(ts: &Vec<Token>, p: usize) -> (r: Result<(QueryClause, usize), QueryError>)
    ensures
        match r {
            Ok((c, q)) => parse_clause_spec(toks_view(ts@), p as int) == Ok::<
                (ClauseV, int),
                QueryError,
            >((c@, q as int)) && p < q <= ts.len(),
            Err(e) => parse_clause_spec(toks_view(ts@), p as int) == Err::<
                (ClauseV, int),
                QueryError,
            >(e),
        },
{
    let (first, p1) = match next_value_exec(ts, p, true) {
        Err(e) => return Err(e),
        Ok(x) => x,
    };
    let fc = chars_of(first.as_str());
    match split_inline_exec(&fc) {
        Some((f, op, x)) => {
            return mk_clause_exec(&f, &op, &x, p1);
        },
        None => {},
    }
    match split_no_rhs_exec(&fc) {
        Some((f, op)) => {
            let (v, p2) = match next_value_exec(ts, p1, true) {
                Err(e) => return Err(e),
                Ok(x) => x,
            };
            let vc = chars_of(v.as_str());
            return mk_clause_exec(&f, &op, &vc, p2);
        },
        None => {},
    }
    match parse_field(&fc) {
        None => {
            return Err(QueryError::UnsupportedField);
        },
        Some(_) => {},
    }
    let (op, p2) = match next_value_exec(ts, p1, false) {
        Err(e) => return Err(e),
        Ok(x) => x,
    };
    let (v, p3) = match next_value_exec(ts, p2, true) {
        Err(e) => return Err(e),
        Ok(x) => x,
    };
    let oc = chars_of(op.as_str());
    let vc = chars_of(v.as_str());
    mk_clause_exec(&fc, &oc, &vc, p3)
}

fn finish_items(items: Vec<QueryExpr>, is_and: bool) -> (r: QueryExpr)
    requires
        items.len() >= 1,
    ensures
        is_and ==> r@ == finish_and(views(items@)),
        !is_and ==> r@ == finish_or(views(items@)),
{
    proof {
        lemma_and_view(items);
    }
    if items.len() == 1 {
        let mut items = items;
        let ghost old_items = items@;
        let e = items.pop().unwrap();
        assert(e == old_items[0]);
        e
    } else if is_and {
        QueryExpr::And(items)
    } else {
        QueryExpr::Or(items)
    }
}

proof fn lemma_views_push(items: Seq<QueryExpr>, e: QueryExpr)
    ensures
        views(items.push(e)) == views(items).push(e@),
{
    assert(views(items.push(e)) =~= views(items).push(e@));
}

fn parse_or(ts: &Vec<Token>, p: usize) -> (r: Result<(QueryExpr, usize), QueryError>)
    requires
        p <= ts.len(),
    ensures
        match r {
            Ok((e, q)) => parse_or_spec(toks_view(ts@), p as int) == Ok::<(ExprV, int), QueryError>(
                (e@, q as int),
            ) && p < q <= ts.len(),
            Err(err) => parse_or_spec(toks_view(ts@), p as int) == Err::<(ExprV, int), QueryError>(
                err,
            ),
        },
    decreases ts.len() - p, 6int,
{
    let ghost tv = toks_view(ts@);
    let (e0, q0) = match parse_and(ts, p) {
        Err(e) => return Err(e),
        Ok(x) => x,
    };
    let mut items: Vec<QueryExpr> = Vec::new();
    items.push(e0);
    let mut cur = q0;
    assert(views(items@) =~= seq![e0@]);
    loop
        invariant
            p < cur <= ts.len(),
            items.len() >= 1,
            tv == toks_view(ts@),
            parse_or_spec(tv, p as int) == or_tail(tv, cur as int, views(items@)),
        decreases ts.len() - cur,
    {
        if word_ci(ts, cur, "OR") {
            let (e, q) = match parse_and(ts, cur + 1) {
                Err(err) => return Err(err),
                Ok(x) => x,
            };
            proof {
                lemma_views_push(items@, e);
            }
            items.push(e);
            cur = q;
        } else {
            let r = finish_items(items, false);
            return Ok((r, cur));
        }
    }
}

fn parse_and(ts: &Vec<Token>, p: usize) -> (r: Result<(QueryExpr, usize), QueryError>)
    requires
        p <= ts.len(),
    ensures
        match r {
            Ok((e, q)) => parse_and_spec(toks_view(ts@), p as int) == Ok::<(ExprV, int), QueryError>(
                (e@, q as int),
            ) && p < q <= ts.len(),
            Err(err) => parse_and_spec(toks_view(ts@), p as int) == Err::<(ExprV, int), QueryError>(
                err,
            ),
        },
    decreases ts.len() - p, 4int,
{
    let ghost tv = toks_view(ts@);
    let (e0, q0) = match parse_not(ts, p) {
        Err(e) => return Err(e),
        Ok(x) => x,
    };
    let mut items: Vec<QueryExpr> = Vec::new();
    items.push(e0);
    let mut cur = q0;
    assert(views(items@) =~= seq![e0@]);
    loop
        invariant
            p < cur <= ts.len(),
            items.len() >= 1,
            tv == toks_view(ts@),
            parse_and_spec(tv, p as int) == and_tail(tv, cur as int, views(items@)),
        decreases ts.len() - cur,
    {
        if word_ci(ts, cur, "AND") {
            let (e, q) = match parse_not(ts, cur + 1) {
                Err(err) => return Err(err),
                Ok(x) => x,
            };
            proof {
                lemma_views_push(items@, e);
            }
            items.push(e);
            cur = q;
        } else if should_end_exec(ts, cur) || word_ci(ts, cur, "OR") {
            let r = finish_items(items, true);
            return Ok((r, cur));
        } else if cur < ts.len() {
            let (e, q) = match parse_not(ts, cur) {
                Err(err) => return Err(err),
                Ok(x) => x,
            };
            proof {
                lemma_views_push(items@, e);
            }
            items.push(e);
            cur = q;
        } else {
            let r = finish_items(items, true);
            return Ok((r, cur));
        }
    }
}

fn parse_not(ts: &Vec<Token>, p: usize) -> (r: Result<(QueryExpr, usize), QueryError>)
    requires
        p <= ts.len(),
    ensures
        match r {
            Ok((e, q)) => parse_not_spec(toks_view(ts@), p as int) == Ok::<(ExprV, int), QueryError>(
                (e@, q as int),
            ) && p < q <= ts.len(),
            Err(err) => parse_not_spec(toks_view(ts@), p as int) == Err::<(ExprV, int), QueryError>(
                err,
            ),
        },
    decreases ts.len() - p, 2int,
{
    if word_ci(ts, p, "NOT") {
        let (e, q) = match parse_not(ts, p + 1) {
            Err(err) => return Err(err),
            Ok(x) => x,
        };
        let r = QueryExpr::Not(Box::new(e));
        assert(r@ == ExprV::Not(Box::new(e@)));
        return Ok((r, q));
    }
    parse_primary(ts, p)
}

fn parse_primary(ts: &Vec<Token>, p: usize) -> (r: Result<(QueryExpr, usize), QueryError>)
    requires
        p <= ts.len(),
    ensures
        match r {
            Ok((e, q)) => parse_primary_spec(toks_view(ts@), p as int) == Ok::<
                (ExprV, int),
                QueryError,
            >((e@, q as int)) && p < q <= ts.len(),
            Err(err) => parse_primary_spec(toks_view(ts@), p as int) == Err::<
                (ExprV, int),
                QueryError,
            >(err),
        },
    decreases ts.len() - p, 1int,
{
    if p >= ts.len() {
        return Err(QueryError::UnexpectedEnd);
    }
    let kind: u8 = match &ts[p] {
        Token::LParen => 0,
        Token::RParen => 1,
        _ => 2,
    };
    if kind == 0 {
        let (e, q) = match parse_or(ts, p + 1) {
            Err(err) => return Err(err),
            Ok(x) => x,
        };
        if q < ts.len() {
            let closes = match &ts[q] {
                Token::RParen => true,
                _ => false,
            };
            if closes {
                return Ok((e, q + 1));
            }
        }
        Err(QueryError::ExpectedClosingParen)
    } else if kind == 1 {
        Err(QueryError::UnexpectedClosingParen)
    } else {
        let (c, q) = match parse_clause(ts, p) {
            Err(err) => return Err(err),
            Ok(x) => x,
        };
        Ok((QueryExpr::Clause(c), q))
    }
}

fn number_value(ts: &Vec<Token>, p: usize, st: DirState, d: Directive) -> (r: Result<(DirState, usize), QueryError>)
    requires
        p < ts.len(),
    ensures
        match r {
            Ok((st2, q)) => number_directive(toks_view(ts@), p as int, st, d) == Ok::<
                (DirState, int),
                QueryError,
            >((st2, q as int)) && p < q <= ts.len(),
            Err(e) => number_directive(toks_view(ts@), p as int, st, d) == Err::<
                (DirState, int),
                QueryError,
            >(e),
        },
{
    let (v, q) = match next_value_exec(ts, p + 1, false) {
        Err(e) => return Err(e),
        Ok(x) => x,
    };
    let vc = chars_of(v.as_str());
    match parse_usize_vec(&vc) {
        None => Err(QueryError::NotNumeric(d)),
        Some(n) => {
            let st2 = match d {
                Directive::Limit => DirState { limit: n, ..st },
                Directive::Offset => DirState { offset: n, ..st },
                Directive::Expand => DirState { expand: n, ..st },
                Directive::Depth => DirState { depth: n, ..st },
            };
            Ok((st2, q))
        },
    }
}

fn apply_directive(ts: &Vec<Token>, p: usize, st: DirState) -> (r: Result<(DirState, usize), QueryError>)
    requires
        p < ts.len(),
    ensures
        match r {
            Ok((st2, q)) => p < q <= ts.len() && directives(toks_view(ts@), p as int, st)
                == directives(toks_view(ts@), q as int, st2),
            Err(e) => directives(toks_view(ts@), p as int, st) == Err::<DirState, QueryError>(e),
        },
{
    if word_ci(ts, p, "ORDER") {
        let (by, q2) = match next_value_exec(ts, p + 1, false) {
            Err(e) => return Err(e),
            Ok(x) => x,
        };
        if !eq_ignore_case(by.as_str(), "BY") {
            return Err(QueryError::ExpectedBy);
        }
        let (f, q3) = match next_value_exec(ts, q2, false) {
            Err(e) => return Err(e),
            Ok(x) => x,
        };
        let field = match parse_sort_field(f.as_str()) {
            None => return Err(QueryError::UnsupportedSortField),
            Some(x) => x,
        };
        let asc = word_ci(ts, q3, "ASC");
        let desc = word_ci(ts, q3, "DESC");
        let direction = if asc {
            SortDirection::Asc
        } else {
            SortDirection::Desc
        };
        let q4 = if asc || desc {
            q3 + 1
        } else {
            q3
        };
        return Ok((DirState { sort: Some(SortSpec { field, direction }), ..st }, q4));
    }
    let is_limit = word_ci(ts, p, "LIMIT");
    let is_offset = word_ci(ts, p, "OFFSET");
    let is_expand = word_ci(ts, p, "EXPAND");
    let is_depth = word_ci(ts, p, "DEPTH");
    if is_limit || is_offset || is_expand || is_depth {
        let d = if is_limit {
            Directive::Limit
        } else if is_offset {
            Directive::Offset
        } else if is_expand {
            Directive::Expand
        } else {
            Directive::Depth
        };
        return number_value(ts, p, st, d);
    }
    if word_ci(ts, p, "EXPLAIN") {
        return Ok((DirState { explain: true, ..st }, p + 1));
    }
    Err(QueryError::UnexpectedToken)
}

/// Parses a query with the default result limit `default_limit`.
pub fn parse_query(input: &str, default_limit: usize) -> (r: Result<QueryRequest, QueryError>)
    ensures
        match r {
            Ok(q) => parse_query_spec(input@, default_limit) == Ok::<RequestV, QueryError>(q@),
            Err(e) => parse_query_spec(input@, default_limit) == Err::<RequestV, QueryError>(e),
        },
{
    let raw_chars = trim_chars(input);
    if raw_chars.len() == 0 {
        return Err(QueryError::Empty);
    }
    let raw = string_of(&raw_chars);
    let ts = match tokenize(&raw_chars) {
        Err(e) => return Err(e),
        Ok(t) => t,
    };
    let ghost tv = toks_view(ts@);
    let mut explain = false;
    let mut p: usize = 0;
    if word_ci(&ts, 0, "EXPLAIN") {
        explain = true;
        p = 1;
    }
    if word_ci(&ts, p, "PATH") {
        let (from, p1) = match next_value_exec(&ts, p + 1, true) {
            Err(e) => return Err(e),
            Ok(x) => x,
        };
        let (arrow, p2) = match next_value_exec(&ts, p1, false) {
            Err(e) => return Err(e),
            Ok(x) => x,
        };
        if !eq_lit(&chars_of(arrow.as_str()), "->") {
            return Err(QueryError::PathSyntax);
        }
        let (to, _p3) = match next_value_exec(&ts, p2, true) {
            Err(e) => return Err(e),
            Ok(x) => x,
        };
        return Ok(
            QueryRequest {
                raw,
                mode: QueryMode::Path,
                preset: None,
                expr: None,
                limit: default_limit,
                offset: 0,
                sort: None,
                explain,
                expand_depth: 0,
                neighbors_depth: 0,
                path_from: Some(from),
                path_to: Some(to),
            },
        );
    }
    let mut mode = QueryMode::Filter;
    if word_ci(&ts, p, "NEIGHBORS") {
        p = p + 1;
        mode = QueryMode::Neighbors;
    }
    let mut preset: Option<QueryPreset> = None;
    if p < ts.len() {
        match &ts[p] {
            Token::Word(w) => {
                match parse_preset(w.as_str()) {
                    Some(found) => {
                        preset = Some(found);
                        p = p + 1;
                    },
                    None => {},
                }
            },
            _ => {},
        }
    }
    let expr: Option<QueryExpr> = if p >= ts.len() || is_directive_exec(&ts, p) {
        None
    } else {
        let (e, q) = match parse_or(&ts, p) {
            Err(err) => return Err(err),
            Ok(x) => x,
        };
        p = q;
        Some(e)
    };
    let mut st = DirState {
        sort: None,
        limit: default_limit,
        offset: 0,
        expand: 0,
        depth: 1,
        explain,
    };
    assert(parse_query_spec(input@, default_limit) == finish_filter(
        raw@,
        mode,
        preset,
        opt_expr_view(expr),
        directives(tv, p as int, st),
    ));
    while p < ts.len()
        invariant
            p <= ts.len(),
            tv == toks_view(ts@),
            parse_query_spec(input@, default_limit) == finish_filter(
                raw@,
                mode,
                preset,
                opt_expr_view(expr),
                directives(tv, p as int, st),
            ),
        decreases ts.len() - p,
    {
        let (st2, q) = match apply_directive(&ts, p, st) {
            Err(e) => return Err(e),
            Ok(x) => x,
        };
        st = st2;
        p = q;
    }
    Ok(
        QueryRequest {
            raw,
            mode,
            preset,
            expr,
            limit: st.limit,
            offset: st.offset,
            sort: st.sort,
            explain: st.explain,
            expand_depth: st.expand,
            neighbors_depth: st.depth,
            path_from: None,
            path_to: None,
        },
    )
}

} // verus!

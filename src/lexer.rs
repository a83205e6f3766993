//! The tokenizer: whitespace-separated tokens, double-quoted literals that may
//! hold whitespace, and backslash escapes inside them.
use vstd::prelude::*;

use crate::text::push_char;

verus! {

/// A character that separates tokens outside a quoted literal.
pub open spec fn is_blank(c: char) -> bool {
    c == ' ' || c == '\n' || c == '\t' || c == '\r'
}

/// The character that an escape sequence `\c` stands for.
pub open spec fn decode_escape(c: char) -> char {
    if c == 'n' {
        '\n'
    } else if c == 't' {
        '\t'
    } else if c == 'r' {
        '\r'
    } else {
        c
    }
}

/// The state of the tokenizer between two characters.
pub struct LexState {
    pub tokens: Seq<Seq<char>>,
    pub current: Seq<char>,
    pub in_quote: bool,
    pub escape: bool,
}

pub open spec fn lex_start() -> LexState {
    LexState { tokens: seq![], current: seq![], in_quote: false, escape: false }
}

/// One character of input read by the tokenizer.
pub open spec fn lex_step(st: LexState, c: char) -> LexState {
    if st.escape {
        LexState { tokens: st.tokens, current: st.current.push(decode_escape(c)), in_quote: st.in_quote, escape: false }
    } else if c == '"' {
        LexState { tokens: st.tokens, current: st.current.push(c), in_quote: !st.in_quote, escape: false }
    } else if c == '\\' && st.in_quote {
        LexState { tokens: st.tokens, current: st.current.push(c), in_quote: true, escape: true }
    } else if is_blank(c) && !st.in_quote && st.current.len() > 0 {
        LexState { tokens: st.tokens.push(st.current), current: seq![], in_quote: false, escape: false }
    } else {
        LexState { tokens: st.tokens, current: st.current.push(c), in_quote: st.in_quote, escape: false }
    }
}

/// The state after reading `s` from `st`.
pub open spec fn lex_run(st: LexState, s: Seq<char>) -> LexState
    decreases s.len(),
{
    if s.len() == 0 {
        st
    } else {
        lex_step(lex_run(st, s.drop_last()), s.last())
    }
}

/// The tokens of `s`, or `None` where the input ends inside a quote or an escape.
pub open spec fn tokens_of(s: Seq<char>) -> Option<Seq<Seq<char>>> {
    let e = lex_run(lex_start(), s);
    if e.escape || e.in_quote {
        None
    } else if e.current.len() > 0 {
        Some(e.tokens.push(e.current))
    } else {
        Some(e.tokens)
    }
}

pub open spec fn string_views(v: Seq<String>) -> Seq<Seq<char>> {
    v.map_values(|t: String| t@)
}

/// Splits source text into raw tokens.
pub fn tokenize(source: &str) -> (r: Option<Vec<String>>)
    ensures
        match r {
            Some(v) => tokens_of(source@) == Some(string_views(v@)),
            None => tokens_of(source@) is None,
        },
{
    let mut tokens: Vec<String> = Vec::new();
    let mut current = String::new();
    let mut in_quote = false;
    let mut is_escape = false;
    proof {
        assert(string_views(tokens@) =~= seq![]);
        assert(source@.take(0) =~= seq![]);
    }
    for c in it: source.chars()
        invariant
            it.seq() == source@,
            lex_run(lex_start(), source@.take(it.index() as int)) == (LexState {
                tokens: string_views(tokens@),
                current: current@,
                in_quote: in_quote,
                escape: is_escape,
            }),
    {
        proof {
            let i = it.index() as int;
            assert(source@.take(i + 1).drop_last() =~= source@.take(i));
        }
        if is_escape {
            let d = if c == 'n' {
                '\n'
            } else if c == 't' {
                '\t'
            } else if c == 'r' {
                '\r'
            } else {
                c
            };
            push_char(&mut current, d);
            is_escape = false;
        } else if c == '"' {
            in_quote = !in_quote;
            push_char(&mut current, c);
        } else if c == '\\' && in_quote {
            push_char(&mut current, c);
            is_escape = true;
        } else if (c == ' ' || c == '\n' || c == '\t' || c == '\r') && !in_quote && !current.as_str().is_empty() {
            let ghost before = tokens@;
            let done = current;
            tokens.push(done);
            current = String::new();
            proof {
                assert(string_views(tokens@) =~= string_views(before).push(done@));
            }
        } else {
            push_char(&mut current, c);
        }
    }
    proof {
        assert(source@.take(source@.len() as int) =~= source@);
    }
    if is_escape || in_quote {
        return None;
    }
    if !current.as_str().is_empty() {
        let ghost before = tokens@;
        tokens.push(current);
        proof {
            assert(string_views(tokens@) =~= string_views(before).push(current@));
        }
    }
    Some(tokens)
}

/// Removing backslashes from `s` after `st`: a backslash is dropped and the
/// character after it is kept as it is.
pub open spec fn unescape_from(st: (Seq<char>, bool), s: Seq<char>) -> (Seq<char>, bool)
    decreases s.len(),
{
    if s.len() == 0 {
        st
    } else {
        let p = unescape_from(st, s.drop_last());
        let c = s.last();
        if p.1 {
            (p.0.push(c), false)
        } else if c == '\\' {
            (p.0, true)
        } else {
            (p.0.push(c), false)
        }
    }
}

pub open spec fn unescaped(s: Seq<char>) -> Seq<char> {
    unescape_from((seq![], false), s).0
}

/// Drops each backslash and keeps the character after it literally.
pub fn text_escape(text: &str) -> (r: String)
    ensures
        r@ == unescaped(text@),
{
    let mut result = String::new();
    let mut is_escape = false;
    proof {
        assert(text@.take(0) =~= seq![]);
    }
    for c in it: text.chars()
        invariant
            it.seq() == text@,
            unescape_from((seq![], false), text@.take(it.index() as int)) == (result@, is_escape),
    {
        proof {
            let i = it.index() as int;
            assert(text@.take(i + 1).drop_last() =~= text@.take(i));
        }
        if is_escape {
            push_char(&mut result, c);
            is_escape = false;
        } else if c == '\\' {
            is_escape = true;
        } else {
            push_char(&mut result, c);
        }
    }
    proof {
        assert(text@.take(text@.len() as int) =~= text@);
    }
    result
}

/// A character that a quoted literal writes with a backslash.
pub open spec fn needs_escape(c: char) -> bool {
    c == '\\' || c == '"' || c == '\n' || c == '\t' || c == '\r'
}

/// The character written after the backslash for `c`.
pub open spec fn escape_letter(c: char) -> char {
    if c == '\n' {
        'n'
    } else if c == '\t' {
        't'
    } else if c == '\r' {
        'r'
    } else {
        c
    }
}

/// How `t` is written between the quotes of a literal in source text.
pub open spec fn source_escaped(t: Seq<char>) -> Seq<char>
    decreases t.len(),
{
    if t.len() == 0 {
        seq![]
    } else {
        let c = t.last();
        source_escaped(t.drop_last()) + if needs_escape(c) {
            seq!['\\', escape_letter(c)]
        } else {
            seq![c]
        }
    }
}

/// How `t` stands inside the token that the tokenizer makes of its literal.
pub open spec fn token_escaped(t: Seq<char>) -> Seq<char>
    decreases t.len(),
{
    if t.len() == 0 {
        seq![]
    } else {
        let c = t.last();
        token_escaped(t.drop_last()) + if needs_escape(c) {
            seq!['\\', c]
        } else {
            seq![c]
        }
    }
}

/// The quoted literal for `t`.
pub open spec fn quoted(t: Seq<char>) -> Seq<char> {
    seq!['"'] + source_escaped(t) + seq!['"']
}

proof fn lemma_lex_run_append(st: LexState, a: Seq<char>, b: Seq<char>)
    ensures
        lex_run(st, a + b) == lex_run(lex_run(st, a), b),
    decreases b.len(),
{
    if b.len() == 0 {
        assert(a + b =~= a);
    } else {
        assert((a + b).drop_last() =~= a + b.drop_last());
        lemma_lex_run_append(st, a, b.drop_last());
    }
}

proof fn lemma_lex_run_one(st: LexState, c: char)
    ensures
        lex_run(st, seq![c]) == lex_step(st, c),
{
    assert(seq![c].drop_last() =~= seq![]);
    assert(lex_run(st, seq![c].drop_last()) == st);
}

proof fn lemma_lex_run_two(st: LexState, c: char, d: char)
    ensures
        lex_run(st, seq![c, d]) == lex_step(lex_step(st, c), d),
{
    assert(seq![c, d].drop_last() =~= seq![c]);
    lemma_lex_run_one(st, c);
}

proof fn lemma_lex_escaped(st: LexState, t: Seq<char>)
    requires
        st.in_quote,
        !st.escape,
    ensures
        lex_run(st, source_escaped(t)) == (LexState {
            tokens: st.tokens,
            current: st.current + token_escaped(t),
            in_quote: true,
            escape: false,
        }),
    decreases t.len(),
{
    if t.len() == 0 {
        assert(st.current + token_escaped(t) =~= st.current);
        assert(lex_run(st, source_escaped(t)) == st);
    } else {
        let c = t.last();
        let u = t.drop_last();
        lemma_lex_escaped(st, u);
        let mid = lex_run(st, source_escaped(u));
        if needs_escape(c) {
            lemma_lex_run_append(st, source_escaped(u), seq!['\\', escape_letter(c)]);
            lemma_lex_run_two(mid, '\\', escape_letter(c));
            assert(decode_escape(escape_letter(c)) == c);
            assert(st.current + token_escaped(t) =~= (st.current + token_escaped(u)).push('\\').push(c));
        } else {
            lemma_lex_run_append(st, source_escaped(u), seq![c]);
            lemma_lex_run_one(mid, c);
            assert(st.current + token_escaped(t) =~= (st.current + token_escaped(u)).push(c));
        }
    }
}

proof fn lemma_unescape_append(st: (Seq<char>, bool), a: Seq<char>, b: Seq<char>)
    ensures
        unescape_from(st, a + b) == unescape_from(unescape_from(st, a), b),
    decreases b.len(),
{
    if b.len() == 0 {
        assert(a + b =~= a);
    } else {
        assert((a + b).drop_last() =~= a + b.drop_last());
        lemma_unescape_append(st, a, b.drop_last());
    }
}

proof fn lemma_unescape_token_escaped(t: Seq<char>)
    ensures
        unescape_from((seq![], false), token_escaped(t)) == (t, false),
    decreases t.len(),
{
    if t.len() > 0 {
        let c = t.last();
        let u = t.drop_last();
        lemma_unescape_token_escaped(u);
        let st = (u, false);
        if needs_escape(c) {
            lemma_unescape_append((seq![], false), token_escaped(u), seq!['\\', c]);
            assert(seq!['\\', c].drop_last() =~= seq!['\\']);
            assert(seq!['\\'].drop_last() =~= seq![]);
            assert(unescape_from(st, seq![]) == st);
            assert(unescape_from(st, seq!['\\']) == (u, true));
            assert(unescape_from(st, seq!['\\', c]) == (u.push(c), false));
        } else {
            lemma_unescape_append((seq![], false), token_escaped(u), seq![c]);
            assert(seq![c].drop_last() =~= seq![]);
            assert(unescape_from(st, seq![]) == st);
            assert(unescape_from(st, seq![c]) == (u.push(c), false));
        }
        assert(u.push(c) =~= t);
    }
}

/// Any text written as a quoted literal, with `\n`, `\t`, `\r`, `\\` and
/// `\"` for the characters that need them, comes out of the tokenizer as one
/// token; stripping its quotes and removing the escapes gives the text back.
pub proof fn lemma_quoted_round_trip(t: Seq<char>)
    ensures
        tokens_of(quoted(t)) == Some(seq![seq!['"'] + token_escaped(t) + seq!['"']]),
        unescaped(token_escaped(t)) == t,
{
    let open = lex_step(lex_start(), '"');
    lemma_lex_run_append(lex_start(), seq!['"'], source_escaped(t));
    lemma_lex_run_one(lex_start(), '"');
    lemma_lex_escaped(open, t);
    lemma_lex_run_append(lex_start(), seq!['"'] + source_escaped(t), seq!['"']);
    let inner = lex_run(lex_start(), seq!['"'] + source_escaped(t));
    lemma_lex_run_one(inner, '"');
    assert(open.current + token_escaped(t) =~= seq!['"'] + token_escaped(t));
    let tok = seq!['"'] + token_escaped(t) + seq!['"'];
    assert((seq!['"'] + token_escaped(t)).push('"') =~= tok);
    let fin = lex_run(lex_start(), quoted(t));
    assert(fin.current == tok);
    assert(fin.tokens.push(fin.current) =~= seq![tok]);
    lemma_unescape_token_escaped(t);
}

/// Reading characters that are neither quotes nor backslashes inside a quote
/// keeps the tokenizer inside it, with no escape pending.
proof fn lemma_lex_plain_in_quote(st: LexState, body: Seq<char>)
    requires
        st.in_quote,
        !st.escape,
        forall|i: int| 0 <= i < body.len() ==> body[i] != '"' && body[i] != '\\',
    ensures
        lex_run(st, body).in_quote,
        !lex_run(st, body).escape,
    decreases body.len(),
{
    if body.len() > 0 {
        lemma_lex_plain_in_quote(st, body.drop_last());
    }
}

/// A quote that is opened after well-formed text and never closed makes
/// tokenizing fail, whatever plain text follows it.
pub proof fn lemma_unterminated_quote_fails(pre: Seq<char>, body: Seq<char>)
    requires
        tokens_of(pre) is Some,
        forall|i: int| 0 <= i < body.len() ==> body[i] != '"' && body[i] != '\\',
    ensures
        tokens_of(pre + seq!['"'] + body) is None,
{
    let st = lex_run(lex_start(), pre);
    lemma_lex_run_append(lex_start(), pre, seq!['"']);
    lemma_lex_run_one(st, '"');
    lemma_lex_run_append(lex_start(), pre + seq!['"'], body);
    lemma_lex_plain_in_quote(lex_step(st, '"'), body);
}

/// A backslash at the very end of an open quote makes tokenizing fail,
/// whatever well-formed text stands before the quote and whatever plain text
/// stands in it.
pub proof fn lemma_trailing_backslash_fails(pre: Seq<char>, body: Seq<char>)
    requires
        tokens_of(pre) is Some,
        forall|i: int| 0 <= i < body.len() ==> body[i] != '"' && body[i] != '\\',
    ensures
        tokens_of(pre + seq!['"'] + body + seq!['\\']) is None,
{
    let st = lex_run(lex_start(), pre);
    lemma_lex_run_append(lex_start(), pre, seq!['"']);
    lemma_lex_run_one(st, '"');
    lemma_lex_run_append(lex_start(), pre + seq!['"'], body);
    lemma_lex_plain_in_quote(lex_step(st, '"'), body);
    let inner = lex_run(lex_start(), pre + seq!['"'] + body);
    lemma_lex_run_append(lex_start(), pre + seq!['"'] + body, seq!['\\']);
    lemma_lex_run_one(inner, '\\');
}

} // verus!

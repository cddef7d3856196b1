//! The text that writes tokens and trees, and the law that parsing that
//! text gives the tree back.
//!
//! Every token is written with one space behind it.

use vstd::prelude::*;
use crate::error::QlErrorView;
use crate::parser::lexer::{
    CharClass,
    is_digit,
    is_identifier,
    is_number,
    lemma_skip_ignored,
    lex_from,
    run_end,
    skip_ignored,
    token_at,
};
use crate::parser::parse_query::parse_source;
use crate::parser::print::{
    arg_tokens,
    args_tokens,
    arguments_tokens,
    field_spellable,
    field_tokens,
    fields_tokens,
    law_query_is_parsed,
    law_query_round_trip,
    query_tokens,
    spells_query,
    value_spellable,
    value_tokens,
    values_tokens,
};
use crate::parser::token::{Lexeme, TokenView, lexemes};
use crate::types::query::{FieldView, OperationView, ValueView};

verus! {

/// The text of one token.
pub open spec fn lexeme_text(t: Lexeme) -> Seq<char> {
    match t {
        Lexeme::LBrace => seq!['{'],
        Lexeme::RBrace => seq!['}'],
        Lexeme::LParen => seq!['('],
        Lexeme::RParen => seq![')'],
        Lexeme::LBracket => seq!['['],
        Lexeme::RBracket => seq![']'],
        Lexeme::Colon => seq![':'],
        Lexeme::Comma => seq![','],
        Lexeme::Name(n) => n,
        Lexeme::Number(n) => n,
        Lexeme::Str(s) => seq!['"'] + s + seq!['"'],
    }
}

/// The text of the tokens from `from` on, each with a space behind it.
pub open spec fn tokens_text(ts: Seq<Lexeme>, from: int) -> Seq<char>
    decreases ts.len() - from,
{
    if 0 <= from < ts.len() {
        lexeme_text(ts[from]) + seq![' '] + tokens_text(ts, from + 1)
    } else {
        Seq::empty()
    }
}

/// Whether the lexer can give the token `t`: a name is an identifier, a
/// number is a run of digits, and a string holds no double quote.
pub open spec fn lexable(t: Lexeme) -> bool {
    match t {
        Lexeme::Name(n) => is_identifier(n),
        Lexeme::Number(n) => is_number(n),
        Lexeme::Str(s) => forall|i: int| 0 <= i < s.len() ==> #[trigger] s[i] != '"',
        _ => true,
    }
}

/// Whether the lexer can give each of the tokens `ts`.
pub open spec fn all_lexable(ts: Seq<Lexeme>) -> bool {
    forall|i: int| 0 <= i < ts.len() ==> lexable(#[trigger] ts[i])
}

/// A run that holds only characters of its class, and that the text or a
/// character outside the class ends, is the longest.
pub proof fn lemma_run_end_is(s: Seq<char>, i: int, end: int, class: CharClass)
    requires
        0 <= i <= end <= s.len(),
        forall|k: int| i <= k < end ==> class.holds(#[trigger] s[k]),
        end < s.len() ==> !class.holds(s[end]),
    ensures
        run_end(s, i, class) == end,
    decreases end - i,
{
    if i < end {
        lemma_run_end_is(s, i + 1, end, class);
    }
}

/// Whether `part` stands in `s` from character `i` on.
pub open spec fn written(s: Seq<char>, i: int, part: Seq<char>) -> bool {
    0 <= i && i + part.len() <= s.len() && forall|k: int|
        0 <= k < part.len() ==> s[i + k] == #[trigger] part[k]
}

/// Whether the token `t` stands in `s` from character `start` on so that
/// the lexer reads it there: its text stands there, and a name or a number
/// does not go on behind it.
pub open spec fn token_written(s: Seq<char>, start: int, t: Lexeme) -> bool {
    let end = start + lexeme_text(t).len();
    &&& lexable(t)
    &&& written(s, start, lexeme_text(t))
    &&& match t {
        Lexeme::Name(_) => end < s.len() ==> !CharClass::NamePart.holds(s[end]),
        Lexeme::Number(_) => end < s.len() ==> !CharClass::Digit.holds(s[end]),
        _ => true,
    }
}

/// Whether `s`, from character `i` on, writes the tokens from `from` on
/// and nothing else: each token stands behind any white space and comments,
/// and only white space and comments follow the last.
pub open spec fn writes(s: Seq<char>, i: int, ts: Seq<Lexeme>, from: int) -> bool
    decreases ts.len() - from,
{
    let start = skip_ignored(s, i);
    if 0 <= from < ts.len() {
        token_written(s, start, ts[from]) && writes(
            s,
            start + lexeme_text(ts[from]).len(),
            ts,
            from + 1,
        )
    } else {
        start >= s.len()
    }
}

/// Where a token stands, the lexer reads that token, without skipping
/// anything before it.
pub proof fn lemma_token_round_trip(s: Seq<char>, i: int, t: Lexeme)
    requires
        token_written(s, i, t),
    ensures
        skip_ignored(s, i) == i,
        i < s.len(),
        token_at(s, i) is Ok,
        token_at(s, i)->Ok_0 == (t, i + lexeme_text(t).len()),
{
    let text = lexeme_text(t);
    let end = i + text.len();
    match t {
        Lexeme::Name(n) => {
            assert(s[i + 0] == n[0]);
            assert forall|k: int| i + 1 <= k < end implies CharClass::NamePart.holds(
                #[trigger] s[k],
            ) by {
                assert(s[i + (k - i)] == n[k - i]);
            }
            lemma_run_end_is(s, i + 1, end, CharClass::NamePart);
            assert(s.subrange(i, end) =~= n) by {
                assert forall|k: int| 0 <= k < n.len() implies s[i + k] == n[k] by {}
            }
        },
        Lexeme::Number(n) => {
            assert(s[i + 0] == n[0]);
            assert forall|k: int| i + 1 <= k < end implies CharClass::Digit.holds(
                #[trigger] s[k],
            ) by {
                assert(s[i + (k - i)] == n[k - i]);
            }
            lemma_run_end_is(s, i + 1, end, CharClass::Digit);
            assert(s.subrange(i, end) =~= n) by {
                assert forall|k: int| 0 <= k < n.len() implies s[i + k] == n[k] by {}
            }
        },
        Lexeme::Str(body) => {
            assert(text[0] == '"');
            assert(s[i + 0] == text[0]);
            let close = i + 1 + body.len();
            let last: int = body.len() as int + 1;
            assert(text[last] == '"');
            assert(s[i + last] == text[last]);
            assert forall|k: int| i + 1 <= k < close implies CharClass::InString.holds(
                #[trigger] s[k],
            ) by {
                assert(text[k - i] == body[k - i - 1]);
                assert(s[i + (k - i)] == text[k - i]);
            }
            lemma_run_end_is(s, i + 1, close, CharClass::InString);
            assert(s.subrange(i + 1, close) =~= body) by {
                assert forall|k: int| 0 <= k < body.len() implies s[i + 1 + k] == body[k] by {
                    assert(text[k + 1] == body[k]);
                    assert(s[i + (k + 1)] == text[k + 1]);
                }
            }
        },
        _ => {
            assert(s[i + 0] == text[0]);
        },
    }
}

/// Whatever text writes tokens is read by the lexer as those tokens: the
/// white space and the comments between them change nothing.
pub proof fn lemma_lex_writes(s: Seq<char>, i: int, ts: Seq<Lexeme>, from: int)
    requires
        0 <= i <= s.len(),
        0 <= from <= ts.len(),
        writes(s, i, ts, from),
    ensures
        lex_from(s, i) matches Ok(tokens) && lexemes(tokens) == ts.skip(from),
    decreases ts.len() - from,
{
    let start = skip_ignored(s, i);
    lemma_skip_ignored(s, i);
    if from == ts.len() {
        assert(lexemes(Seq::<TokenView>::empty()) =~= ts.skip(from));
    } else {
        let t = ts[from];
        let end = start + lexeme_text(t).len();
        lemma_token_round_trip(s, start, t);
        lemma_lex_writes(s, end, ts, from + 1);
        let tail = lex_from(s, end)->Ok_0;
        let token = TokenView { kind: t, offset: start };
        let all = seq![token] + tail;
        assert(lex_from(s, i) is Ok && lex_from(s, i)->Ok_0 == all);
        assert(lexemes(tail).len() == tail.len());
        assert(ts.skip(from + 1).len() == ts.len() - from - 1);
        assert forall|k: int| 0 <= k < all.len() implies lexemes(all)[k] == ts.skip(from)[k] by {
            if k > 0 {
                assert(all[k] == tail[k - 1]);
                assert(lexemes(tail)[k - 1] == ts.skip(from + 1)[k - 1]);
            }
        }
        assert(lexemes(all) =~= ts.skip(from));
    }
}

/// The text of tokens, each with a space behind it, writes those tokens.
pub proof fn lemma_tokens_text_writes(s: Seq<char>, i: int, ts: Seq<Lexeme>, from: int)
    requires
        all_lexable(ts),
        0 <= from <= ts.len(),
        written(s, i, tokens_text(ts, from)),
        i + tokens_text(ts, from).len() == s.len(),
    ensures
        writes(s, i, ts, from),
    decreases ts.len() - from,
{
    if from < ts.len() {
        let t = ts[from];
        let text = lexeme_text(t);
        let rest = tokens_text(ts, from + 1);
        let whole = tokens_text(ts, from);
        let end = i + text.len();
        assert(whole == text + seq![' '] + rest);
        assert forall|k: int| 0 <= k < text.len() implies s[i + k] == #[trigger] text[k] by {
            assert(whole[k] == text[k]);
        }
        assert(whole[text.len() as int] == ' ');
        assert(s[i + text.len()] == ' ');
        assert(token_written(s, i, t));
        lemma_token_round_trip(s, i, t);
        assert forall|k: int| 0 <= k < rest.len() implies s[end + 1 + k] == #[trigger] rest[k] by {
            assert(whole[text.len() + 1 + k] == rest[k]);
            assert(s[i + (text.len() + 1 + k)] == whole[text.len() + 1 + k]);
        }
        lemma_tokens_text_writes(s, end + 1, ts, from + 1);
        assert(skip_ignored(s, end) == skip_ignored(s, end + 1));
        assert(writes(s, end, ts, from + 1) == writes(s, end + 1, ts, from + 1));
    } else {
        assert(skip_ignored(s, i) == i);
    }
}

/// Whether source text can write `v`: a string holds no double quote, a
/// name is a run of digits or an identifier other than `null`.
pub open spec fn value_writable(v: ValueView) -> bool
    decreases v,
{
    match v {
        ValueView::Null => true,
        ValueView::String(s) => forall|i: int| 0 <= i < s.len() ==> #[trigger] s[i] != '"',
        ValueView::Name(n) => is_number(n) || (is_identifier(n) && n != "null"@),
        ValueView::Array(items) => forall|i: int|
            0 <= i < items.len() ==> value_writable(#[trigger] items[i]),
    }
}

/// Whether source text can write `f`: it has no alias, its name is an
/// identifier, the name of each argument is empty or an identifier, and its
/// values and fields can be written.
pub open spec fn field_writable(f: FieldView) -> bool
    decreases f,
{
    &&& f.alias is None
    &&& is_identifier(f.name)
    &&& forall|i: int|
        0 <= i < f.args.len() ==> ((#[trigger] f.args[i]).0.len() == 0 || is_identifier(
            f.args[i].0,
        )) && value_writable(f.args[i].1)
    &&& forall|i: int| 0 <= i < f.fields.len() ==> field_writable(#[trigger] f.fields[i])
}

/// The source text that writes a query with the root field `f`.
pub open spec fn query_source(f: FieldView) -> Seq<char> {
    tokens_text(query_tokens(f), 0)
}

pub proof fn lemma_all_lexable_concat(a: Seq<Lexeme>, b: Seq<Lexeme>)
    requires
        all_lexable(a),
        all_lexable(b),
    ensures
        all_lexable(a + b),
{
    assert forall|i: int| 0 <= i < (a + b).len() implies lexable(#[trigger] (a + b)[i]) by {
        if i < a.len() {
            assert((a + b)[i] == a[i]);
        } else {
            assert((a + b)[i] == b[i - a.len()]);
        }
    }
}

/// The keywords of the language are identifiers.
pub proof fn lemma_keywords()
    ensures
        is_identifier("null"@),
        is_identifier("query"@),
        !is_number("null"@),
{
    reveal_strlit("null");
    reveal_strlit("query");
    assert(!is_digit("null"@[0]));
}

/// A value that source text can write is spelled in tokens that the lexer
/// can give.
pub proof fn lemma_value_writable(v: ValueView)
    requires
        value_writable(v),
    ensures
        value_spellable(v),
        all_lexable(value_tokens(v)),
    decreases v, 0int,
{
    lemma_keywords();
    match v {
        ValueView::Array(items) => {
            assert forall|i: int| 0 <= i < items.len() implies value_spellable(
                #[trigger] items[i],
            ) by {
                lemma_value_writable(items[i]);
            }
            lemma_values_writable(items, 0);
            lemma_all_lexable_concat(seq![Lexeme::LBracket], values_tokens(items, 0));
            lemma_all_lexable_concat(
                seq![Lexeme::LBracket] + values_tokens(items, 0),
                seq![Lexeme::RBracket],
            );
        },
        _ => {},
    }
}

pub proof fn lemma_values_writable(items: Seq<ValueView>, from: int)
    requires
        forall|i: int| 0 <= i < items.len() ==> value_writable(#[trigger] items[i]),
        0 <= from <= items.len(),
    ensures
        all_lexable(values_tokens(items, from)),
    decreases items, items.len() - from,
{
    if from < items.len() {
        lemma_value_writable(items[from]);
        if from + 1 < items.len() {
            lemma_values_writable(items, from + 1);
            lemma_all_lexable_concat(value_tokens(items[from]), seq![Lexeme::Comma]);
            lemma_all_lexable_concat(
                value_tokens(items[from]) + seq![Lexeme::Comma],
                values_tokens(items, from + 1),
            );
        }
    }
}

pub proof fn lemma_args_writable(args: Seq<(Seq<char>, ValueView)>, from: int)
    requires
        forall|i: int|
            0 <= i < args.len() ==> ((#[trigger] args[i]).0.len() == 0 || is_identifier(
                args[i].0,
            )) && value_writable(args[i].1),
        0 <= from <= args.len(),
    ensures
        all_lexable(args_tokens(args, from)),
    decreases args.len() - from,
{
    if from < args.len() {
        let arg = args[from];
        lemma_value_writable(arg.1);
        if arg.0.len() != 0 {
            lemma_all_lexable_concat(
                seq![Lexeme::Name(arg.0), Lexeme::Colon],
                value_tokens(arg.1),
            );
        }
        if from + 1 < args.len() {
            lemma_args_writable(args, from + 1);
            lemma_all_lexable_concat(arg_tokens(arg), seq![Lexeme::Comma]);
            lemma_all_lexable_concat(
                arg_tokens(arg) + seq![Lexeme::Comma],
                args_tokens(args, from + 1),
            );
        }
    }
}

/// A field that source text can write is spelled in tokens that the lexer
/// can give.
pub proof fn lemma_field_writable(f: FieldView)
    requires
        field_writable(f),
    ensures
        field_spellable(f),
        all_lexable(field_tokens(f)),
    decreases f, 0int,
{
    assert forall|i: int| 0 <= i < f.args.len() implies value_spellable(
        (#[trigger] f.args[i]).1,
    ) by {
        lemma_value_writable(f.args[i].1);
    }
    assert forall|i: int| 0 <= i < f.fields.len() implies field_spellable(
        #[trigger] f.fields[i],
    ) by {
        lemma_field_writable(f.fields[i]);
    }
    let head = seq![Lexeme::Name(f.name)];
    if f.args.len() > 0 {
        lemma_args_writable(f.args, 0);
        lemma_all_lexable_concat(seq![Lexeme::LParen], args_tokens(f.args, 0));
        lemma_all_lexable_concat(
            seq![Lexeme::LParen] + args_tokens(f.args, 0),
            seq![Lexeme::RParen],
        );
    }
    lemma_all_lexable_concat(head, arguments_tokens(f.args));
    if f.fields.len() > 0 {
        lemma_fields_writable(f.fields, 0);
        let open = head + arguments_tokens(f.args) + seq![Lexeme::LBrace];
        lemma_all_lexable_concat(head + arguments_tokens(f.args), seq![Lexeme::LBrace]);
        lemma_all_lexable_concat(open, fields_tokens(f.fields, 0));
        lemma_all_lexable_concat(open + fields_tokens(f.fields, 0), seq![Lexeme::RBrace]);
    }
}

pub proof fn lemma_fields_writable(fields: Seq<FieldView>, from: int)
    requires
        forall|i: int| 0 <= i < fields.len() ==> field_writable(#[trigger] fields[i]),
        0 <= from <= fields.len(),
    ensures
        all_lexable(fields_tokens(fields, from)),
    decreases fields, fields.len() - from,
{
    if from < fields.len() {
        lemma_field_writable(fields[from]);
        if from + 1 < fields.len() {
            lemma_fields_writable(fields, from + 1);
            lemma_all_lexable_concat(field_tokens(fields[from]), seq![Lexeme::Comma]);
            lemma_all_lexable_concat(
                field_tokens(fields[from]) + seq![Lexeme::Comma],
                fields_tokens(fields, from + 1),
            );
        }
    }
}

/// Parsing the source text of a query gives the query back: with its
/// fields, their arguments and their nested fields, all in their order.
pub proof fn law_source_round_trip(f: FieldView)
    requires
        field_writable(f),
    ensures
        parse_source(query_source(f)) == Ok::<OperationView, QlErrorView>(
            OperationView::Query(f),
        ),
{
    let ts = query_tokens(f);
    let s = query_source(f);
    lemma_keywords();
    lemma_field_writable(f);
    let head = seq![Lexeme::Name("query"@), Lexeme::LBrace];
    lemma_all_lexable_concat(head, field_tokens(f));
    lemma_all_lexable_concat(head + field_tokens(f), seq![Lexeme::RBrace]);
    lemma_tokens_text_writes(s, 0, ts, 0);
    lemma_lex_writes(s, 0, ts, 0);
    assert(ts.skip(0) =~= ts);
    law_query_round_trip(f);
}


/// Parsing keeps what the source says, however it is written: a text that
/// writes tokens, with any white space and comments between them, which
/// spell a query, with or without commas between the items of its lists,
/// is parsed as that query, with its fields, their arguments and their
/// nested fields in the order of the source.
pub proof fn law_source_is_parsed(s: Seq<char>, ts: Seq<Lexeme>, f: FieldView)
    requires
        writes(s, 0, ts, 0),
        spells_query(ts, f),
    ensures
        parse_source(s) == Ok::<OperationView, QlErrorView>(OperationView::Query(f)),
{
    lemma_lex_writes(s, 0, ts, 0);
    assert(ts.skip(0) =~= ts);
    law_query_is_parsed(ts, f);
}

} // verus!

//! The tokens that spell a tree, and the law that parsing them gives the
//! tree back.
//!
//! Items of a list are spelled with one comma between them. An argument
//! with the empty name is spelled as its value alone. A name made of digits
//! is spelled as a number.

use vstd::prelude::*;
use crate::parser::parse_base::{ParseErrorKind, read, skip_comma};
use crate::parser::parse_query::{
    lemma_arguments_at,
    arg_at,
    args_at,
    arguments_at,
    field_at,
    fields_at,
    operation_of,
    selection_at,
    value_at,
    values_at,
};
use crate::parser::lexer::is_number;
use crate::parser::token::Lexeme;
use crate::types::query::{FieldView, OperationView, ValueView};

verus! {

/// The tokens that spell the value `v`.
pub open spec fn value_tokens(v: ValueView) -> Seq<Lexeme>
    decreases v, 0int,
{
    match v {
        ValueView::Null => seq![Lexeme::Name("null"@)],
        ValueView::String(s) => seq![Lexeme::Str(s)],
        ValueView::Name(n) => if is_number(n) {
            seq![Lexeme::Number(n)]
        } else {
            seq![Lexeme::Name(n)]
        },
        ValueView::Array(items) => seq![Lexeme::LBracket] + values_tokens(items, 0)
            + seq![Lexeme::RBracket],
    }
}

/// The tokens that spell the values from `from` on.
pub open spec fn values_tokens(items: Seq<ValueView>, from: int) -> Seq<Lexeme>
    decreases items, items.len() - from,
{
    if 0 <= from < items.len() {
        if from + 1 == items.len() {
            value_tokens(items[from])
        } else {
            value_tokens(items[from]) + seq![Lexeme::Comma] + values_tokens(items, from + 1)
        }
    } else {
        Seq::empty()
    }
}

/// The tokens that spell the argument `arg`.
pub open spec fn arg_tokens(arg: (Seq<char>, ValueView)) -> Seq<Lexeme> {
    if arg.0.len() == 0 {
        value_tokens(arg.1)
    } else {
        seq![Lexeme::Name(arg.0), Lexeme::Colon] + value_tokens(arg.1)
    }
}

/// The tokens that spell the arguments from `from` on.
pub open spec fn args_tokens(args: Seq<(Seq<char>, ValueView)>, from: int) -> Seq<Lexeme>
    decreases args.len() - from,
{
    if 0 <= from < args.len() {
        if from + 1 == args.len() {
            arg_tokens(args[from])
        } else {
            arg_tokens(args[from]) + seq![Lexeme::Comma] + args_tokens(args, from + 1)
        }
    } else {
        Seq::empty()
    }
}

/// The tokens that spell the arguments of a field, brackets included: none
/// for a field without arguments.
pub open spec fn arguments_tokens(args: Seq<(Seq<char>, ValueView)>) -> Seq<Lexeme> {
    if args.len() == 0 {
        Seq::empty()
    } else {
        seq![Lexeme::LParen] + args_tokens(args, 0) + seq![Lexeme::RParen]
    }
}

/// The tokens that spell the field `f`.
pub open spec fn field_tokens(f: FieldView) -> Seq<Lexeme>
    decreases f, 0int,
{
    if f.fields.len() == 0 {
        seq![Lexeme::Name(f.name)] + arguments_tokens(f.args)
    } else {
        seq![Lexeme::Name(f.name)] + arguments_tokens(f.args) + seq![Lexeme::LBrace]
            + fields_tokens(f.fields, 0) + seq![Lexeme::RBrace]
    }
}

/// The tokens that spell the fields from `from` on.
pub open spec fn fields_tokens(fields: Seq<FieldView>, from: int) -> Seq<Lexeme>
    decreases fields, fields.len() - from,
{
    if 0 <= from < fields.len() {
        if from + 1 == fields.len() {
            field_tokens(fields[from])
        } else {
            field_tokens(fields[from]) + seq![Lexeme::Comma] + fields_tokens(fields, from + 1)
        }
    } else {
        Seq::empty()
    }
}

/// The tokens that spell a query with the root field `f`.
pub open spec fn query_tokens(f: FieldView) -> Seq<Lexeme> {
    seq![Lexeme::Name("query"@), Lexeme::LBrace] + field_tokens(f) + seq![Lexeme::RBrace]
}

/// Whether tokens can spell `v`: no name in it is `null`.
pub open spec fn value_spellable(v: ValueView) -> bool
    decreases v,
{
    match v {
        ValueView::Name(n) => n != "null"@,
        ValueView::Array(items) => forall|i: int|
            0 <= i < items.len() ==> value_spellable(#[trigger] items[i]),
        _ => true,
    }
}

/// Whether tokens can spell `f`: it has no alias, its values can be
/// spelled, and so can its fields.
pub open spec fn field_spellable(f: FieldView) -> bool
    decreases f,
{
    &&& f.alias is None
    &&& forall|i: int| 0 <= i < f.args.len() ==> value_spellable((#[trigger] f.args[i]).1)
    &&& forall|i: int| 0 <= i < f.fields.len() ==> field_spellable(#[trigger] f.fields[i])
}

/// Whether `part` stands in `ts` from token `p` on.
pub open spec fn spelled(ts: Seq<Lexeme>, p: int, part: Seq<Lexeme>) -> bool {
    0 <= p && p + part.len() <= ts.len() && ts.subrange(p, p + part.len()) == part
}

/// Where two parts stand one after the other, each of them stands.
pub proof fn lemma_spelled_split(ts: Seq<Lexeme>, p: int, a: Seq<Lexeme>, b: Seq<Lexeme>)
    requires
        spelled(ts, p, a + b),
    ensures
        spelled(ts, p, a),
        spelled(ts, p + a.len(), b),
{
    let whole = ts.subrange(p, p + (a + b).len());
    assert forall|k: int| 0 <= k < a.len() implies ts.subrange(p, p + a.len())[k] == a[k] by {
        assert(whole[k] == (a + b)[k]);
    }
    assert(ts.subrange(p, p + a.len()) =~= a);
    assert forall|k: int| 0 <= k < b.len() implies ts.subrange(
        p + a.len(),
        p + a.len() + b.len(),
    )[k] == b[k] by {
        assert(whole[k + a.len()] == (a + b)[k + a.len()]);
    }
    assert(ts.subrange(p + a.len(), p + a.len() + b.len()) =~= b);
}

/// Where a part stands, each of its tokens stands.
pub proof fn lemma_spelled_index(ts: Seq<Lexeme>, p: int, part: Seq<Lexeme>, k: int)
    requires
        spelled(ts, p, part),
        0 <= k < part.len(),
    ensures
        ts[p + k] == part[k],
{
    assert(ts.subrange(p, p + part.len())[k] == part[k]);
}

/// Whether a value can start with the token `t`.
pub open spec fn starts_value(t: Lexeme) -> bool {
    t is Name || t is Number || t is Str || t is LBracket
}

/// The spelling of a value is not empty and starts as a value does.
pub proof fn lemma_value_tokens_start(v: ValueView)
    ensures
        value_tokens(v).len() > 0,
        starts_value(value_tokens(v)[0]),
        v is Array <==> value_tokens(v)[0] is LBracket,
        value_tokens(v)[0] is Name ==> value_tokens(v).len() == 1,
{
}

/// Parsing the spelling of a value gives the value back, wherever in the
/// tokens it stands.
pub proof fn lemma_value_round_trip(ts: Seq<Lexeme>, p: int, v: ValueView)
    requires
        value_spellable(v),
        spelled(ts, p, value_tokens(v)),
    ensures
        value_at(ts, p) == read(v, p + value_tokens(v).len()),
    decreases v, 0int,
{
    lemma_value_tokens_start(v);
    lemma_spelled_index(ts, p, value_tokens(v), 0);
    match v {
        ValueView::Array(items) => {
            let inner = values_tokens(items, 0);
            lemma_spelled_split(ts, p, seq![Lexeme::LBracket] + inner, seq![Lexeme::RBracket]);
            lemma_spelled_split(ts, p, seq![Lexeme::LBracket], inner);
            let close = p + 1 + inner.len();
            lemma_spelled_index(ts, close, seq![Lexeme::RBracket], 0);
            lemma_values_round_trip(ts, p + 1, items, 0);
            assert(items.skip(0) =~= items);
        },
        _ => {},
    }
}

/// Parsing the spelling of a list of values, with the `]` behind it, gives
/// the values back.
pub proof fn lemma_values_round_trip(ts: Seq<Lexeme>, p: int, items: Seq<ValueView>, from: int)
    requires
        forall|i: int| 0 <= i < items.len() ==> value_spellable(#[trigger] items[i]),
        0 <= from <= items.len(),
        spelled(ts, p, values_tokens(items, from)),
        p + values_tokens(items, from).len() < ts.len(),
        ts[p + values_tokens(items, from).len()] == Lexeme::RBracket,
    ensures
        values_at(ts, p) == read(items.skip(from), p + values_tokens(items, from).len() + 1),
    decreases items, items.len() - from,
{
    if from == items.len() {
        assert(items.skip(from) =~= Seq::empty());
    } else {
        let first = value_tokens(items[from]);
        lemma_value_tokens_start(items[from]);
        if from + 1 == items.len() {
            lemma_spelled_index(ts, p, first, 0);
            lemma_value_round_trip(ts, p, items[from]);
            let next = p + first.len();
            assert(skip_comma(ts, next) == next);
            assert(values_at(ts, next) == read(Seq::<ValueView>::empty(), next + 1));
            assert(seq![items[from]] + Seq::empty() =~= items.skip(from));
        } else {
            let rest = values_tokens(items, from + 1);
            lemma_spelled_split(ts, p, first + seq![Lexeme::Comma], rest);
            lemma_spelled_split(ts, p, first, seq![Lexeme::Comma]);
            lemma_spelled_index(ts, p, first, 0);
            lemma_value_round_trip(ts, p, items[from]);
            let next = p + first.len();
            lemma_spelled_index(ts, next, seq![Lexeme::Comma], 0);
            assert(skip_comma(ts, next) == next + 1);
            lemma_values_round_trip(ts, next + 1, items, from + 1);
            assert(seq![items[from]] + items.skip(from + 1) =~= items.skip(from));
        }
    }
}


/// The spelling of an argument is not empty and starts as a value does.
pub proof fn lemma_arg_tokens_start(arg: (Seq<char>, ValueView))
    ensures
        arg_tokens(arg).len() > 0,
        starts_value(arg_tokens(arg)[0]),
{
    lemma_value_tokens_start(arg.1);
}

/// Parsing the spelling of an argument gives the argument back, if no colon
/// follows it.
pub proof fn lemma_arg_round_trip(ts: Seq<Lexeme>, p: int, arg: (Seq<char>, ValueView))
    requires
        value_spellable(arg.1),
        spelled(ts, p, arg_tokens(arg)),
        p + arg_tokens(arg).len() < ts.len() ==> ts[p + arg_tokens(arg).len()] != Lexeme::Colon,
    ensures
        arg_at(ts, p) == read(arg, p + arg_tokens(arg).len()),
{
    lemma_value_tokens_start(arg.1);
    if arg.0.len() == 0 {
        assert(arg.0 =~= Seq::empty());
        lemma_spelled_index(ts, p, value_tokens(arg.1), 0);
        lemma_value_round_trip(ts, p, arg.1);
    } else {
        let head = seq![Lexeme::Name(arg.0), Lexeme::Colon];
        lemma_spelled_split(ts, p, head, value_tokens(arg.1));
        lemma_spelled_index(ts, p, head, 0);
        lemma_spelled_index(ts, p, head, 1);
        lemma_value_round_trip(ts, p + 2, arg.1);
    }
}

/// Parsing the spelling of a list of arguments, with the `)` behind it,
/// gives the arguments back.
pub proof fn lemma_args_round_trip(
    ts: Seq<Lexeme>,
    p: int,
    args: Seq<(Seq<char>, ValueView)>,
    from: int,
)
    requires
        forall|i: int| 0 <= i < args.len() ==> value_spellable((#[trigger] args[i]).1),
        0 <= from <= args.len(),
        spelled(ts, p, args_tokens(args, from)),
        p + args_tokens(args, from).len() < ts.len(),
        ts[p + args_tokens(args, from).len()] == Lexeme::RParen,
    ensures
        args_at(ts, p) == read(args.skip(from), p + args_tokens(args, from).len() + 1),
    decreases args.len() - from,
{
    if from == args.len() {
        assert(args.skip(from) =~= Seq::empty());
    } else {
        let first = arg_tokens(args[from]);
        lemma_arg_tokens_start(args[from]);
        let next = p + first.len();
        if from + 1 == args.len() {
            lemma_spelled_index(ts, p, first, 0);
            lemma_arg_round_trip(ts, p, args[from]);
            assert(skip_comma(ts, next) == next);
            assert(args_at(ts, next) == read(Seq::<(Seq<char>, ValueView)>::empty(), next + 1));
            assert(seq![args[from]] + Seq::empty() =~= args.skip(from));
        } else {
            let rest = args_tokens(args, from + 1);
            lemma_spelled_split(ts, p, first + seq![Lexeme::Comma], rest);
            lemma_spelled_split(ts, p, first, seq![Lexeme::Comma]);
            lemma_spelled_index(ts, p, first, 0);
            lemma_spelled_index(ts, next, seq![Lexeme::Comma], 0);
            lemma_arg_round_trip(ts, p, args[from]);
            assert(skip_comma(ts, next) == next + 1);
            lemma_args_round_trip(ts, next + 1, args, from + 1);
            assert(seq![args[from]] + args.skip(from + 1) =~= args.skip(from));
        }
    }
}

/// Parsing the spelling of the arguments of a field gives them back, if no
/// `(` follows a field without arguments.
pub proof fn lemma_arguments_round_trip(
    ts: Seq<Lexeme>,
    p: int,
    args: Seq<(Seq<char>, ValueView)>,
)
    requires
        forall|i: int| 0 <= i < args.len() ==> value_spellable((#[trigger] args[i]).1),
        spelled(ts, p, arguments_tokens(args)),
        args.len() == 0 && p < ts.len() ==> ts[p] != Lexeme::LParen,
    ensures
        arguments_at(ts, p) == read(args, p + arguments_tokens(args).len()),
{
    if args.len() == 0 {
        assert(args =~= Seq::empty());
    } else {
        let inner = args_tokens(args, 0);
        lemma_spelled_split(ts, p, seq![Lexeme::LParen] + inner, seq![Lexeme::RParen]);
        lemma_spelled_split(ts, p, seq![Lexeme::LParen], inner);
        lemma_spelled_index(ts, p, seq![Lexeme::LParen], 0);
        lemma_spelled_index(ts, p + 1 + inner.len(), seq![Lexeme::RParen], 0);
        lemma_args_round_trip(ts, p + 1, args, 0);
        assert(args.skip(0) =~= args);
    }
}

/// The spelling of a field starts with its name.
pub proof fn lemma_field_tokens_start(f: FieldView)
    ensures
        field_tokens(f).len() > 0,
        field_tokens(f)[0] == Lexeme::Name(f.name),
{
}

/// Whether the token at `p`, if there is one, may follow a field in a
/// selection set: a comma or the closing brace.
pub open spec fn ends_field(ts: Seq<Lexeme>, p: int) -> bool {
    0 <= p < ts.len() ==> ts[p] == Lexeme::Comma || ts[p] == Lexeme::RBrace
}

/// Parsing the spelling of a field gives the field back, wherever in a
/// selection set it stands.
pub proof fn lemma_field_round_trip(ts: Seq<Lexeme>, p: int, f: FieldView)
    requires
        field_spellable(f),
        spelled(ts, p, field_tokens(f)),
        ends_field(ts, p + field_tokens(f).len()),
    ensures
        field_at(ts, p) == read(f, p + field_tokens(f).len()),
    decreases f, 0int,
{
    let head = seq![Lexeme::Name(f.name)];
    let arguments = arguments_tokens(f.args);
    let next = p + 1 + arguments.len();
    if f.fields.len() == 0 {
        lemma_spelled_split(ts, p, head, arguments);
        lemma_spelled_index(ts, p, head, 0);
        lemma_arguments_round_trip(ts, p + 1, f.args);
        assert(f.fields =~= Seq::empty());
    } else {
        let inner = fields_tokens(f.fields, 0);
        lemma_spelled_split(
            ts,
            p,
            head + arguments + seq![Lexeme::LBrace] + inner,
            seq![Lexeme::RBrace],
        );
        lemma_spelled_split(ts, p, head + arguments + seq![Lexeme::LBrace], inner);
        lemma_spelled_split(ts, p, head + arguments, seq![Lexeme::LBrace]);
        lemma_spelled_split(ts, p, head, arguments);
        lemma_spelled_index(ts, p, head, 0);
        lemma_spelled_index(ts, next, seq![Lexeme::LBrace], 0);
        lemma_spelled_index(ts, next + 1 + inner.len(), seq![Lexeme::RBrace], 0);
        lemma_arguments_round_trip(ts, p + 1, f.args);
        lemma_fields_round_trip(ts, next + 1, f.fields, 0);
        assert(f.fields.skip(0) =~= f.fields);
    }
}

/// Parsing the spelling of a list of fields, with the `}` behind it, gives
/// the fields back.
pub proof fn lemma_fields_round_trip(ts: Seq<Lexeme>, p: int, fields: Seq<FieldView>, from: int)
    requires
        forall|i: int| 0 <= i < fields.len() ==> field_spellable(#[trigger] fields[i]),
        0 <= from <= fields.len(),
        spelled(ts, p, fields_tokens(fields, from)),
        p + fields_tokens(fields, from).len() < ts.len(),
        ts[p + fields_tokens(fields, from).len()] == Lexeme::RBrace,
    ensures
        fields_at(ts, p) == read(fields.skip(from), p + fields_tokens(fields, from).len() + 1),
    decreases fields, fields.len() - from,
{
    if from == fields.len() {
        assert(fields.skip(from) =~= Seq::empty());
    } else {
        let first = field_tokens(fields[from]);
        lemma_field_tokens_start(fields[from]);
        let next = p + first.len();
        if from + 1 == fields.len() {
            lemma_spelled_index(ts, p, first, 0);
            lemma_field_round_trip(ts, p, fields[from]);
            assert(skip_comma(ts, next) == next);
            assert(fields_at(ts, next) == read(Seq::<FieldView>::empty(), next + 1));
            assert(seq![fields[from]] + Seq::empty() =~= fields.skip(from));
        } else {
            let rest = fields_tokens(fields, from + 1);
            lemma_spelled_split(ts, p, first + seq![Lexeme::Comma], rest);
            lemma_spelled_split(ts, p, first, seq![Lexeme::Comma]);
            lemma_spelled_index(ts, p, first, 0);
            lemma_spelled_index(ts, next, seq![Lexeme::Comma], 0);
            lemma_field_round_trip(ts, p, fields[from]);
            assert(skip_comma(ts, next) == next + 1);
            lemma_fields_round_trip(ts, next + 1, fields, from + 1);
            assert(seq![fields[from]] + fields.skip(from + 1) =~= fields.skip(from));
        }
    }
}

/// The tokens that spell a selection set of `fields`, braces included.
pub open spec fn selection_tokens(fields: Seq<FieldView>) -> Seq<Lexeme> {
    seq![Lexeme::LBrace] + fields_tokens(fields, 0) + seq![Lexeme::RBrace]
}

/// Parsing keeps the shape of a selection set: from the spelling of any
/// number of fields, each with any number of arguments and of nested
/// fields, it reads exactly these fields, arguments and nested fields, in
/// their order.
pub proof fn law_selection_round_trip(fields: Seq<FieldView>)
    requires
        fields.len() > 0,
        forall|i: int| 0 <= i < fields.len() ==> field_spellable(#[trigger] fields[i]),
    ensures
        selection_at(selection_tokens(fields), 0) == read(
            fields,
            selection_tokens(fields).len() as int,
        ),
{
    let ts = selection_tokens(fields);
    let inner = fields_tokens(fields, 0);
    assert(ts.subrange(0, ts.len() as int) =~= ts);
    lemma_spelled_split(ts, 0, seq![Lexeme::LBrace] + inner, seq![Lexeme::RBrace]);
    lemma_spelled_split(ts, 0, seq![Lexeme::LBrace], inner);
    lemma_spelled_index(ts, 1int + inner.len(), seq![Lexeme::RBrace], 0);
    lemma_fields_round_trip(ts, 1, fields, 0);
    assert(fields.skip(0) =~= fields);
}

/// Parsing the spelling of a query gives the query back.
pub proof fn law_query_round_trip(f: FieldView)
    requires
        field_spellable(f),
    ensures
        operation_of(query_tokens(f)) == Ok::<OperationView, (ParseErrorKind, int)>(
            OperationView::Query(f),
        ),
{
    let ts = query_tokens(f);
    let head = seq![Lexeme::Name("query"@), Lexeme::LBrace];
    let fields = seq![f];
    assert(ts.subrange(0, ts.len() as int) =~= ts);
    lemma_spelled_split(ts, 0, head + field_tokens(f), seq![Lexeme::RBrace]);
    lemma_spelled_split(ts, 0, head, field_tokens(f));
    lemma_spelled_index(ts, 0, head, 0);
    lemma_spelled_index(ts, 0, head, 1);
    lemma_spelled_index(ts, 2int + field_tokens(f).len(), seq![Lexeme::RBrace], 0);
    assert(fields_tokens(fields, 0) == field_tokens(f));
    lemma_fields_round_trip(ts, 2, fields, 0);
    assert(fields.skip(0) =~= fields);
}


/// Whether the tokens from `p` up to `q` spell the value `v`, in any of the
/// ways the grammar allows.
pub open spec fn spells_value(ts: Seq<Lexeme>, p: int, q: int, v: ValueView) -> bool
    decreases v, 0int,
{
    &&& 0 <= p < ts.len()
    &&& match v {
        ValueView::Null => ts[p] == Lexeme::Name("null"@) && q == p + 1,
        ValueView::String(s) => ts[p] == Lexeme::Str(s) && q == p + 1,
        ValueView::Name(n) => (ts[p] == Lexeme::Name(n) || ts[p] == Lexeme::Number(n)) && n
            != "null"@ && q == p + 1,
        ValueView::Array(items) => ts[p] == Lexeme::LBracket && spells_values(
            ts,
            p + 1,
            q,
            items,
            0,
        ),
    }
}

/// Whether the tokens from `p` up to `q` spell the values from `from` on,
/// each with or without a comma behind it, and then `]`.
pub open spec fn spells_values(
    ts: Seq<Lexeme>,
    p: int,
    q: int,
    items: Seq<ValueView>,
    from: int,
) -> bool
    decreases items, items.len() - from,
{
    if 0 <= from < items.len() {
        exists|mid: int|
            spells_value(ts, p, mid, items[from]) && spells_values(
                ts,
                #[trigger] skip_comma(ts, mid),
                q,
                items,
                from + 1,
            )
    } else {
        0 <= p < ts.len() && ts[p] == Lexeme::RBracket && q == p + 1
    }
}

/// Whether a name and a colon stand at `p`.
pub open spec fn names_arg(ts: Seq<Lexeme>, p: int) -> bool {
    0 <= p && p + 1 < ts.len() && ts[p] is Name && ts[p + 1] == Lexeme::Colon
}

/// Whether the tokens from `p` up to `q` spell the argument `arg`: its
/// name, a colon and its value, or, where no name and colon stand, the
/// value of an argument with the empty name.
pub open spec fn spells_arg(ts: Seq<Lexeme>, p: int, q: int, arg: (Seq<char>, ValueView)) -> bool {
    if names_arg(ts, p) {
        ts[p] == Lexeme::Name(arg.0) && spells_value(ts, p + 2, q, arg.1)
    } else {
        arg.0 == Seq::<char>::empty() && spells_value(ts, p, q, arg.1)
    }
}

/// Whether the tokens from `p` up to `q` spell the arguments from `from`
/// on, each with or without a comma behind it, and then `)`.
pub open spec fn spells_args(
    ts: Seq<Lexeme>,
    p: int,
    q: int,
    args: Seq<(Seq<char>, ValueView)>,
    from: int,
) -> bool
    decreases args.len() - from,
{
    if 0 <= from < args.len() {
        exists|mid: int|
            spells_arg(ts, p, mid, args[from]) && spells_args(
                ts,
                #[trigger] skip_comma(ts, mid),
                q,
                args,
                from + 1,
            )
    } else {
        0 <= p < ts.len() && ts[p] == Lexeme::RParen && q == p + 1
    }
}

/// Whether the tokens from `p` up to `q` spell the arguments of a field:
/// nothing, and no `(`, for a field without arguments, else the arguments
/// in round brackets.
pub open spec fn spells_arguments(
    ts: Seq<Lexeme>,
    p: int,
    q: int,
    args: Seq<(Seq<char>, ValueView)>,
) -> bool {
    if args.len() == 0 {
        q == p && !(0 <= p < ts.len() && ts[p] == Lexeme::LParen)
    } else {
        0 <= p < ts.len() && ts[p] == Lexeme::LParen && spells_args(ts, p + 1, q, args, 0)
    }
}

/// Whether the tokens from `p` up to `q` spell the field `f`: its name,
/// its arguments and, in braces, its fields.
pub open spec fn spells_field(ts: Seq<Lexeme>, p: int, q: int, f: FieldView) -> bool
    decreases f, 0int,
{
    &&& 0 <= p < ts.len()
    &&& ts[p] == Lexeme::Name(f.name)
    &&& f.alias is None
    &&& exists|mid: int|
        #[trigger] spells_arguments(ts, p + 1, mid, f.args) && if f.fields.len() == 0 {
            q == mid && !(0 <= mid < ts.len() && ts[mid] == Lexeme::LBrace)
        } else {
            0 <= mid < ts.len() && ts[mid] == Lexeme::LBrace && spells_fields(
                ts,
                mid + 1,
                q,
                f.fields,
                0,
            )
        }
}

/// Whether the tokens from `p` up to `q` spell the fields from `from` on,
/// each with or without a comma behind it, and then `}`.
pub open spec fn spells_fields(
    ts: Seq<Lexeme>,
    p: int,
    q: int,
    fields: Seq<FieldView>,
    from: int,
) -> bool
    decreases fields, fields.len() - from,
{
    if 0 <= from < fields.len() {
        exists|mid: int|
            spells_field(ts, p, mid, fields[from]) && spells_fields(
                ts,
                #[trigger] skip_comma(ts, mid),
                q,
                fields,
                from + 1,
            )
    } else {
        0 <= p < ts.len() && ts[p] == Lexeme::RBrace && q == p + 1
    }
}

/// Whatever spells a value is parsed as that value.
pub proof fn lemma_spelled_value(ts: Seq<Lexeme>, p: int, q: int, v: ValueView)
    requires
        spells_value(ts, p, q, v),
    ensures
        value_at(ts, p) == read(v, q),
        p < q <= ts.len(),
    decreases v, 0int,
{
    match v {
        ValueView::Array(items) => {
            lemma_spelled_values(ts, p + 1, q, items, 0);
            assert(items.skip(0) =~= items);
        },
        _ => {},
    }
}

/// Whatever spells a list of values is parsed as those values, in their
/// order.
pub proof fn lemma_spelled_values(
    ts: Seq<Lexeme>,
    p: int,
    q: int,
    items: Seq<ValueView>,
    from: int,
)
    requires
        0 <= from <= items.len(),
        spells_values(ts, p, q, items, from),
    ensures
        values_at(ts, p) == read(items.skip(from), q),
        p < q <= ts.len(),
    decreases items, items.len() - from,
{
    if from < items.len() {
        let mid = choose|mid: int|
            spells_value(ts, p, mid, items[from]) && spells_values(
                ts,
                #[trigger] skip_comma(ts, mid),
                q,
                items,
                from + 1,
            );
        lemma_spelled_value(ts, p, mid, items[from]);
        lemma_spelled_values(ts, skip_comma(ts, mid), q, items, from + 1);
        assert(seq![items[from]] + items.skip(from + 1) =~= items.skip(from));
    } else {
        assert(items.skip(from) =~= Seq::empty());
    }
}

/// Whatever spells an argument is parsed as that argument.
pub proof fn lemma_spelled_arg(ts: Seq<Lexeme>, p: int, q: int, arg: (Seq<char>, ValueView))
    requires
        spells_arg(ts, p, q, arg),
    ensures
        arg_at(ts, p) == read(arg, q),
        0 <= p < q <= ts.len(),
        ts[p] != Lexeme::RParen,
{
    if names_arg(ts, p) {
        lemma_spelled_value(ts, p + 2, q, arg.1);
    } else {
        lemma_spelled_value(ts, p, q, arg.1);
    }
}

/// Whatever spells a list of arguments is parsed as those arguments, in
/// their order.
pub proof fn lemma_spelled_args(
    ts: Seq<Lexeme>,
    p: int,
    q: int,
    args: Seq<(Seq<char>, ValueView)>,
    from: int,
)
    requires
        0 <= from <= args.len(),
        spells_args(ts, p, q, args, from),
    ensures
        args_at(ts, p) == read(args.skip(from), q),
        p < q <= ts.len(),
    decreases args.len() - from,
{
    if from < args.len() {
        let mid = choose|mid: int|
            spells_arg(ts, p, mid, args[from]) && spells_args(
                ts,
                #[trigger] skip_comma(ts, mid),
                q,
                args,
                from + 1,
            );
        lemma_spelled_arg(ts, p, mid, args[from]);
        lemma_spelled_args(ts, skip_comma(ts, mid), q, args, from + 1);
        assert(seq![args[from]] + args.skip(from + 1) =~= args.skip(from));
    } else {
        assert(args.skip(from) =~= Seq::empty());
    }
}

/// Whatever spells the arguments of a field is parsed as those arguments.
pub proof fn lemma_spelled_arguments(
    ts: Seq<Lexeme>,
    p: int,
    q: int,
    args: Seq<(Seq<char>, ValueView)>,
)
    requires
        spells_arguments(ts, p, q, args),
    ensures
        arguments_at(ts, p) == read(args, q),
{
    if args.len() == 0 {
        assert(args =~= Seq::empty());
    } else {
        lemma_spelled_args(ts, p + 1, q, args, 0);
        assert(args.skip(0) =~= args);
    }
}

/// Whatever spells a field is parsed as that field.
pub proof fn lemma_spelled_field(ts: Seq<Lexeme>, p: int, q: int, f: FieldView)
    requires
        spells_field(ts, p, q, f),
    ensures
        field_at(ts, p) == read(f, q),
        p < q <= ts.len(),
    decreases f, 0int,
{
    let mid = choose|mid: int|
        #[trigger] spells_arguments(ts, p + 1, mid, f.args) && if f.fields.len() == 0 {
            q == mid && !(0 <= mid < ts.len() && ts[mid] == Lexeme::LBrace)
        } else {
            0 <= mid < ts.len() && ts[mid] == Lexeme::LBrace && spells_fields(
                ts,
                mid + 1,
                q,
                f.fields,
                0,
            )
        };
    lemma_spelled_arguments(ts, p + 1, mid, f.args);
    lemma_arguments_at(ts, p + 1);
    if f.fields.len() == 0 {
        assert(f.fields =~= Seq::empty());
    } else {
        lemma_spelled_fields(ts, mid + 1, q, f.fields, 0);
        assert(f.fields.skip(0) =~= f.fields);
    }
}

/// Whatever spells a list of fields is parsed as those fields, in their
/// order.
pub proof fn lemma_spelled_fields(
    ts: Seq<Lexeme>,
    p: int,
    q: int,
    fields: Seq<FieldView>,
    from: int,
)
    requires
        0 <= from <= fields.len(),
        spells_fields(ts, p, q, fields, from),
    ensures
        fields_at(ts, p) == read(fields.skip(from), q),
        p < q <= ts.len(),
    decreases fields, fields.len() - from,
{
    if from < fields.len() {
        let mid = choose|mid: int|
            spells_field(ts, p, mid, fields[from]) && spells_fields(
                ts,
                #[trigger] skip_comma(ts, mid),
                q,
                fields,
                from + 1,
            );
        lemma_spelled_field(ts, p, mid, fields[from]);
        lemma_spelled_fields(ts, skip_comma(ts, mid), q, fields, from + 1);
        assert(seq![fields[from]] + fields.skip(from + 1) =~= fields.skip(from));
    } else {
        assert(fields.skip(from) =~= Seq::empty());
    }
}

/// Whether the tokens spell a selection set of `fields` from `p` up to
/// `q`: `{`, at least one field, `}`.
pub open spec fn spells_selection(ts: Seq<Lexeme>, p: int, q: int, fields: Seq<FieldView>) -> bool {
    0 <= p < ts.len() && ts[p] == Lexeme::LBrace && fields.len() > 0 && spells_fields(
        ts,
        p + 1,
        q,
        fields,
        0,
    )
}

/// Whether the tokens, all of them, spell a query with the root field `f`.
pub open spec fn spells_query(ts: Seq<Lexeme>, f: FieldView) -> bool {
    ts.len() > 0 && ts[0] == Lexeme::Name("query"@) && spells_selection(
        ts,
        1,
        ts.len() as int,
        seq![f],
    )
}

/// Parsing keeps the shape of every selection set, however it is spelled:
/// of any number of fields, each with any number of arguments and of nested
/// fields, with or without commas, it reads exactly these fields,
/// arguments and nested fields, in their order.
pub proof fn law_selection_is_parsed(ts: Seq<Lexeme>, p: int, q: int, fields: Seq<FieldView>)
    requires
        spells_selection(ts, p, q, fields),
    ensures
        selection_at(ts, p) == read(fields, q),
{
    lemma_spelled_fields(ts, p + 1, q, fields, 0);
    assert(fields.skip(0) =~= fields);
}

/// Whatever spells a query is parsed as that query.
pub proof fn law_query_is_parsed(ts: Seq<Lexeme>, f: FieldView)
    requires
        spells_query(ts, f),
    ensures
        operation_of(ts) == Ok::<OperationView, (ParseErrorKind, int)>(OperationView::Query(f)),
{
    law_selection_is_parsed(ts, 1, ts.len() as int, seq![f]);
}

} // verus!

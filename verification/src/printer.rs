//! Writing a program back as tokens.
//!
//! Nothing here runs: the functions say which token sequence stands for a
//! program, and the lemmas show that the parser reads that sequence back to the
//! same program.

use vstd::prelude::*;
use crate::ast::ExpressionView;
use crate::ast::StatementView;
use crate::parser::expression::lemma_atomic_expression_bounds;
use crate::parser::expression::lemma_expression_bounds;
use crate::parser::expression::spec_atomic_expression;
use crate::parser::expression::spec_expression;
use crate::parser::expression::spec_map_entries;
use crate::parser::expression::spec_tuple_members;
use crate::parser::expression::spec_union_members;
use crate::parser::lemma_statement_bounds;
use crate::parser::spec_idents;
use crate::parser::spec_parse;
use crate::parser::spec_statement;
use crate::parser::spec_statements;
use crate::parser::util::ident_at;
use crate::parser::util::keyword_at;
use crate::parser::util::Parsed;
use crate::parser::util::string_literal_at;
use crate::parser::util::token_at;
use crate::tokenizer::TokenView;

verus! {

/// Whether `e` can be a member of a union.
pub open spec fn is_atomic(e: ExpressionView) -> bool {
    e is StringLiteral || e is TemplateLiteral || e is BooleanLiteral || e is Var
        || e is MapLiteral || e is Tuple
}

/// Whether `e` is an expression that the grammar can produce: each union in it
/// has two members or more, all of them atomic.
pub open spec fn well_formed(e: ExpressionView) -> bool
    decreases e,
{
    match e {
        ExpressionView::StringLiteral { .. } => true,
        ExpressionView::TemplateLiteral { .. } => true,
        ExpressionView::BooleanLiteral { .. } => true,
        ExpressionView::Var { .. } => true,
        ExpressionView::MapLiteral { pairs } => forall|i: int|
            0 <= i < pairs.len() ==> well_formed(#[trigger] pairs[i].1),
        ExpressionView::Tuple { values } => forall|i: int|
            0 <= i < values.len() ==> well_formed(#[trigger] values[i]),
        ExpressionView::Union { exprs } => exprs.len() >= 2 && forall|i: int|
            0 <= i < exprs.len() ==> is_atomic(#[trigger] exprs[i]) && well_formed(exprs[i]),
        ExpressionView::Distribute { body, .. } => well_formed(*body),
        ExpressionView::IfMatch { target, then_expr, else_expr, .. } => well_formed(*target)
            && well_formed(*then_expr) && well_formed(*else_expr),
    }
}

/// Whether `statement` is one that the grammar can produce: its expression is
/// well formed, and a rule has at least one parameter.
pub open spec fn well_formed_statement(statement: StatementView) -> bool {
    match statement {
        StatementView::Let { value, .. } => well_formed(value),
        StatementView::Fn { args, body, .. } => args.len() >= 1 && well_formed(body),
    }
}

/// Every member of `exprs` is well formed.
pub open spec fn all_well_formed(exprs: Seq<ExpressionView>) -> bool {
    forall|i: int| 0 <= i < exprs.len() ==> well_formed(#[trigger] exprs[i])
}

/// Every member of `exprs` is atomic and well formed.
pub open spec fn all_atomic(exprs: Seq<ExpressionView>) -> bool {
    forall|i: int| 0 <= i < exprs.len() ==> is_atomic(#[trigger] exprs[i]) && well_formed(exprs[i])
}

/// Every value of `pairs` is well formed.
pub open spec fn all_values_well_formed(pairs: Seq<(Seq<char>, ExpressionView)>) -> bool {
    forall|i: int| 0 <= i < pairs.len() ==> well_formed(#[trigger] pairs[i].1)
}

/// Every statement of `program` is well formed.
pub open spec fn all_statements_well_formed(program: Seq<StatementView>) -> bool {
    forall|i: int| 0 <= i < program.len() ==> well_formed_statement(#[trigger] program[i])
}

/// The tokens that stand for `e`.
pub open spec fn expression_tokens(e: ExpressionView) -> Seq<TokenView>
    decreases e, 0nat,
{
    match e {
        ExpressionView::StringLiteral { value } => seq![TokenView::StringLiteral(value)],
        ExpressionView::TemplateLiteral { items } => seq![TokenView::TemplateLiteral(items)],
        ExpressionView::BooleanLiteral { value } => seq![
            TokenView::Keyword(
                if value {
                    "true"@
                } else {
                    "false"@
                },
            ),
        ],
        ExpressionView::Var { name } => seq![TokenView::Ident(name)],
        ExpressionView::MapLiteral { pairs } => seq![TokenView::OpenBrace] + entries_tokens(
            pairs,
            0,
        ) + seq![TokenView::CloseBrace],
        ExpressionView::Tuple { values } => seq![TokenView::OpenBracket] + members_tokens(
            values,
            0,
            TokenView::Comma,
        ) + seq![TokenView::CloseBracket],
        ExpressionView::Union { exprs } => members_tokens(exprs, 0, TokenView::Bar),
        ExpressionView::Distribute { ident, body } => seq![
            TokenView::Keyword("distribute"@),
            TokenView::Ident(ident),
            TokenView::Keyword("in"@),
        ] + expression_tokens(*body),
        ExpressionView::IfMatch { target, pattern, then_expr, else_expr } => seq![
            TokenView::HyphenedKeyword("if"@, "match"@),
        ] + expression_tokens(*target) + seq![
            TokenView::Keyword("with"@),
            TokenView::TemplateLiteral(pattern),
            TokenView::Keyword("then"@),
        ] + expression_tokens(*then_expr) + seq![TokenView::Keyword("else"@)] + expression_tokens(
            *else_expr,
        ),
    }
}

/// The tokens that stand for the expressions of `exprs` from index `from` on,
/// with `separator` between each two.
pub open spec fn members_tokens(exprs: Seq<ExpressionView>, from: nat, separator: TokenView) -> Seq<
    TokenView,
>
    decreases exprs, exprs.len() - from,
{
    if from >= exprs.len() {
        Seq::empty()
    } else if from + 1 == exprs.len() {
        expression_tokens(exprs[from as int])
    } else {
        expression_tokens(exprs[from as int]) + seq![separator] + members_tokens(
            exprs,
            from + 1,
            separator,
        )
    }
}

/// The tokens that stand for the entries of `pairs` from index `from` on.
pub open spec fn entries_tokens(pairs: Seq<(Seq<char>, ExpressionView)>, from: nat) -> Seq<
    TokenView,
>
    decreases pairs, pairs.len() - from,
{
    if from >= pairs.len() {
        Seq::empty()
    } else {
        seq![TokenView::StringLiteral(pairs[from as int].0), TokenView::Colon] + expression_tokens(
            pairs[from as int].1,
        ) + seq![TokenView::SemiColon] + entries_tokens(pairs, from + 1)
    }
}

/// One identifier token for each name.
pub open spec fn idents_tokens(names: Seq<Seq<char>>) -> Seq<TokenView> {
    Seq::new(names.len(), |i: int| TokenView::Ident(names[i]))
}

/// The tokens that stand for `statement`.
pub open spec fn statement_tokens(statement: StatementView) -> Seq<TokenView> {
    match statement {
        StatementView::Let { name, value } => seq![
            TokenView::Keyword("let"@),
            TokenView::Ident(name),
            TokenView::Equal,
        ] + expression_tokens(value) + seq![TokenView::SemiColon],
        StatementView::Fn { name, args, body } => seq![
            TokenView::Keyword("fn"@),
            TokenView::Ident(name),
        ] + idents_tokens(args) + seq![TokenView::Equal] + expression_tokens(body) + seq![
            TokenView::SemiColon,
        ],
    }
}

/// The tokens that stand for the statements of `program` from index `from` on.
pub open spec fn statements_tokens(program: Seq<StatementView>, from: nat) -> Seq<TokenView>
    decreases program.len() - from,
{
    if from >= program.len() {
        Seq::empty()
    } else {
        statement_tokens(program[from as int]) + statements_tokens(program, from + 1)
    }
}

/// The tokens that stand for `program`.
pub open spec fn program_tokens(program: Seq<StatementView>) -> Seq<TokenView> {
    statements_tokens(program, 0)
}

/// Whether the tokens of `part` stand in `tokens` from `pos` on.
pub open spec fn stands_at(tokens: Seq<TokenView>, pos: int, part: Seq<TokenView>) -> bool {
    0 <= pos && pos + part.len() <= tokens.len() && tokens.subrange(pos, pos + part.len()) == part
}

/// Where `a` followed by `b` stands, `a` stands, and `b` stands after it.
pub proof fn lemma_stands_split(
    tokens: Seq<TokenView>,
    pos: int,
    a: Seq<TokenView>,
    b: Seq<TokenView>,
)
    requires
        stands_at(tokens, pos, a + b),
    ensures
        stands_at(tokens, pos, a),
        stands_at(tokens, pos + a.len(), b),
{
    let whole = tokens.subrange(pos, pos + (a + b).len());
    assert(tokens.subrange(pos, pos + a.len()) =~= whole.subrange(0, a.len() as int));
    assert((a + b).subrange(0, a.len() as int) =~= a);
    assert(tokens.subrange(pos + a.len(), pos + a.len() + b.len()) =~= whole.subrange(
        a.len() as int,
        (a + b).len() as int,
    ));
    assert((a + b).subrange(a.len() as int, (a + b).len() as int) =~= b);
}

/// Where `part` stands, its token of index `k` stands at `pos + k`.
pub proof fn lemma_stands_index(tokens: Seq<TokenView>, pos: int, part: Seq<TokenView>, k: int)
    requires
        stands_at(tokens, pos, part),
        0 <= k < part.len(),
    ensures
        tokens[pos + k] == part[k],
{
}

/// Whether an expression can start with `token`.
pub open spec fn starts_expression(token: TokenView) -> bool {
    token is StringLiteral || token is TemplateLiteral || token is Keyword || token is Ident
        || token is OpenBrace || token is OpenBracket || token is HyphenedKeyword
}

/// The tokens of an expression are at least one, and the first of them starts an
/// expression.
pub proof fn lemma_first_token(e: ExpressionView)
    requires
        well_formed(e),
    ensures
        expression_tokens(e).len() > 0,
        starts_expression(expression_tokens(e)[0]),
        is_atomic(e) ==> !(expression_tokens(e)[0] is HyphenedKeyword) && expression_tokens(e)[0]
            != TokenView::Keyword("distribute"@),
    decreases e,
{
    reveal_strlit("true");
    reveal_strlit("false");
    reveal_strlit("distribute");
    match e {
        ExpressionView::Union { exprs } => {
            let first = expression_tokens(exprs[0]);
            assert(members_tokens(exprs, 0, TokenView::Bar) == first + seq![TokenView::Bar]
                + members_tokens(exprs, 1, TokenView::Bar));
        },
        ExpressionView::BooleanLiteral { value } => {
            assert("true"@.len() == 4 && "false"@.len() == 5 && "distribute"@.len() == 10);
        },
        _ => {},
    }
}

/// The tokens of the members of a list from `from` on are at least one, and the
/// first of them starts an expression.
pub proof fn lemma_members_first_token(exprs: Seq<ExpressionView>, from: nat, separator: TokenView)
    requires
        from < exprs.len(),
        all_well_formed(exprs),
    ensures
        members_tokens(exprs, from, separator).len() > 0,
        members_tokens(exprs, from, separator)[0] == expression_tokens(exprs[from as int])[0],
        starts_expression(members_tokens(exprs, from, separator)[0]),
{
    lemma_first_token(exprs[from as int]);
}

/// The tokens of an expression are parsed back to it, unless a `|` follows
/// them.
pub proof fn lemma_expression_parses(e: ExpressionView, tokens: Seq<TokenView>, pos: int)
    requires
        well_formed(e),
        stands_at(tokens, pos, expression_tokens(e)),
        !token_at(tokens, pos + expression_tokens(e).len(), TokenView::Bar),
    ensures
        spec_expression(tokens, pos) == Parsed::Done(e, pos + expression_tokens(e).len()),
    decreases e, 1nat,
{
    lemma_first_token(e);
    match e {
        ExpressionView::Distribute { ident, body } => {
            let head = seq![
                TokenView::Keyword("distribute"@),
                TokenView::Ident(ident),
                TokenView::Keyword("in"@),
            ];
            lemma_stands_split(tokens, pos, head, expression_tokens(*body));
            lemma_expression_parses(*body, tokens, pos + 3);
        },
        ExpressionView::IfMatch { target, pattern, then_expr, else_expr } => {
            let head = seq![TokenView::HyphenedKeyword("if"@, "match"@)];
            let first = expression_tokens(*target);
            let middle = seq![
                TokenView::Keyword("with"@),
                TokenView::TemplateLiteral(pattern),
                TokenView::Keyword("then"@),
            ];
            let second = expression_tokens(*then_expr);
            let otherwise = seq![TokenView::Keyword("else"@)];
            let third = expression_tokens(*else_expr);
            lemma_stands_split(tokens, pos, head + first + middle + second + otherwise, third);
            lemma_stands_split(tokens, pos, head + first + middle + second, otherwise);
            lemma_stands_split(tokens, pos, head + first + middle, second);
            lemma_stands_split(tokens, pos, head + first, middle);
            lemma_stands_split(tokens, pos, head, first);
            let with = pos + 1 + first.len();
            let end = with + 3 + second.len();
            lemma_stands_index(tokens, end, otherwise, 0);
            lemma_expression_parses(*target, tokens, pos + 1);
            lemma_expression_parses(*then_expr, tokens, with + 3);
            lemma_expression_parses(*else_expr, tokens, end + 1);
        },
        ExpressionView::Union { exprs } => {
            lemma_first_token(exprs[0]);
            lemma_union_members_parse(exprs, 0, tokens, pos);
            assert(exprs.skip(0) =~= exprs);
        },
        _ => {
            lemma_atomic_expression_parses(e, tokens, pos);
        },
    }
}

/// The tokens of an atomic expression are parsed back to it.
pub proof fn lemma_atomic_expression_parses(e: ExpressionView, tokens: Seq<TokenView>, pos: int)
    requires
        is_atomic(e),
        well_formed(e),
        stands_at(tokens, pos, expression_tokens(e)),
    ensures
        spec_atomic_expression(tokens, pos) == Parsed::Done(e, pos + expression_tokens(e).len()),
    decreases e, 0nat,
{
    reveal_strlit("true");
    reveal_strlit("false");
    let part = expression_tokens(e);
    match e {
        ExpressionView::MapLiteral { pairs } => {
            let inner = entries_tokens(pairs, 0);
            lemma_stands_split(
                tokens,
                pos,
                seq![TokenView::OpenBrace] + inner,
                seq![TokenView::CloseBrace],
            );
            lemma_stands_split(tokens, pos, seq![TokenView::OpenBrace], inner);
            lemma_stands_index(tokens, pos, seq![TokenView::OpenBrace], 0);
            lemma_stands_index(tokens, pos + 1 + inner.len(), seq![TokenView::CloseBrace], 0);
            lemma_entries_parse(pairs, 0, tokens, pos + 1);
            assert(pairs.skip(0) =~= pairs);
        },
        ExpressionView::Tuple { values } => {
            let inner = members_tokens(values, 0, TokenView::Comma);
            lemma_stands_split(
                tokens,
                pos,
                seq![TokenView::OpenBracket] + inner,
                seq![TokenView::CloseBracket],
            );
            lemma_stands_split(tokens, pos, seq![TokenView::OpenBracket], inner);
            lemma_stands_index(tokens, pos, seq![TokenView::OpenBracket], 0);
            lemma_stands_index(tokens, pos + 1 + inner.len(), seq![TokenView::CloseBracket], 0);
            if values.len() == 0 {
                assert(values =~= Seq::<ExpressionView>::empty());
            } else {
                lemma_members_first_token(values, 0, TokenView::Comma);
                lemma_tuple_members_parse(values, 0, tokens, pos + 1);
                assert(values.skip(0) =~= values);
            }
        },
        ExpressionView::BooleanLiteral { value } => {
            lemma_stands_index(tokens, pos, part, 0);
            assert("true"@.len() == 4 && "false"@.len() == 5);
        },
        _ => {
            lemma_stands_index(tokens, pos, part, 0);
        },
    }
}

/// The tokens of the members of a union from `from` on are parsed back to them,
/// unless a `|` follows.
pub proof fn lemma_union_members_parse(
    exprs: Seq<ExpressionView>,
    from: nat,
    tokens: Seq<TokenView>,
    pos: int,
)
    requires
        from < exprs.len(),
        all_atomic(exprs),
        stands_at(tokens, pos, members_tokens(exprs, from, TokenView::Bar)),
        !token_at(
            tokens,
            pos + members_tokens(exprs, from, TokenView::Bar).len(),
            TokenView::Bar,
        ),
    ensures
        spec_union_members(tokens, pos) == Parsed::Done(
            exprs.skip(from as int),
            pos + members_tokens(exprs, from, TokenView::Bar).len(),
        ),
    decreases exprs, exprs.len() - from,
{
    let member = exprs[from as int];
    let first = expression_tokens(member);
    if from + 1 == exprs.len() {
        lemma_atomic_expression_parses(member, tokens, pos);
        assert(exprs.skip(from as int) =~= seq![member]);
    } else {
        let rest = members_tokens(exprs, from + 1, TokenView::Bar);
        lemma_stands_split(tokens, pos, first + seq![TokenView::Bar], rest);
        lemma_stands_split(tokens, pos, first, seq![TokenView::Bar]);
        lemma_stands_index(tokens, pos + first.len(), seq![TokenView::Bar], 0);
        lemma_atomic_expression_parses(member, tokens, pos);
        lemma_union_members_parse(exprs, from + 1, tokens, pos + first.len() + 1);
        assert(exprs.skip(from as int) =~= seq![member] + exprs.skip(from as int + 1));
    }
}

/// The tokens of the members of a tuple from `from` on are parsed back to them,
/// where the closing bracket follows.
pub proof fn lemma_tuple_members_parse(
    values: Seq<ExpressionView>,
    from: nat,
    tokens: Seq<TokenView>,
    pos: int,
)
    requires
        from < values.len(),
        all_well_formed(values),
        stands_at(tokens, pos, members_tokens(values, from, TokenView::Comma)),
        token_at(
            tokens,
            pos + members_tokens(values, from, TokenView::Comma).len(),
            TokenView::CloseBracket,
        ),
    ensures
        spec_tuple_members(tokens, pos) == Parsed::Done(
            values.skip(from as int),
            pos + members_tokens(values, from, TokenView::Comma).len(),
        ),
    decreases values, values.len() - from,
{
    let member = values[from as int];
    let first = expression_tokens(member);
    lemma_first_token(member);
    if from + 1 == values.len() {
        lemma_expression_parses(member, tokens, pos);
        assert(values.skip(from as int) =~= seq![member]);
    } else {
        let rest = members_tokens(values, from + 1, TokenView::Comma);
        lemma_stands_split(tokens, pos, first + seq![TokenView::Comma], rest);
        lemma_stands_split(tokens, pos, first, seq![TokenView::Comma]);
        lemma_stands_index(tokens, pos + first.len(), seq![TokenView::Comma], 0);
        lemma_expression_parses(member, tokens, pos);
        lemma_tuple_members_parse(values, from + 1, tokens, pos + first.len() + 1);
        assert(values.skip(from as int) =~= seq![member] + values.skip(from as int + 1));
    }
}

/// The tokens of the entries of a map from `from` on are parsed back to them,
/// where the closing brace follows.
pub proof fn lemma_entries_parse(
    pairs: Seq<(Seq<char>, ExpressionView)>,
    from: nat,
    tokens: Seq<TokenView>,
    pos: int,
)
    requires
        from <= pairs.len(),
        all_values_well_formed(pairs),
        stands_at(tokens, pos, entries_tokens(pairs, from)),
        token_at(tokens, pos + entries_tokens(pairs, from).len(), TokenView::CloseBrace),
    ensures
        spec_map_entries(tokens, pos) == Parsed::Done(
            pairs.skip(from as int),
            pos + entries_tokens(pairs, from).len(),
        ),
    decreases pairs, pairs.len() - from,
{
    if from == pairs.len() {
        assert(pairs.skip(from as int) =~= Seq::<(Seq<char>, ExpressionView)>::empty());
    } else {
        let (key, value) = pairs[from as int];
        let head = seq![TokenView::StringLiteral(key), TokenView::Colon];
        let middle = expression_tokens(value);
        let semi = seq![TokenView::SemiColon];
        let rest = entries_tokens(pairs, from + 1);
        lemma_stands_split(tokens, pos, head + middle + semi, rest);
        lemma_stands_split(tokens, pos, head + middle, semi);
        lemma_stands_split(tokens, pos, head, middle);
        lemma_stands_index(tokens, pos + 2 + middle.len(), semi, 0);
        lemma_expression_parses(value, tokens, pos + 2);
        lemma_entries_parse(pairs, from + 1, tokens, pos + 2 + middle.len() + 1);
        assert(pairs.skip(from as int) =~= seq![(key, value)] + pairs.skip(from as int + 1));
    }
}

/// Where identifier tokens for `names` stand, followed by a token that is no
/// identifier, the identifiers read there are `names` from `from` on.
pub proof fn lemma_idents_parse(names: Seq<Seq<char>>, from: nat, tokens: Seq<TokenView>, pos: int)
    requires
        from <= names.len(),
        stands_at(tokens, pos, idents_tokens(names)),
        ident_at(tokens, pos + names.len()) is None,
    ensures
        spec_idents(tokens, pos + from) == names.skip(from as int),
    decreases names.len() - from,
{
    if from < names.len() {
        lemma_stands_index(tokens, pos, idents_tokens(names), from as int);
        lemma_idents_parse(names, from + 1, tokens, pos);
    }
}

/// The tokens of a statement are parsed back to it.
pub proof fn lemma_statement_parses(statement: StatementView, tokens: Seq<TokenView>, pos: int)
    requires
        well_formed_statement(statement),
        stands_at(tokens, pos, statement_tokens(statement)),
    ensures
        spec_statement(tokens, pos) == Parsed::Done(
            statement,
            pos + statement_tokens(statement).len(),
        ),
{
    reveal_strlit("let");
    reveal_strlit("fn");
    assert("let"@.len() == 3 && "fn"@.len() == 2);
    let semi = seq![TokenView::SemiColon];
    match statement {
        StatementView::Let { name, value } => {
            let head = seq![TokenView::Keyword("let"@), TokenView::Ident(name), TokenView::Equal];
            let middle = expression_tokens(value);
            lemma_stands_split(tokens, pos, head + middle, semi);
            lemma_stands_split(tokens, pos, head, middle);
            lemma_stands_index(tokens, pos + 3 + middle.len(), semi, 0);
            lemma_expression_parses(value, tokens, pos + 3);
        },
        StatementView::Fn { name, args, body } => {
            let head = seq![TokenView::Keyword("fn"@), TokenView::Ident(name)];
            let params = idents_tokens(args);
            let equal = seq![TokenView::Equal];
            let middle = expression_tokens(body);
            lemma_stands_split(tokens, pos, head + params + equal + middle, semi);
            lemma_stands_split(tokens, pos, head + params + equal, middle);
            lemma_stands_split(tokens, pos, head + params, equal);
            lemma_stands_split(tokens, pos, head, params);
            lemma_stands_index(tokens, pos + 2 + params.len(), equal, 0);
            lemma_stands_index(tokens, pos + 3 + params.len() + middle.len(), semi, 0);
            lemma_idents_parse(args, 0, tokens, pos + 2);
            assert(args.skip(0) =~= args);
            lemma_expression_parses(body, tokens, pos + 3 + params.len());
        },
    }
}

/// The tokens of the statements from `from` on, where they end the sequence,
/// are parsed back to those statements.
pub proof fn lemma_statements_parse(
    program: Seq<StatementView>,
    from: nat,
    tokens: Seq<TokenView>,
    pos: int,
)
    requires
        from <= program.len(),
        all_statements_well_formed(program),
        stands_at(tokens, pos, statements_tokens(program, from)),
        pos + statements_tokens(program, from).len() == tokens.len(),
    ensures
        spec_statements(tokens, pos) == Parsed::Done(
            program.skip(from as int),
            tokens.len() as int,
        ),
    decreases program.len() - from,
{
    if from == program.len() {
        assert(program.skip(from as int) =~= Seq::<StatementView>::empty());
    } else {
        let first = statement_tokens(program[from as int]);
        lemma_stands_split(tokens, pos, first, statements_tokens(program, from + 1));
        lemma_statement_parses(program[from as int], tokens, pos);
        lemma_statements_parse(program, from + 1, tokens, pos + first.len());
        assert(program.skip(from as int) =~= seq![program[from as int]] + program.skip(
            from as int + 1,
        ));
    }
}

/// Round trip: a program written as tokens and parsed again is the same
/// program. This holds of every program whose statements are well formed.
pub proof fn lemma_program_parses(program: Seq<StatementView>)
    requires
        all_statements_well_formed(program),
    ensures
        spec_parse(program_tokens(program)) == Ok::<Seq<StatementView>, int>(program),
        spec_statements(program_tokens(program), 0) == Parsed::Done(
            program,
            program_tokens(program).len() as int,
        ),
{
    let tokens = program_tokens(program);
    assert(tokens.subrange(0, tokens.len() as int) =~= tokens);
    lemma_statements_parse(program, 0, tokens, 0);
    assert(program.skip(0) =~= program);
}

/// An expression that was parsed is well formed. So a union that was parsed has
/// two members or more: a single member is never wrapped.
pub proof fn lemma_parsed_expression_is_well_formed(tokens: Seq<TokenView>, pos: int)
    requires
        0 <= pos <= tokens.len(),
    ensures
        match spec_expression(tokens, pos) {
            Parsed::Done(e, _) => well_formed(e),
            Parsed::Failed(_) => true,
        },
    decreases tokens.len() - pos, 6int,
{
    if keyword_at(tokens, pos, "distribute"@) {
        if keyword_at(tokens, pos + 2, "in"@) {
            lemma_parsed_expression_is_well_formed(tokens, pos + 3);
        }
    } else if token_at(tokens, pos, TokenView::HyphenedKeyword("if"@, "match"@)) {
        lemma_parsed_expression_is_well_formed(tokens, pos + 1);
        lemma_expression_bounds(tokens, pos + 1);
        if let Parsed::Done(_, with) = spec_expression(tokens, pos + 1) {
            if keyword_at(tokens, with + 2, "then"@) {
                lemma_parsed_expression_is_well_formed(tokens, with + 3);
                lemma_expression_bounds(tokens, with + 3);
                if let Parsed::Done(_, otherwise) = spec_expression(tokens, with + 3) {
                    if keyword_at(tokens, otherwise, "else"@) {
                        lemma_parsed_expression_is_well_formed(tokens, otherwise + 1);
                    }
                }
            }
        }
    } else {
        let first = if token_at(tokens, pos, TokenView::Bar) {
            pos + 1
        } else {
            pos
        };
        lemma_parsed_members_are_atomic(tokens, first);
    }
}

/// The members of a union that was parsed are atomic and well formed.
pub proof fn lemma_parsed_members_are_atomic(tokens: Seq<TokenView>, pos: int)
    requires
        0 <= pos <= tokens.len(),
    ensures
        match spec_union_members(tokens, pos) {
            Parsed::Done(members, _) => all_atomic(members),
            Parsed::Failed(_) => true,
        },
    decreases tokens.len() - pos, 4int,
{
    lemma_parsed_atomic_is_well_formed(tokens, pos);
    lemma_atomic_expression_bounds(tokens, pos);
    if let Parsed::Done(member, next) = spec_atomic_expression(tokens, pos) {
        if token_at(tokens, next, TokenView::Bar) {
            lemma_parsed_members_are_atomic(tokens, next + 1);
            if let Parsed::Done(rest, _) = spec_union_members(tokens, next + 1) {
                assert(all_atomic(seq![member] + rest));
            }
        }
    }
}

/// An atomic expression that was parsed is atomic and well formed.
pub proof fn lemma_parsed_atomic_is_well_formed(tokens: Seq<TokenView>, pos: int)
    requires
        0 <= pos <= tokens.len(),
    ensures
        match spec_atomic_expression(tokens, pos) {
            Parsed::Done(e, _) => is_atomic(e) && well_formed(e),
            Parsed::Failed(_) => true,
        },
    decreases tokens.len() - pos, 3int,
{
    if string_literal_at(tokens, pos) is Some {
    } else if token_at(tokens, pos, TokenView::OpenBrace) {
        lemma_parsed_entries_are_well_formed(tokens, pos + 1);
    } else if token_at(tokens, pos, TokenView::OpenBracket) {
        if !token_at(tokens, pos + 1, TokenView::CloseBracket) {
            lemma_parsed_tuple_members_are_well_formed(tokens, pos + 1);
        }
    }
}

/// The values of the entries of a map that was parsed are well formed.
pub proof fn lemma_parsed_entries_are_well_formed(tokens: Seq<TokenView>, pos: int)
    requires
        0 <= pos <= tokens.len(),
    ensures
        match spec_map_entries(tokens, pos) {
            Parsed::Done(pairs, _) => all_values_well_formed(pairs),
            Parsed::Failed(_) => true,
        },
    decreases tokens.len() - pos, 1int,
{
    if !token_at(tokens, pos, TokenView::CloseBrace) && string_literal_at(tokens, pos) is Some
        && token_at(tokens, pos + 1, TokenView::Colon) {
        lemma_parsed_expression_is_well_formed(tokens, pos + 2);
        lemma_expression_bounds(tokens, pos + 2);
        if let Parsed::Done(value, end) = spec_expression(tokens, pos + 2) {
            if token_at(tokens, end, TokenView::SemiColon) {
                lemma_parsed_entries_are_well_formed(tokens, end + 1);
                if let Parsed::Done(rest, _) = spec_map_entries(tokens, end + 1) {
                    assert(all_values_well_formed(
                        seq![(string_literal_at(tokens, pos)->0, value)] + rest,
                    ));
                }
            }
        }
    }
}

/// The members of a tuple that was parsed are well formed.
pub proof fn lemma_parsed_tuple_members_are_well_formed(tokens: Seq<TokenView>, pos: int)
    requires
        0 <= pos <= tokens.len(),
    ensures
        match spec_tuple_members(tokens, pos) {
            Parsed::Done(values, _) => all_well_formed(values),
            Parsed::Failed(_) => true,
        },
    decreases tokens.len() - pos, 7int,
{
    lemma_parsed_expression_is_well_formed(tokens, pos);
    lemma_expression_bounds(tokens, pos);
    if let Parsed::Done(value, end) = spec_expression(tokens, pos) {
        if token_at(tokens, end, TokenView::Comma) {
            lemma_parsed_tuple_members_are_well_formed(tokens, end + 1);
            if let Parsed::Done(rest, _) = spec_tuple_members(tokens, end + 1) {
                assert(all_well_formed(seq![value] + rest));
            }
        }
    }
}

/// A statement that was parsed is well formed.
pub proof fn lemma_parsed_statement_is_well_formed(tokens: Seq<TokenView>, pos: int)
    requires
        0 <= pos <= tokens.len(),
    ensures
        match spec_statement(tokens, pos) {
            Parsed::Done(statement, _) => well_formed_statement(statement),
            Parsed::Failed(_) => true,
        },
{
    if keyword_at(tokens, pos, "let"@) {
        if token_at(tokens, pos + 2, TokenView::Equal) {
            lemma_parsed_expression_is_well_formed(tokens, pos + 3);
        }
    } else if keyword_at(tokens, pos, "fn"@) && ident_at(tokens, pos + 1) is Some {
        let equal = pos + 2 + spec_idents(tokens, pos + 2).len();
        if token_at(tokens, equal, TokenView::Equal) {
            lemma_parsed_expression_is_well_formed(tokens, equal + 1);
        }
    }
}

/// The statements of a program that was parsed are well formed.
pub proof fn lemma_parsed_program_is_well_formed(tokens: Seq<TokenView>, pos: int)
    requires
        0 <= pos <= tokens.len(),
    ensures
        match spec_statements(tokens, pos) {
            Parsed::Done(program, _) => all_statements_well_formed(program),
            Parsed::Failed(_) => true,
        },
    decreases tokens.len() - pos,
{
    if pos < tokens.len() {
        lemma_parsed_statement_is_well_formed(tokens, pos);
        lemma_statement_bounds(tokens, pos);
        if let Parsed::Done(statement, next) = spec_statement(tokens, pos) {
            lemma_parsed_program_is_well_formed(tokens, next);
            if let Parsed::Done(rest, _) = spec_statements(tokens, next) {
                assert(all_statements_well_formed(seq![statement] + rest));
            }
        }
    }
}

} // verus!

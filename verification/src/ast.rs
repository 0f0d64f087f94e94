//! The abstract syntax tree.

use vstd::prelude::*;
use crate::tokenizer::template_views;
use crate::tokenizer::TemplateItem;
use crate::tokenizer::TemplateItemView;

verus! {

/// An expression of the language. Its text is borrowed from the source.
#[allow(inconsistent_fields)]
#[derive(Debug, PartialEq, Eq)]
pub enum Expression<'a> {
    /// A string: the text between its quotes, escape markers included.
    StringLiteral { value: &'a str },
    /// A template: its items in order.
    TemplateLiteral { items: Vec<TemplateItem<'a>> },
    /// `true` or `false`.
    BooleanLiteral { value: bool },
    /// A reference to a name.
    Var { name: &'a str },
    /// A map: its entries in order, each a key and a value. A key may occur
    /// more than once.
    MapLiteral { pairs: Vec<(&'a str, Expression<'a>)> },
    /// A tuple: its members in order.
    Tuple { values: Vec<Expression<'a>> },
    /// Alternatives in order. The parser gives a union two members or more.
    Union { exprs: Vec<Expression<'a>> },
    /// `body`, for each value that `ident` can take.
    Distribute { ident: &'a str, body: Box<Expression<'a>> },
    /// `then_expr` where `target` matches `pattern`, with the pattern's
    /// inference slots bound; else `else_expr`.
    IfMatch {
        target: Box<Expression<'a>>,
        pattern: Vec<TemplateItem<'a>>,
        then_expr: Box<Expression<'a>>,
        else_expr: Box<Expression<'a>>,
    },
}

/// What an [`Expression`] stands for in contracts.
#[allow(inconsistent_fields)]
pub enum ExpressionView {
    StringLiteral { value: Seq<char> },
    TemplateLiteral { items: Seq<TemplateItemView> },
    BooleanLiteral { value: bool },
    Var { name: Seq<char> },
    MapLiteral { pairs: Seq<(Seq<char>, ExpressionView)> },
    Tuple { values: Seq<ExpressionView> },
    Union { exprs: Seq<ExpressionView> },
    Distribute { ident: Seq<char>, body: Box<ExpressionView> },
    IfMatch {
        target: Box<ExpressionView>,
        pattern: Seq<TemplateItemView>,
        then_expr: Box<ExpressionView>,
        else_expr: Box<ExpressionView>,
    },
}

impl<'a> Expression<'a> {
    /// The mathematical value of the expression: text as character sequences,
    /// vectors as sequences. (An index into a vector is tested before it is
    /// used only to show that the recursion ends; it is always in range.)
    pub open spec fn model(self) -> ExpressionView
        decreases self,
    {
        match self {
            Expression::StringLiteral { value } => ExpressionView::StringLiteral { value: value@ },
            Expression::TemplateLiteral { items } => ExpressionView::TemplateLiteral {
                items: template_views(items@),
            },
            Expression::BooleanLiteral { value } => ExpressionView::BooleanLiteral { value },
            Expression::Var { name } => ExpressionView::Var { name: name@ },
            Expression::MapLiteral { pairs } => ExpressionView::MapLiteral {
                pairs: Seq::new(
                    pairs.len() as nat,
                    |i: int|
                        if 0 <= i < pairs.len() {
                            (pairs[i].0@, pairs[i].1.model())
                        } else {
                            (Seq::empty(), ExpressionView::Tuple { values: Seq::empty() })
                        },
                ),
            },
            Expression::Tuple { values } => ExpressionView::Tuple {
                values: Seq::new(
                    values.len() as nat,
                    |i: int|
                        if 0 <= i < values.len() {
                            values[i].model()
                        } else {
                            ExpressionView::Tuple { values: Seq::empty() }
                        },
                ),
            },
            Expression::Union { exprs } => ExpressionView::Union {
                exprs: Seq::new(
                    exprs.len() as nat,
                    |i: int|
                        if 0 <= i < exprs.len() {
                            exprs[i].model()
                        } else {
                            ExpressionView::Tuple { values: Seq::empty() }
                        },
                ),
            },
            Expression::Distribute { ident, body } => ExpressionView::Distribute {
                ident: ident@,
                body: Box::new((*body).model()),
            },
            Expression::IfMatch { target, pattern, then_expr, else_expr } => {
                ExpressionView::IfMatch {
                    target: Box::new((*target).model()),
                    pattern: template_views(pattern@),
                    then_expr: Box::new((*then_expr).model()),
                    else_expr: Box::new((*else_expr).model()),
                }
            },
        }
    }
}

impl<'a> View for Expression<'a> {
    type V = ExpressionView;

    open spec fn view(&self) -> ExpressionView {
        self.model()
    }
}

/// The views of a sequence of expressions, in order.
pub open spec fn expression_views(exprs: Seq<Expression>) -> Seq<ExpressionView> {
    Seq::new(exprs.len(), |i: int| exprs[i]@)
}

/// The views of the entries of a map, in order.
pub open spec fn pair_views(pairs: Seq<(&str, Expression)>) -> Seq<(Seq<char>, ExpressionView)> {
    Seq::new(pairs.len(), |i: int| (pairs[i].0@, pairs[i].1@))
}

/// The views of a sequence of names, in order.
pub open spec fn name_views(names: Seq<&str>) -> Seq<Seq<char>> {
    Seq::new(names.len(), |i: int| names[i]@)
}

/// The view of a tuple is the tuple of its members' views.
pub proof fn lemma_tuple_view(values: Vec<Expression>)
    ensures
        (Expression::Tuple { values })@ == (ExpressionView::Tuple {
            values: expression_views(values@),
        }),
{
    assert((Expression::Tuple { values })@->Tuple_values =~= expression_views(values@));
}

/// The view of a union is the union of its members' views.
pub proof fn lemma_union_view(exprs: Vec<Expression>)
    ensures
        (Expression::Union { exprs })@ == (ExpressionView::Union {
            exprs: expression_views(exprs@),
        }),
{
    assert((Expression::Union { exprs })@->Union_exprs =~= expression_views(exprs@));
}

/// The view of a map is the map of its entries' views.
pub proof fn lemma_map_view(pairs: Vec<(&str, Expression)>)
    ensures
        (Expression::MapLiteral { pairs })@ == (ExpressionView::MapLiteral {
            pairs: pair_views(pairs@),
        }),
{
    assert((Expression::MapLiteral { pairs })@->MapLiteral_pairs =~= pair_views(pairs@));
}

/// A top-level statement.
#[derive(Debug, PartialEq, Eq)]
pub enum Statement<'a> {
    /// Binds `name` to `value`.
    Let { name: &'a str, value: Expression<'a> },
    /// Defines the rule `name` with the parameters `args` over `body`.
    Fn { name: &'a str, args: Vec<&'a str>, body: Expression<'a> },
}

/// What a [`Statement`] stands for in contracts.
pub enum StatementView {
    Let { name: Seq<char>, value: ExpressionView },
    Fn { name: Seq<char>, args: Seq<Seq<char>>, body: ExpressionView },
}

impl<'a> View for Statement<'a> {
    type V = StatementView;

    open spec fn view(&self) -> StatementView {
        match self {
            Statement::Let { name, value } => StatementView::Let { name: name@, value: value@ },
            Statement::Fn { name, args, body } => StatementView::Fn {
                name: name@,
                args: name_views(args@),
                body: body@,
            },
        }
    }
}

/// A program: its statements in order.
pub type Program<'a> = Vec<Statement<'a>>;

/// The views of a sequence of statements, in order.
pub open spec fn statement_views(statements: Seq<Statement>) -> Seq<StatementView> {
    Seq::new(statements.len(), |i: int| statements[i]@)
}

} // verus!

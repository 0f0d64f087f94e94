use pattern_lang::ast::Expression;
use pattern_lang::ast::Statement;
use pattern_lang::parser::parse;
use pattern_lang::tokenizer::tokenize;
use pattern_lang::tokenizer::TemplateItem;
use pattern_lang::tokenizer::Token;

fn print_items(items: &[TemplateItem], out: &mut String) {
    out.push('`');
    for item in items {
        match item {
            TemplateItem::Str(text) => out.push_str(text),
            TemplateItem::Interpolate(name) => out.push_str(&format!("{{{}}}", name)),
            TemplateItem::Infer(name) => out.push_str(&format!("[{}]", name)),
        }
    }
    out.push('`');
}

fn print_expression(expr: &Expression, out: &mut String) {
    match expr {
        Expression::StringLiteral { value } => out.push_str(&format!("\"{}\"", value)),
        Expression::TemplateLiteral { items } => print_items(items, out),
        Expression::BooleanLiteral { value } => out.push_str(if *value { "true" } else { "false" }),
        Expression::Var { name } => out.push_str(name),
        Expression::MapLiteral { pairs } => {
            out.push_str("{ ");
            for (key, value) in pairs {
                out.push_str(&format!("\"{}\": ", key));
                print_expression(value, out);
                out.push_str("; ");
            }
            out.push('}');
        }
        Expression::Tuple { values } => {
            out.push('[');
            for (i, value) in values.iter().enumerate() {
                if i > 0 {
                    out.push_str(", ");
                }
                print_expression(value, out);
            }
            out.push(']');
        }
        Expression::Union { exprs } => {
            for (i, value) in exprs.iter().enumerate() {
                if i > 0 {
                    out.push_str(" | ");
                }
                print_expression(value, out);
            }
        }
        Expression::Distribute { .. } | Expression::IfMatch { .. } => {
            unreachable!("the tokenizer has no keyword for these forms")
        }
    }
}

fn print_program(program: &[Statement]) -> String {
    let mut out = String::new();
    for statement in program {
        match statement {
            Statement::Let { name, value } => {
                out.push_str(&format!("let {} = ", name));
                print_expression(value, &mut out);
            }
            Statement::Fn { name, args, body } => {
                out.push_str(&format!("fn {} {} = ", name, args.join(" ")));
                print_expression(body, &mut out);
            }
        }
        out.push_str(";\n");
    }
    out
}

fn expression_tokens<'a>(expr: &Expression<'a>, out: &mut Vec<Token<'a>>) {
    match expr {
        Expression::StringLiteral { value } => out.push(Token::StringLiteral(value)),
        Expression::TemplateLiteral { items } => out.push(Token::TemplateLiteral(items.clone())),
        Expression::BooleanLiteral { value } => {
            out.push(Token::Keyword(if *value { "true" } else { "false" }))
        }
        Expression::Var { name } => out.push(Token::Ident(name)),
        Expression::MapLiteral { pairs } => {
            out.push(Token::OpenBrace);
            for (key, value) in pairs {
                out.push(Token::StringLiteral(key));
                out.push(Token::Colon);
                expression_tokens(value, out);
                out.push(Token::SemiColon);
            }
            out.push(Token::CloseBrace);
        }
        Expression::Tuple { values } => {
            out.push(Token::OpenBracket);
            for (i, value) in values.iter().enumerate() {
                if i > 0 {
                    out.push(Token::Comma);
                }
                expression_tokens(value, out);
            }
            out.push(Token::CloseBracket);
        }
        Expression::Union { exprs } => {
            for (i, value) in exprs.iter().enumerate() {
                if i > 0 {
                    out.push(Token::Bar);
                }
                expression_tokens(value, out);
            }
        }
        Expression::Distribute { ident, body } => {
            out.push(Token::Keyword("distribute"));
            out.push(Token::Ident(ident));
            out.push(Token::Keyword("in"));
            expression_tokens(body, out);
        }
        Expression::IfMatch { target, pattern, then_expr, else_expr } => {
            out.push(Token::HyphenedKeyword("if", "match"));
            expression_tokens(target, out);
            out.push(Token::Keyword("with"));
            out.push(Token::TemplateLiteral(pattern.clone()));
            out.push(Token::Keyword("then"));
            expression_tokens(then_expr, out);
            out.push(Token::Keyword("else"));
            expression_tokens(else_expr, out);
        }
    }
}

fn program_tokens<'a>(program: &[Statement<'a>]) -> Vec<Token<'a>> {
    let mut out = Vec::new();
    for statement in program {
        match statement {
            Statement::Let { name, value } => {
                out.push(Token::Keyword("let"));
                out.push(Token::Ident(name));
                out.push(Token::Equal);
                expression_tokens(value, &mut out);
            }
            Statement::Fn { name, args, body } => {
                out.push(Token::Keyword("fn"));
                out.push(Token::Ident(name));
                for arg in args {
                    out.push(Token::Ident(arg));
                }
                out.push(Token::Equal);
                expression_tokens(body, &mut out);
            }
        }
        out.push(Token::SemiColon);
    }
    out
}

fn text(value: &str) -> Expression<'_> {
    Expression::StringLiteral { value }
}

fn var(name: &str) -> Expression<'_> {
    Expression::Var { name }
}

fn plain_program<'a>() -> Vec<Statement<'a>> {
    vec![
        Statement::Let {
            name: "Digit",
            value: Expression::Union { exprs: vec![text("0"), text("1"), var("Other")] },
        },
        Statement::Let {
            name: "Table",
            value: Expression::MapLiteral {
                pairs: vec![
                    (
                        "00",
                        Expression::Tuple {
                            values: vec![Expression::BooleanLiteral { value: false }, text("0")],
                        },
                    ),
                    ("a\\\"b", Expression::MapLiteral { pairs: vec![] }),
                    (
                        "00",
                        Expression::Union {
                            exprs: vec![
                                Expression::Tuple { values: vec![] },
                                Expression::BooleanLiteral { value: true },
                            ],
                        },
                    ),
                ],
            },
        },
        Statement::Fn {
            name: "Concat",
            args: vec!["Left", "Right"],
            body: Expression::TemplateLiteral {
                items: vec![
                    TemplateItem::Infer("Head"),
                    TemplateItem::Interpolate("Left"),
                    TemplateItem::Interpolate("Right"),
                    TemplateItem::Str(" and \\` \"more\" [text]"),
                ],
            },
        },
        Statement::Fn {
            name: "Nested",
            args: vec!["X"],
            body: Expression::Tuple {
                values: vec![
                    Expression::Tuple {
                        values: vec![Expression::Union { exprs: vec![var("X"), text("x")] }],
                    },
                    Expression::TemplateLiteral { items: vec![] },
                ],
            },
        },
    ]
}

#[test]
fn printed_source_parses_back_to_the_program() {
    let program = plain_program();
    let source = print_program(&program);
    let tokens = tokenize(&source).unwrap();
    assert_eq!(parse(&tokens), Ok(plain_program()));
}

#[test]
fn printed_tokens_are_the_tokens_of_the_printed_source() {
    let program = plain_program();
    let source = print_program(&program);
    assert_eq!(tokenize(&source), Ok(program_tokens(&program)));
}

#[test]
fn printed_tokens_parse_back_to_the_program() {
    let mut program = plain_program();
    program.push(Statement::Fn {
        name: "LastDigit",
        args: vec!["Str"],
        body: Expression::Distribute {
            ident: "Digit",
            body: Box::new(Expression::IfMatch {
                target: Box::new(Expression::Union { exprs: vec![var("Str"), text("s")] }),
                pattern: vec![TemplateItem::Infer("Rest"), TemplateItem::Interpolate("Digit")],
                then_expr: Box::new(Expression::Distribute {
                    ident: "Rest",
                    body: Box::new(var("Rest")),
                }),
                else_expr: Box::new(Expression::Union { exprs: vec![var("never"), var("ever")] }),
            }),
        },
    });
    let tokens = program_tokens(&program);
    let parsed = parse(&tokens).unwrap();
    assert_eq!(parsed, program);
}

#[test]
fn union_of_one_member_does_not_come_back() {
    let program = vec![Statement::Let {
        name: "x",
        value: Expression::Union { exprs: vec![text("a")] },
    }];
    let tokens = program_tokens(&program);
    assert_eq!(parse(&tokens), Ok(vec![Statement::Let { name: "x", value: text("a") }]));
}

#[test]
fn parsing_takes_every_token_or_fails() {
    let sources = [
        "",
        "let a = b;",
        "let a = b; fn f x = [x, a];",
        "let a = b; fn",
        "let a = b c",
        "fn f x = {\"k\": x;} | x;",
        "a",
    ];
    for source in sources {
        let tokens = tokenize(source).unwrap();
        if let Ok(program) = parse(&tokens) {
            assert_eq!(program_tokens(&program), tokens);
        }
    }
}

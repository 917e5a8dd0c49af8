use lynx_lang::ast::{AstNode, Expression, Precedence, Statement};
use lynx_lang::parser::Parser;
use lynx_lang::token::TokenType;

fn get_parser(input: &str) -> Parser {
    Parser::get(input)
}

#[test]
fn parse_let_statement() {
    let input = r#"
        let version = 1234;
        let name = "Lynx programming language";
        let is_cool = false;
    "#;
    let mut parser = get_parser(input);
    let rootNode = parser.parse_program();

    let expected = AstNode::Program(vec![
        Statement::Let(
            Box::new(Expression::Identifier(String::from("version"))),
            Box::new(Expression::Integer(1234)),
        ),
        Statement::Let(
            Box::new(Expression::Identifier(String::from("name"))),
            Box::new(Expression::String(String::from("Lynx programming language"))),
        ),
        Statement::Let(
            Box::new(Expression::Identifier(String::from("is_cool"))),
            Box::new(Expression::Boolean(false)),
        ),
    ]);

    // println!("{:?}", rootNode);

    assert_eq!(format!("{:?}", rootNode), format!("{:?}", expected));
}

#[test]
fn parse_return_statement() {
    let input = r#"
        return 1234;
        return "Lynx programming language";
        return false;
        return foo_456;
    "#;
    let mut parser = get_parser(input);
    let rootNode = parser.parse_program();

    let expected = AstNode::Program(vec![
        Statement::Return(Box::new(Expression::Integer(1234))),
        Statement::Return(Box::new(Expression::String(String::from("Lynx programming language")))),
        Statement::Return(Box::new(Expression::Boolean(false))),
        Statement::Return(Box::new(Expression::Identifier(String::from("foo_456")))),
    ]);

    println!("{:?}", rootNode);

    assert_eq!(format!("{:?}", rootNode), format!("{:?}", expected));
}

#[test]
fn parse_integer_expression() {
    let input = r#"1234"#;
    let mut parser = get_parser(input);
    let rootNode = parser.parse_program();

    let expected = AstNode::Program(vec![Statement::Expr(Box::new(Expression::Integer(1234)))]);

    assert_eq!(format!("{:?}", rootNode), format!("{:?}", expected));
}

#[test]
fn parse_string_expression() {
    let input = r#""foo""#;
    let mut parser = get_parser(input);
    let rootNode = parser.parse_program();

    let expected = AstNode::Program(vec![Statement::Expr(Box::new(Expression::String(String::from("foo"))))]);

    assert_eq!(format!("{:?}", rootNode), format!("{:?}", expected));
}

#[test]
fn parse_boolean_expression() {
    let input = r#"true"#;
    let mut parser = get_parser(input);
    let rootNode = parser.parse_program();

    let expected = AstNode::Program(vec![Statement::Expr(Box::new(Expression::Boolean(true)))]);

    assert_eq!(format!("{:?}", rootNode), format!("{:?}", expected));
}

#[test]
fn parse_array_expression() {
    let input = r#"
        [1234, true, "Lynx programming language", [1234, true, "Lynx programming language"]];
    "#;
    let mut parser = get_parser(input);
    let rootNode = parser.parse_program();

    let expected = AstNode::Program(vec![Statement::Expr(Box::new(Expression::Array(vec![
        Expression::Integer(1234),
        Expression::Boolean(true),
        Expression::String(String::from("Lynx programming language")),
        Expression::Array(vec![
            Expression::Integer(1234),
            Expression::Boolean(true),
            Expression::String(String::from("Lynx programming language")),
        ]),
    ])))]);

    println!("{:?}", rootNode);

    assert_eq!(format!("{:?}", rootNode), format!("{:?}", expected));
}

#[test]
fn parse_hash_expression() {
    let input = r#"
        {
            "foo": "bar",
            1: 2,
            2: [4, "stuff", false],
            "abc": true
        };
    "#;
    let mut parser = get_parser(input);
    let rootNode = parser.parse_program();

    let expected = AstNode::Program(vec![Statement::Expr(Box::new(Expression::Hash(vec![
        (
            Expression::String(String::from("foo")),
            Expression::String(String::from("bar")),
        ),
        (Expression::Integer(1), Expression::Integer(2)),
        (
            Expression::Integer(2),
            Expression::Array(vec![
                Expression::Integer(4),
                Expression::String(String::from("stuff")),
                Expression::Boolean(false),
            ]),
        ),
        (Expression::String(String::from("abc")), Expression::Boolean(true)),
    ])))]);

    println!("{:?}", rootNode);

    assert_eq!(format!("{:?}", rootNode), format!("{:?}", expected));
}

#[test]
fn parse_prefix_expression() {
    let input = r#"
        !true;
        !false;
    "#;
    let mut parser = get_parser(input);
    let rootNode = parser.parse_program();


    let expected = AstNode::Program(vec![
        Statement::Expr(Box::new(Expression::Prefix(
            TokenType::BANG,
            Box::new(Expression::Boolean(true)),
        ))),
        Statement::Expr(Box::new(Expression::Prefix(
            TokenType::BANG,
            Box::new(Expression::Boolean(false)),
        ))),
    ]);

    println!("{:?}", rootNode);

    assert_eq!(format!("{:?}", rootNode), format!("{:?}", expected));
}

#[test]
fn parse_infix_expression() {
    let input = r#"
        1 + 2 / 3 * 4 - 5;
    "#;
    // println!("input {:?}", input);

    let mut parser = get_parser(input);
    let rootNode = parser.parse_program();

    let _tree_like_representation = r#"
        Expr(
            Infix(
                Infix(
                    Integer(1), 
                        ADD, 
                    Infix(
                        Infix(
                            Integer(2), 
                            DIVIDE, 
                            Integer(3)
                        ), 
                        MULTIPLY, 
                        Integer(4))
                    )
                ), 
                MINUS, 
                Integer(5))
            )
        )        
    "#;

    let expected = AstNode::Program(vec![Statement::Expr(Box::new(Expression::Infix(
        Box::new(Expression::Infix(
            Box::new(Expression::Integer(1)),
            TokenType::ADD,
            Box::new(Expression::Infix(
                Box::new(Expression::Infix(
                    Box::new(Expression::Integer(2)),
                    TokenType::DIVIDE,
                    Box::new(Expression::Integer(3)),
                )),
                TokenType::MULTIPLY,
                Box::new(Expression::Integer(4)),
            )),
        )),
        TokenType::MINUS,
        Box::new(Expression::Integer(5)),
    )))]);

    println!("{:?}", rootNode);

    assert_eq!(format!("{:?}", rootNode), format!("{:?}", expected));
}

#[test]
fn parse_let_infix_expression() {
    let input = r#"
        let foo = 1 + 2 / 3 * 4 - 5;
    "#;
    // println!("input {:?}", input);

    let mut parser = get_parser(input);
    let rootNode = parser.parse_program();

    let expected = AstNode::Program(vec![Statement::Let(
        Box::new(Expression::Identifier(String::from("foo"))),
        Box::new(Expression::Infix(
            Box::new(Expression::Infix(
                Box::new(Expression::Integer(1)),
                TokenType::ADD,
                Box::new(Expression::Infix(
                    Box::new(Expression::Infix(
                        Box::new(Expression::Integer(2)),
                        TokenType::DIVIDE,
                        Box::new(Expression::Integer(3)),
                    )),
                    TokenType::MULTIPLY,
                    Box::new(Expression::Integer(4)),
                )),
            )),
            TokenType::MINUS,
            Box::new(Expression::Integer(5)),
        )),
    )]);

    println!("{:?}", rootNode);

    assert_eq!(format!("{:?}", rootNode), format!("{:?}", expected));
}

#[test]
fn parse_grouped_expression() {
    let input = r#"
     3 / (1 + 2);
    "#;
    let mut parser = get_parser(input);
    let rootNode = parser.parse_program();

    let expected = AstNode::Program(vec![Statement::Expr(Box::new(Expression::Infix(
        Box::new(Expression::Integer(3)),
        TokenType::DIVIDE,
        Box::new(Expression::Infix(
            Box::new(Expression::Integer(1)),
            TokenType::ADD,
            Box::new(Expression::Integer(2)),
        )),
    )))]);

    println!("{:?}", rootNode);

    assert_eq!(format!("{:?}", rootNode), format!("{:?}", expected));
}

#[test]
fn parse_if_expression() {
    let input = r#"
        if (foo) {
            let bar = "stuff";
            return bar;
        } else {
            return 5;
        }
    "#;
    let mut parser = get_parser(input);
    let rootNode = parser.parse_program();

    let expected = AstNode::Program(vec![Statement::Expr(Box::new(Expression::If(
        Box::new(Expression::Identifier(String::from("foo"))),
        Statement::BlockStatement(vec![
            Statement::Let(
                Box::new(Expression::Identifier(String::from("bar"))),
                Box::new(Expression::String(String::from("stuff"))),
            ),
            Statement::Return(Box::new(Expression::Identifier(String::from("bar")))),
        ]),
        Some(Statement::BlockStatement(vec![Statement::Return(Box::new(
            Expression::Integer(5),
        ))])),
    )))]);

    println!("{:?}", rootNode);

    assert_eq!(format!("{:?}", rootNode), format!("{:?}", expected));
}

#[test]
fn parse_while_expression() {
    let input = r#"
        while (foo) {
            let bar = "stuff";

            foo(bar);
        }
    "#;
    let mut parser = get_parser(input);
    let rootNode = parser.parse_program();

    let expected = AstNode::Program(vec![Statement::Expr(Box::new(Expression::While(
        Box::new(Expression::Identifier(String::from("foo"))),
        Statement::BlockStatement(vec![
            Statement::Let(
                Box::new(Expression::Identifier(String::from("bar"))),
                Box::new(Expression::String(String::from("stuff"))),
            ),
            Statement::Expr(Box::new(Expression::FnCall(
                Box::new(Expression::Identifier(String::from("foo"))),
                vec![Expression::Identifier(String::from("bar"))],
            ))),
        ]),
    )))]);

    println!("{:?}", rootNode);

    assert_eq!(format!("{:?}", rootNode), format!("{:?}", expected));
}

#[test]
fn parse_while_break_expression() {
    let input = r#"
        while (foo) {
            let bar = "stuff";

            foo(bar);
            break;
        }
    "#;
    let mut parser = get_parser(input);
    let rootNode = parser.parse_program();

    let expected = AstNode::Program(vec![Statement::Expr(Box::new(Expression::While(
        Box::new(Expression::Identifier(String::from("foo"))),
        Statement::BlockStatement(vec![
            Statement::Let(
                Box::new(Expression::Identifier(String::from("bar"))),
                Box::new(Expression::String(String::from("stuff"))),
            ),
            Statement::Expr(Box::new(Expression::FnCall(
                Box::new(Expression::Identifier(String::from("foo"))),
                vec![Expression::Identifier(String::from("bar"))],
            ))),
            Statement::Expr(Box::new(Expression::Break)),
        ]),
    )))]);

    println!("{:?}", rootNode);

    assert_eq!(format!("{:?}", rootNode), format!("{:?}", expected));
}

#[test]
fn parse_fn_expression() {
    let input = r#"
        fn foo("bar", stuff, 123) {
            let another_bar = stuff;
            return another_bar;
        }
    "#;
    let mut parser = get_parser(input);
    let rootNode = parser.parse_program();

    let expected = AstNode::Program(vec![Statement::Expr(Box::new(Expression::Fn(
        Box::new(Expression::Identifier(String::from("foo"))),
        vec![
            Expression::String(String::from("bar")),
            Expression::Identifier(String::from("stuff")),
            Expression::Integer(123),
        ],
        Statement::BlockStatement(vec![
            Statement::Let(
                Box::new(Expression::Identifier(String::from("another_bar"))),
                Box::new(Expression::Identifier(String::from("stuff"))),
            ),
            Statement::Return(Box::new(Expression::Identifier(String::from("another_bar")))),
        ]),
    )))]);

    println!("{:?}", rootNode);

    assert_eq!(format!("{:?}", rootNode), format!("{:?}", expected));
}

#[test]
fn parse_let_fn_expression() {
    let input = r#"
        let foo = fn("bar", stuff, 123) {
            let another_bar = stuff;
            return another_bar;
        }
    "#;
    let mut parser = get_parser(input);
    let rootNode = parser.parse_program();

    let expected = AstNode::Program(vec![Statement::Let(
        Box::new(Expression::Identifier(String::from("foo"))),
        Box::new(Expression::Fn(
            Box::new(Expression::Identifier(String::from(""))),
            vec![
                Expression::String(String::from("bar")),
                Expression::Identifier(String::from("stuff")),
                Expression::Integer(123),
            ],
            Statement::BlockStatement(vec![
                Statement::Let(
                    Box::new(Expression::Identifier(String::from("another_bar"))),
                    Box::new(Expression::Identifier(String::from("stuff"))),
                ),
                Statement::Return(Box::new(Expression::Identifier(String::from("another_bar")))),
            ]),
        )),
    )]);

    println!("{:?}", rootNode);

    assert_eq!(format!("{:?}", rootNode), format!("{:?}", expected));
}

#[test]
fn parse_fn_call_expression() {
    let input = r#"
        let arr = foo("bar", another_bar, 456);
    "#;
    let mut parser = get_parser(input);
    let rootNode = parser.parse_program();

    let expected = AstNode::Program(vec![Statement::Let(
        Box::new(Expression::Identifier(String::from("arr"))),
        Box::new(Expression::FnCall(
            Box::new(Expression::Identifier(String::from("foo"))),
            vec![
                Expression::String(String::from("bar")),
                Expression::Identifier(String::from("another_bar")),
                Expression::Integer(456),
            ],
        )),
    )]);

    println!("{:?}", rootNode);

    assert_eq!(format!("{:?}", rootNode), format!("{:?}", expected));
}

#[test]
fn parse_builtin_expression() {
    let input = r#"
        first([1, 2, 3]);
    "#;
    let mut parser = get_parser(input);
    let rootNode = parser.parse_program();

    let expected = AstNode::Program(vec![Statement::Expr(Box::new(Expression::FnCall(
        Box::new(Expression::Identifier(String::from("first"))),
        vec![Expression::Array(vec![
            Expression::Integer(1),
            Expression::Integer(2),
            Expression::Integer(3),
        ])],
    )))]);

    println!("{:?}", rootNode);

    assert_eq!(format!("{:?}", rootNode), format!("{:?}", expected));
}

#[test]
fn parse_fibonacci() {
    let input = r#"
        fn fibonacci(x) {
            if (x == 0) {
                return 0;
            } else {
                return 1;
            }
        }
        let foo = 123;
        let fib_val = fibonacci(foo);
        fib_val;
    "#;
    let mut parser = get_parser(input);
    let rootNode = parser.parse_program();
    println!("{:?}", rootNode);

    // let expected = AstNode::Program(vec![Statement::Let(
    //     Box::new(Expression::Identifier(String::from("arr"))),
    //     Box::new(Expression::FnCall(
    //         Box::new(Expression::Identifier(String::from("foo"))),
    //         vec![
    //             Expression::String(String::from("bar")),
    //             Expression::Identifier(String::from("another_bar")),
    //             Expression::Integer(456),
    //         ],
    //     )),
    // )]);

    // assert_eq!(format!("{:?}", rootNode), format!("{:?}", expected));
    assert_eq!(1, 1);
}

#[test]
fn check_precedence() {
    let mut parser = get_parser(
        r#"
    (foo + bar / 123)
"#,
    );

    parser.next_token();
    assert_eq!(Precedence::Group, parser.peek_precedence());

    parser.next_token();
    assert_eq!(Precedence::Lowest, parser.peek_precedence());

    parser.next_token();
    assert_eq!(Precedence::Addition, parser.peek_precedence());

    parser.next_token();
    parser.next_token();
    assert_eq!(Precedence::Multiply, parser.peek_precedence());
}

#[test]
fn parse_program() {
    let input = r#"
        let version = 1234;
        let name = "Lynx programming language";
        let is_cool = false;
        let arr = [1234, true, "Lynx programming language", [1234, true, "Lynx programming language"]];            
        let hash = {
            "foo": "bar",
            1: 2,
            2: [4, "stuff", false],
            "abc": true
        };
        let prefix = !true;
        let infix = 1 + 2 / 3 * 4 - 5;
        let grouped = 3 / (1 + 2);
        
        fn foo("bar", stuff, 123) {
            let another_bar = stuff;
            return another_bar;
        }

        let call_val = foo("bar", another_bar, 456);
        
        while (call_val) {
            let bar = "stuff";

            foo(bar, call_val);
        }
        
        if (call_val) {
            let bar = "stuff";
            return bar;
        } else {
            return 5;
        }
    "#;
    let mut parser = get_parser(input);
    let rootNode = parser.parse_program();

    let expected = AstNode::Program(vec![
        Statement::Let(
            Box::new(Expression::Identifier(String::from("version"))),
            Box::new(Expression::Integer(1234)),
        ),
        Statement::Let(
            Box::new(Expression::Identifier(String::from("name"))),
            Box::new(Expression::String(String::from("Lynx programming language"))),
        ),
        Statement::Let(
            Box::new(Expression::Identifier(String::from("is_cool"))),
            Box::new(Expression::Boolean(false)),
        ),
        Statement::Let(
            Box::new(Expression::Identifier(String::from("arr"))),
            Box::new(Expression::Array(vec![
                Expression::Integer(1234),
                Expression::Boolean(true),
                Expression::String(String::from("Lynx programming language")),
                Expression::Array(vec![
                    Expression::Integer(1234),
                    Expression::Boolean(true),
                    Expression::String(String::from("Lynx programming language")),
                ]),
            ])),
        ),
        Statement::Let(
            Box::new(Expression::Identifier(String::from("hash"))),
            Box::new(Expression::Hash(vec![
                (
                    Expression::String(String::from("foo")),
                    Expression::String(String::from("bar")),
                ),
                (Expression::Integer(1), Expression::Integer(2)),
                (
                    Expression::Integer(2),
                    Expression::Array(vec![
                        Expression::Integer(4),
                        Expression::String(String::from("stuff")),
                        Expression::Boolean(false),
                    ]),
                ),
                (Expression::String(String::from("abc")), Expression::Boolean(true)),
            ])),
        ),
        Statement::Let(
            Box::new(Expression::Identifier(String::from("prefix"))),
            Box::new(Expression::Prefix(TokenType::BANG, Box::new(Expression::Boolean(true)))),
        ),
        Statement::Let(
            Box::new(Expression::Identifier(String::from("infix"))),
            Box::new(Expression::Infix(
                Box::new(Expression::Infix(
                    Box::new(Expression::Integer(1)),
                    TokenType::ADD,
                    Box::new(Expression::Infix(
                        Box::new(Expression::Infix(
                            Box::new(Expression::Integer(2)),
                            TokenType::DIVIDE,
                            Box::new(Expression::Integer(3)),
                        )),
                        TokenType::MULTIPLY,
                        Box::new(Expression::Integer(4)),
                    )),
                )),
                TokenType::MINUS,
                Box::new(Expression::Integer(5)),
            )),
        ),
        Statement::Let(
            Box::new(Expression::Identifier(String::from("grouped"))),
            Box::new(Expression::Infix(
                Box::new(Expression::Integer(3)),
                TokenType::DIVIDE,
                Box::new(Expression::Infix(
                    Box::new(Expression::Integer(1)),
                    TokenType::ADD,
                    Box::new(Expression::Integer(2)),
                )),
            )),
        ),
        Statement::Expr(Box::new(Expression::Fn(
            Box::new(Expression::Identifier(String::from("foo"))),
            vec![
                Expression::String(String::from("bar")),
                Expression::Identifier(String::from("stuff")),
                Expression::Integer(123),
            ],
            Statement::BlockStatement(vec![
                Statement::Let(
                    Box::new(Expression::Identifier(String::from("another_bar"))),
                    Box::new(Expression::Identifier(String::from("stuff"))),
                ),
                Statement::Return(Box::new(Expression::Identifier(String::from("another_bar")))),
            ]),
        ))),
        Statement::Let(
            Box::new(Expression::Identifier(String::from("call_val"))),
            Box::new(Expression::FnCall(
                Box::new(Expression::Identifier(String::from("foo"))),
                vec![
                    Expression::String(String::from("bar")),
                    Expression::Identifier(String::from("another_bar")),
                    Expression::Integer(456),
                ],
            )),
        ),
        Statement::Expr(Box::new(Expression::While(
            Box::new(Expression::Identifier(String::from("call_val"))),
            Statement::BlockStatement(vec![
                Statement::Let(
                    Box::new(Expression::Identifier(String::from("bar"))),
                    Box::new(Expression::String(String::from("stuff"))),
                ),
                Statement::Expr(Box::new(Expression::FnCall(
                    Box::new(Expression::Identifier(String::from("foo"))),
                    vec![
                        Expression::Identifier(String::from("bar")),
                        Expression::Identifier(String::from("call_val")),
                    ],
                ))),
            ]),
        ))),
        Statement::Expr(Box::new(Expression::If(
            Box::new(Expression::Identifier(String::from("call_val"))),
            Statement::BlockStatement(vec![
                Statement::Let(
                    Box::new(Expression::Identifier(String::from("bar"))),
                    Box::new(Expression::String(String::from("stuff"))),
                ),
                Statement::Return(Box::new(Expression::Identifier(String::from("bar")))),
            ]),
            Some(Statement::BlockStatement(vec![Statement::Return(Box::new(
                Expression::Integer(5),
            ))])),
        ))),
    ]);

    println!("{:?}", rootNode);

    assert_eq!(format!("{:?}", rootNode), format!("{:?}", expected));
}

use lynx_lang::env::Env;
use lynx_lang::evaluator::Evaluator;
use lynx_lang::object::Object;
use lynx_lang::parser::Parser;

fn get_eval_val(input: &str) -> Option<Object> {
    let program = Parser::get(input).parse_program();

    let mut evaluator = Evaluator::new(Env::new());

    evaluator.builtin();

    evaluator.eval_program(program)
}

#[test]
fn eval_integer() {
    let evaluated = get_eval_val("12");
    let expected = Some(Object::Integer(12));

    assert_eq!(format!("{:?}", evaluated), format!("{:?}", expected));
}

#[test]
fn eval_boolean() {
    assert_eq!(
        format!("{:?}", get_eval_val("true")),
        format!("{:?}", Some(Object::Boolean(true)))
    );
    assert_eq!(
        format!("{:?}", get_eval_val("false")),
        format!("{:?}", Some(Object::Boolean(false)))
    );
}

#[test]
fn eval_string() {
    assert_eq!(
        format!("{:?}", get_eval_val(r#""foo_bar_123""#)),
        format!("{:?}", Some(Object::String(String::from("foo_bar_123"))))
    );
}

#[test]
fn eval_hash_expression() {
    let hash_value = get_eval_val(
        r#"
{
    "foo": "bar",
    1: 2,
    2: [1234, true, "Lynx programming language"],
    "abc": true
};
"#,
    )
    .unwrap();

    match &hash_value {
        Object::Hash(_) => {
            assert_eq!(
                hash_value.hash_get(&Object::String(String::from("abc"))),
                Some(&Object::Boolean(true))
            );

            assert_eq!(hash_value.hash_get(&Object::Integer(1)), Some(&Object::Integer(2)));

            assert_eq!(
                hash_value.hash_get(&Object::String(String::from("foo"))),
                Some(&Object::String(String::from("bar")))
            );

            assert_eq!(
                hash_value.hash_get(&Object::Integer(2)),
                Some(&Object::Array(vec![
                    Object::Integer(1234),
                    Object::Boolean(true),
                    Object::String(String::from("Lynx programming language"))
                ]))
            );
        }
        _ => (),
    }
}

#[test]
fn eval_array_expression() {
    assert_eq!(
        format!(
            "{:?}",
            get_eval_val(
                r#"[1234, true, "Lynx programming language", [1234, true, "Lynx programming language"]];"#
            )
        ),
        format!(
            "{:?}",
            Some(Object::Array(vec![
                Object::Integer(1234),
                Object::Boolean(true),
                Object::String(String::from("Lynx programming language")),
                Object::Array(vec![
                    Object::Integer(1234),
                    Object::Boolean(true),
                    Object::String(String::from("Lynx programming language"))
                ])
            ]))
        )
    );
}

#[test]
fn eval_identifier() {
    assert_eq!(
        format!(
            "{:?}",
            get_eval_val(
                r#"
            foo;
        "#
            )
        ),
        format!("{:?}", Some(Object::Error(String::from("no identifier found: foo"))))
    );
}

#[test]
fn eval_let_statement() {
    assert_eq!(
        format!(
            "{:?}",
            get_eval_val(
                r#"
            let foo = 123 + 4;
            foo;
        "#
            )
        ),
        format!("{:?}", Some(Object::Integer(127)))
    );
}

#[test]
fn eval_return_statement() {
    assert_eq!(
        format!("{:?}", get_eval_val(r#"return !false;"#)),
        format!("{:?}", Some(Object::Boolean(true)))
    );

    assert_eq!(
        format!("{:?}", get_eval_val(r#"return 123;"#)),
        format!("{:?}", Some(Object::Integer(123)))
    );

    assert_eq!(
        format!(
            "{:?}",
            get_eval_val(
                r#"
            let foo = 123;
            return foo;
        "#
            )
        ),
        format!("{:?}", Some(Object::Integer(123)))
    );
}

#[test]
fn eval_prefix_expression() {
    assert_eq!(
        format!("{:?}", get_eval_val(r#"!false"#)),
        format!("{:?}", Some(Object::Boolean(true)))
    );

    assert_eq!(
        format!("{:?}", get_eval_val(r#"!true"#)),
        format!("{:?}", Some(Object::Boolean(false)))
    );
}

#[test]
fn eval_infix_expression() {
    assert_eq!(
        format!("{:?}", get_eval_val(r#"1 + 2 + 3 + 4 / 2 * 3"#)),
        format!("{:?}", Some(Object::Integer(12)))
    );
}

#[test]
fn eval_grouped_expression() {
    assert_eq!(
        format!("{:?}", get_eval_val(r#"(7 + 2) / 3"#)),
        format!("{:?}", Some(Object::Integer(3)))
    );

    assert_eq!(
        format!("{:?}", get_eval_val(r#"9 / (1 + 2)"#)),
        format!("{:?}", Some(Object::Integer(3)))
    );
}

#[test]
fn eval_if_expression() {
    assert_eq!(
        format!(
            "{:?}",
            get_eval_val(
                r#"
            if (false) {
                false;
            } else {
                true;
            }
        "#
            )
        ),
        format!("{:?}", Some(Object::Boolean(true)))
    );

    assert_eq!(
        format!(
            "{:?}",
            get_eval_val(
                r#"
            let foo = 123;
            if (foo) {
                let bar = "stuff";
                return bar;
            } else {
                return 5;
            }
        "#
            )
        ),
        format!("{:?}", Some(Object::String(String::from("stuff"))))
    );
}

#[test]
fn eval_while_expression() {
    // assert_eq!(
    //     format!(
    //         "{:?}",
    //         get_eval_val(
    //             r#"
    //         while (foo) {
    //             let bar = "stuff";

    //             foo(bar);
    //         }
    //     "#
    //         )
    //     ),
    //     format!("{:?}", Some(Object::Integer(3)))
    // );
    assert_eq!(1, 1);
}

#[test]
fn eval_fn_expression() {
    let input = r#"
        fn bar(foo, stuff) {
            let another_bar = stuff;
            return another_bar + foo;
        }
"#;
    let program = Parser::get(input).parse_program();
    let mut evaluator = Evaluator::new(Env::new());
    evaluator.eval_program(program);
    let env_stored = evaluator.get_env().get("bar".to_string());

    assert!(env_stored.is_some());
}

#[test]
fn eval_let_fn_expression() {
    let input = r#"
        let foo = fn(bar, stuff) {
            let another_bar = stuff;
            return another_bar + bar;
        }
"#;
    let program = Parser::get(input).parse_program();
    let mut evaluator = Evaluator::new(Env::new());
    evaluator.eval_program(program);

    let env_stored = evaluator.get_env().get("foo".to_string());

    assert!(env_stored.is_some());
}

#[test]
fn eval_fn_call_expression() {
    let value = format!(
        "{:?}",
        get_eval_val(
            r#"
            fn bar(foo, stuff, var) {
                let another_bar = stuff;
                return another_bar + foo + var;
            }
            let value = bar(1, 2, 3);
            value;
    "#
        )
    );

    println!("{:?}", value);

    assert_eq!(value, format!("{:?}", Some(Object::Integer(6))));
}

#[test]
fn eval_let_fn_call_expression() {
    let value = format!(
        "{:?}",
        get_eval_val(
            r#"
            let bar = fn(foo, stuff, var) {
                let another_bar = stuff;
                return another_bar + foo + var;
            }
            let value = bar(1, 2, 3);
            value;
    "#
        )
    );

    println!("{:?}", value);

    assert_eq!(value, format!("{:?}", Some(Object::Integer(6))));
}

#[test]
fn eval_fibonacci_fn() {
    let value = format!(
        "{:?}",
        get_eval_val(
            r#"
            fn fibonacci(x) {
                if (x == 0) {
                    return 0;
                } else {
                    return 1;
                }
            }
            let foo = 123;
            let fib_val = fibonacci(foo); 
            fib_val; 
    "#
        )
    );

    println!("{:?}", value);

    assert_eq!(value, format!("{:?}", Some(Object::Integer(1))));
}

#[test]
fn eval_build_ins() {
    assert_eq!(
        format!("{:?}", get_eval_val(r#"first([1, 2, 3]);"#)),
        format!("{:?}", Some(Object::Integer(1)))
    );

    assert_eq!(
        format!(
            "{:?}",
            get_eval_val(
                r#"
        last([1, 2, 3]);
        "#
            )
        ),
        format!("{:?}", Some(Object::Integer(3)))
    );

    assert_eq!(
        format!("{:?}", get_eval_val(r#"rest([1, 2, 3]);"#)),
        format!(
            "{:?}",
            Some(Object::Array(vec![Object::Integer(2), Object::Integer(3)]))
        )
    );

    assert_eq!(
        format!("{:?}", get_eval_val(r#"len([1, 2, 3]);"#)),
        format!("{:?}", Some(Object::Integer(3)))
    );

    assert_eq!(
        format!("{:?}", get_eval_val(r#"push([1, 2, 3], 4);"#)),
        format!(
            "{:?}",
            Some(Object::Array(vec![
                Object::Integer(1),
                Object::Integer(2),
                Object::Integer(3),
                Object::Integer(4)
            ]))
        )
    );

    assert_eq!(
        format!("{:?}", get_eval_val(r#"unshift([1, 2, 3], 4);"#)),
        format!(
            "{:?}",
            Some(Object::Array(vec![
                Object::Integer(4),
                Object::Integer(1),
                Object::Integer(2),
                Object::Integer(3)
            ]))
        )
    );

    // assert_eq!(
    //     format!("{:?}", get_eval_val(r#"print([1, 2, 3]);"#)),
    //     format!("{:?}", Some("[1, 2, 3]"))
    // );
}

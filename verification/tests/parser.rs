use riddle::language::{Expr, Statement};
use riddle::lexer::Lexer;
use riddle::parser::Parser;
use riddle::{parse_class, parse_constructor, parse_expression, parse_function, parse_problem, parse_statement};

fn parse_primary_expression(input: &str) -> Expr {
    let lexer = Lexer::new(input);
    let mut parser = Parser::new(lexer);
    parser.parse_primary_expression().expect("Failed to parse primary expression")
}

fn parse_arithmetic_expression(input: &str) -> Expr {
    let lexer = Lexer::new(input);
    let mut parser = Parser::new(lexer);
    parser.parse_additive_expression().expect("Failed to parse arithmetic expression")
}

fn parse_equality_expression(input: &str) -> Expr {
    let lexer = Lexer::new(input);
    let mut parser = Parser::new(lexer);
    parser.parse_equality_expression().expect("Failed to parse equality expression")
}

#[test]
fn test_problem() {
    let input = r#"
        class Point {
            int x, y;

            void move(int dx, int dy) {
                x = x + dx;
                y = y + dy;
            }

            int distanceFromOrigin() {
                return sqrt(x*x + y*y);
            }

            predicate isAtOrigin() {
                x == 0 & y == 0;
            }

            Point(int x, int y) : distance(x, y) {
                distance = sqrt(x*x + y*y);
            }
        }

        Point p = new Point(3, 4);
        fact isAtOrigin = new p.isAtOrigin();
    "#;
    let program = parse_problem(input).expect("Failed to parse problem");
    assert_eq!(program.classes.len(), 1);
    assert_eq!(program.classes[0].name, "Point");
    assert!(program.classes[0].parents.is_empty());
    assert_eq!(program.classes[0].fields.len(), 1);
    assert_eq!(program.classes[0].fields[0].0, vec!["int".to_string()]);
    assert_eq!(program.classes[0].fields[0].1.len(), 2);
    assert_eq!(program.classes[0].fields[0].1[0].0, "x".to_string());
    assert_eq!(program.classes[0].fields[0].1[1].0, "y".to_string());
    assert_eq!(program.classes[0].constructors.len(), 1);
    assert_eq!(program.classes[0].constructors[0].args, vec![(vec!["int".to_string()], "x".to_string()), (vec!["int".to_string()], "y".to_string())]);
    assert_eq!(program.classes[0].constructors[0].init, vec![(vec!["distance".to_string()], vec![Expr::QualifiedId { ids: vec!["x".to_string()] }, Expr::QualifiedId { ids: vec!["y".to_string()] }])]);
    assert_eq!(program.classes[0].constructors[0].statements.len(), 1);
    if let Statement::Assign { name, value } = &program.classes[0].constructors[0].statements[0] {
        assert_eq!(name, &vec!["distance".to_string()]);
        assert_eq!(
            *value,
            Expr::Function {
                name: vec!["sqrt".to_string()],
                args: vec![Expr::Sum {
                    terms: vec![
                        Expr::Mul {
                            factors: vec![Expr::QualifiedId { ids: vec!["x".to_string()] }, Expr::QualifiedId { ids: vec!["x".to_string()] }]
                        },
                        Expr::Mul {
                            factors: vec![Expr::QualifiedId { ids: vec!["y".to_string()] }, Expr::QualifiedId { ids: vec!["y".to_string()] }]
                        },
                    ]
                }]
            }
        );
    } else {
        panic!("Expected assignment statement in constructor body");
    }
}

#[test]
fn test_class() {
    let input = r#"
        class Point {
            int x, y;

            void move(int dx, int dy) {
                x = x + dx;
                y = y + dy;
            }

            predicate isOrigin() {
                x == 0 & y == 0;
            }
        }
    "#;
    let class = parse_class(input).expect("Failed to parse class");
    assert_eq!(class.name, "Point");
    assert!(class.parents.is_empty());
    assert_eq!(class.fields.len(), 1);
    assert_eq!(class.fields[0].0, vec!["int".to_string()]);
    assert_eq!(class.fields[0].1.len(), 2);
    assert_eq!(class.fields[0].1[0].0, "x".to_string());
    assert_eq!(class.fields[0].1[1].0, "y".to_string());
    assert_eq!(class.constructors.len(), 0);
    assert_eq!(class.functions.len(), 1);
    assert_eq!(class.functions[0].return_type, None);
    assert_eq!(class.functions[0].name, "move");
    assert_eq!(class.functions[0].args.len(), 2);
    assert_eq!(class.functions[0].args[0].0, vec!["int".to_string()]);
    assert_eq!(class.functions[0].args[0].1, "dx".to_string());
    assert_eq!(class.functions[0].args[1].0, vec!["int".to_string()]);
    assert_eq!(class.functions[0].args[1].1, "dy".to_string());
    assert_eq!(class.predicates.len(), 1);
    assert_eq!(class.predicates[0].name, "isOrigin");
    assert_eq!(class.predicates[0].args.len(), 0);
    assert_eq!(class.predicates[0].statements.len(), 1);
    if let Statement::Expr(Expr::And { terms }) = &class.predicates[0].statements[0] {
        assert_eq!(terms.len(), 2);
        if let Expr::Eq { left, right } = &terms[0] {
            assert_eq!(**left, Expr::QualifiedId { ids: vec!["x".to_string()] });
            assert_eq!(**right, Expr::Int("0".to_string()));
        } else {
            panic!("Expected equality expression in predicate body");
        }
        if let Expr::Eq { left, right } = &terms[1] {
            assert_eq!(**left, Expr::QualifiedId { ids: vec!["y".to_string()] });
            assert_eq!(**right, Expr::Int("0".to_string()));
        } else {
            panic!("Expected equality expression in predicate body");
        }
    } else {
        panic!("Expected conjunction expression in predicate body");
    }
}

#[test]
fn test_constructor() {
    let input = r#"
        Point(int x, int y) : distance(x, y) {
            distance = sqrt(x*x + y*y);
        }
    "#;
    let constructor = parse_constructor(input).expect("Failed to parse constructor");
    assert_eq!(constructor.args, vec![(vec!["int".to_string()], "x".to_string()), (vec!["int".to_string()], "y".to_string())]);
    assert_eq!(constructor.init, vec![(vec!["distance".to_string()], vec![Expr::QualifiedId { ids: vec!["x".to_string()] }, Expr::QualifiedId { ids: vec!["y".to_string()] }])]);
    assert_eq!(constructor.statements.len(), 1);
    if let Statement::Assign { name, value } = &constructor.statements[0] {
        assert_eq!(name, &vec!["distance".to_string()]);
        assert_eq!(
            *value,
            Expr::Function {
                name: vec!["sqrt".to_string()],
                args: vec![Expr::Sum {
                    terms: vec![
                        Expr::Mul {
                            factors: vec![Expr::QualifiedId { ids: vec!["x".to_string()] }, Expr::QualifiedId { ids: vec!["x".to_string()] }]
                        },
                        Expr::Mul {
                            factors: vec![Expr::QualifiedId { ids: vec!["y".to_string()] }, Expr::QualifiedId { ids: vec!["y".to_string()] }]
                        },
                    ]
                }]
            }
        );
    } else {
        panic!("Expected assignment statement in constructor body");
    }
}

#[test]
fn test_function_no_return() {
    let input = r#"
        void move(int dx, int dy) {
            x = x + dx;
            y = y + dy;
        }
    "#;
    let function = parse_function(input).expect("Failed to parse function");
    assert_eq!(function.return_type, None);
    assert_eq!(function.name, "move");
    assert_eq!(function.args, vec![(vec!["int".to_string()], "dx".to_string()), (vec!["int".to_string()], "dy".to_string())]);
    assert_eq!(function.statements.len(), 2);
    if let Statement::Assign { name, value } = &function.statements[0] {
        assert_eq!(name, &vec!["x".to_string()]);
        assert_eq!(
            value,
            &Expr::Sum {
                terms: vec![Expr::QualifiedId { ids: vec!["x".to_string()] }, Expr::QualifiedId { ids: vec!["dx".to_string()] }]
            }
        );
    } else {
        panic!("Expected assignment statement in function body");
    }
    if let Statement::Assign { name, value } = &function.statements[1] {
        assert_eq!(name, &vec!["y".to_string()]);
        assert_eq!(
            value,
            &Expr::Sum {
                terms: vec![Expr::QualifiedId { ids: vec!["y".to_string()] }, Expr::QualifiedId { ids: vec!["dy".to_string()] }]
            }
        );
    } else {
        panic!("Expected assignment statement in function body");
    }
}

#[test]
fn test_function_with_return() {
    let input = r#"
            int add(int a, int b) {
                return a + b;
            }
        "#;
    let function = parse_function(input).expect("Failed to parse function");
    assert_eq!(function.return_type, Some(vec!["int".to_string()]));
    assert_eq!(function.name, "add");
    assert_eq!(function.args, vec![(vec!["int".to_string()], "a".to_string()), (vec!["int".to_string()], "b".to_string())]);
    assert_eq!(function.statements.len(), 1);
    if let Statement::Return { value } = &function.statements[0] {
        assert_eq!(
            value,
            &Expr::Sum {
                terms: vec![Expr::QualifiedId { ids: vec!["a".to_string()] }, Expr::QualifiedId { ids: vec!["b".to_string()] }]
            }
        );
    } else {
        panic!("Expected return statement in function body");
    }
}

#[test]
fn test_predicate() {
    let input = r#"
        predicate isEven(int x) {
            2*x == 0;
        }
    "#;
    let lexer = Lexer::new(input);
    let mut parser = Parser::new(lexer);
    let predicate = parser.parse_predicate().expect("Failed to parse predicate");
    assert_eq!(predicate.name, "isEven");
    assert_eq!(predicate.args, vec![(vec!["int".to_string()], "x".to_string())]);
    assert_eq!(predicate.statements.len(), 1);
    if let Statement::Expr(Expr::Eq { left, right }) = &predicate.statements[0] {
        assert_eq!(
            **left,
            Expr::Mul {
                factors: vec![Expr::Int("2".to_string()), Expr::QualifiedId { ids: vec!["x".to_string()] }]
            }
        );
        assert_eq!(**right, Expr::Int("0".to_string()));
    } else {
        panic!("Expected equality statement in predicate body");
    }
}

#[test]
fn test_disjunction() {
    let input = r#"
        {
            x == 1;
        } or {
            x == 2;
        }
    "#;
    let statement = parse_statement(input);
    if let Ok(Statement::Disjunction { disjuncts }) = statement {
        assert_eq!(disjuncts.len(), 2);
        if let Statement::Expr(Expr::Eq { left, right }) = &disjuncts[0].0[0] {
            assert_eq!(**left, Expr::QualifiedId { ids: vec!["x".to_string()] });
            assert_eq!(**right, Expr::Int("1".to_string()));
        } else {
            panic!("Expected equality statement in first disjunct");
        }
        if let Statement::Expr(Expr::Eq { left, right }) = &disjuncts[1].0[0] {
            assert_eq!(**left, Expr::QualifiedId { ids: vec!["x".to_string()] });
            assert_eq!(**right, Expr::Int("2".to_string()));
        } else {
            panic!("Expected equality statement in second disjunct");
        }
    } else {
        panic!("Expected disjunction statement");
    }
}

#[test]
fn test_priced_disjunction() {
    let input = r#"
        {
            x == 1;
        } [5] or {
            x == 2;
        } [10.0]
    "#;
    let statement = parse_statement(input).expect("Failed to parse priced disjunction");
    if let Statement::Disjunction { disjuncts } = statement {
        assert_eq!(disjuncts.len(), 2);
        assert_eq!(disjuncts[0].1, Expr::Int("5".to_string()));
        assert_eq!(disjuncts[1].1, Expr::Real("100".to_string(), "10".to_string()));
    } else {
        panic!("Expected disjunction statement");
    }
}

#[test]
fn test_for_all() {
    let input = r#"
        for (Point i) {
            x == i;
        }
    "#;
    let statement = parse_statement(input).expect("Failed to parse for loop");
    if let Statement::ForAll { var_type, var_name, statements } = statement {
        assert_eq!(var_type, vec!["Point".to_string()]);
        assert_eq!(var_name, "i");
        assert_eq!(statements.len(), 1);
        if let Statement::Expr(Expr::Eq { left, right }) = &statements[0] {
            assert_eq!(**left, Expr::QualifiedId { ids: vec!["x".to_string()] });
            assert_eq!(**right, Expr::QualifiedId { ids: vec!["i".to_string()] });
        } else {
            panic!("Expected equality statement in for loop body");
        }
    } else {
        panic!("Expected for loop statement");
    }
}

#[test]
fn test_formula() {
    let input = r#"
        fact isEven = new Even(x: 2*x);
    "#;
    let lexer = Lexer::new(input);
    let mut parser = Parser::new(lexer);
    let statement = parser.parse_statement().expect("Failed to parse formula");
    if let Statement::Formula { is_fact, name, tau, predicate_name, args } = statement {
        assert!(is_fact);
        assert_eq!(name, "isEven");
        assert_eq!(tau, vec![] as Vec<String>);
        assert_eq!(predicate_name, "Even");
        assert_eq!(args.len(), 1);
        assert_eq!(args[0].0, "x");
        if let Expr::Mul { factors } = &args[0].1 {
            assert_eq!(factors.len(), 2);
            assert_eq!(factors[0], Expr::Int("2".to_string()));
            assert_eq!(factors[1], Expr::QualifiedId { ids: vec!["x".to_string()] });
        } else {
            panic!("Expected multiplication expression in formula argument");
        }
    } else {
        panic!("Expected formula statement");
    }
}

#[test]
fn test_complex_statement() {
    let input = r#"
        {
            x == 1;
            for (Point i) {
                y == i;
            }
        } or {
            x == 2;
            for (Point j) {
                y == j;
            }
        } [42.0]
    "#;
    let lexer = Lexer::new(input);
    let mut parser = Parser::new(lexer);
    let statement = parser.parse_statement().expect("Failed to parse complex statement");
    if let Statement::Disjunction { disjuncts } = statement {
        assert_eq!(disjuncts.len(), 2);
        // First disjunct
        assert_eq!(disjuncts[0].1, Expr::Int("1".to_string()));
        if let Statement::ForAll { var_type, var_name, statements } = &disjuncts[0].0[1] {
            assert_eq!(var_type, &vec!["Point".to_string()]);
            assert_eq!(var_name, "i");
            assert_eq!(statements.len(), 1);
            if let Statement::Expr(Expr::Eq { left, right }) = &statements[0] {
                assert_eq!(**left, Expr::QualifiedId { ids: vec!["y".to_string()] });
                assert_eq!(**right, Expr::QualifiedId { ids: vec!["i".to_string()] });
            } else {
                panic!("Expected equality statement in first for loop body");
            }
        } else {
            panic!("Expected for loop in first disjunct");
        }
        // Second disjunct
        assert_eq!(disjuncts[1].1, Expr::Real("420".to_string(), "10".to_string()));
        if let Statement::ForAll { var_type, var_name, statements } = &disjuncts[1].0[1] {
            assert_eq!(var_type, &vec!["Point".to_string()]);
            assert_eq!(var_name, "j");
            assert_eq!(statements.len(), 1);
            if let Statement::Expr(Expr::Eq { left, right }) = &statements[0] {
                assert_eq!(**left, Expr::QualifiedId { ids: vec!["y".to_string()] });
                assert_eq!(**right, Expr::QualifiedId { ids: vec!["j".to_string()] });
            } else {
                panic!("Expected equality statement in second for loop body");
            }
        } else {
            panic!("Expected for loop in second disjunct");
        }
    }
}

#[test]
fn test_primary_expressions() {
    assert_eq!(parse_primary_expression("true"), Expr::Bool(true));
    assert_eq!(parse_primary_expression("false"), Expr::Bool(false));
    assert_eq!(parse_primary_expression("!true"), Expr::Not { term: Box::new(Expr::Bool(true)) });
    assert_eq!(parse_primary_expression("123"), Expr::Int("123".to_string()));
    assert_eq!(parse_primary_expression("12.34"), Expr::Real("1234".to_string(), "100".to_string()));
    assert_eq!(parse_primary_expression("foo"), Expr::QualifiedId { ids: vec!["foo".to_string()] });
    assert_eq!(parse_primary_expression("foo.bar"), Expr::QualifiedId { ids: vec!["foo".to_string(), "bar".to_string()] });
    assert_eq!(parse_primary_expression("(123)"), Expr::Int("123".to_string()));
    assert_eq!(parse_primary_expression("f()"), Expr::Function { name: vec!["f".to_string()], args: vec![] });
    assert_eq!(parse_primary_expression("g(1, true)"), Expr::Function { name: vec!["g".to_string()], args: vec![Expr::Int("1".to_string()), Expr::Bool(true)] });
    assert_eq!(
        parse_primary_expression("Math.max(1, 2)"),
        Expr::Function {
            name: vec!["Math".to_string(), "max".to_string()],
            args: vec![Expr::Int("1".to_string()), Expr::Int("2".to_string())]
        }
    );
}

#[test]
fn test_arithmetic() {
    // 1 + 2
    assert_eq!(parse_arithmetic_expression("1 + 2"), Expr::Sum { terms: vec![Expr::Int("1".to_string()), Expr::Int("2".to_string())] });

    // 1 * 2
    assert_eq!(parse_arithmetic_expression("1 * 2"), Expr::Mul { factors: vec![Expr::Int("1".to_string()), Expr::Int("2".to_string())] });

    // 1 + 2 * 3
    assert_eq!(
        parse_arithmetic_expression("1 + 2 * 3"),
        Expr::Sum {
            terms: vec![Expr::Int("1".to_string()), Expr::Mul { factors: vec![Expr::Int("2".to_string()), Expr::Int("3".to_string())] },]
        }
    );

    // (1 + 2) * 3
    assert_eq!(
        parse_arithmetic_expression("(1 + 2) * 3"),
        Expr::Mul {
            factors: vec![Expr::Sum { terms: vec![Expr::Int("1".to_string()), Expr::Int("2".to_string())] }, Expr::Int("3".to_string()),]
        }
    );
}

#[test]
fn test_relational() {
    assert_eq!(parse_equality_expression("1 < 2"), Expr::Lt { left: Box::new(Expr::Int("1".to_string())), right: Box::new(Expr::Int("2".to_string())) });
    assert_eq!(parse_equality_expression("1 <= 2"), Expr::Leq { left: Box::new(Expr::Int("1".to_string())), right: Box::new(Expr::Int("2".to_string())) });
    assert_eq!(parse_equality_expression("1 > 2"), Expr::Gt { left: Box::new(Expr::Int("1".to_string())), right: Box::new(Expr::Int("2".to_string())) });
    assert_eq!(parse_equality_expression("1 >= 2"), Expr::Geq { left: Box::new(Expr::Int("1".to_string())), right: Box::new(Expr::Int("2".to_string())) });
    assert_eq!(parse_equality_expression("1 == 1"), Expr::Eq { left: Box::new(Expr::Int("1".to_string())), right: Box::new(Expr::Int("1".to_string())) });
    assert_eq!(parse_equality_expression("1 != 2"), Expr::Neq { left: Box::new(Expr::Int("1".to_string())), right: Box::new(Expr::Int("2".to_string())) });
}

#[test]
fn test_logical() {
    assert_eq!(parse_expression("true & false").unwrap(), Expr::And { terms: vec![Expr::Bool(true), Expr::Bool(false)] });
    assert_eq!(parse_expression("true | false").unwrap(), Expr::Or { terms: vec![Expr::Bool(true), Expr::Bool(false)] });
    assert_eq!(
        parse_expression("!a & b").unwrap(),
        Expr::And {
            terms: vec![Expr::Not { term: Box::new(Expr::QualifiedId { ids: vec!["a".to_string()] }) }, Expr::QualifiedId { ids: vec!["b".to_string()] }]
        }
    );

    // n-ary logical ops
    assert_eq!(
        parse_expression("a & b & c").unwrap(),
        Expr::And {
            terms: vec![Expr::QualifiedId { ids: vec!["a".to_string()] }, Expr::QualifiedId { ids: vec!["b".to_string()] }, Expr::QualifiedId { ids: vec!["c".to_string()] },]
        }
    );

    // Mixed precedence: & binds tighter than |
    assert_eq!(
        parse_expression("a | b & c").unwrap(),
        Expr::Or {
            terms: vec![
                Expr::QualifiedId { ids: vec!["a".to_string()] },
                Expr::And {
                    terms: vec![Expr::QualifiedId { ids: vec!["b".to_string()] }, Expr::QualifiedId { ids: vec!["c".to_string()] },]
                }
            ]
        }
    );
}

#[test]
fn test_complex_expression() {
    assert_eq!(
        parse_expression("f(x) + 3 * (y - 2) >= 10 & g(z) != 5").unwrap(),
        Expr::And {
            terms: vec![
                Expr::Geq {
                    left: Box::new(Expr::Sum {
                        terms: vec![
                            Expr::Function { name: vec!["f".to_string()], args: vec![Expr::QualifiedId { ids: vec!["x".to_string()] }] },
                            Expr::Mul {
                                factors: vec![
                                    Expr::Int("3".to_string()),
                                    Expr::Sum {
                                        terms: vec![Expr::QualifiedId { ids: vec!["y".to_string()] }, Expr::Opposite { term: Box::new(Expr::Int("2".to_string())) },]
                                    }
                                ]
                            }
                        ]
                    }),
                    right: Box::new(Expr::Int("10".to_string()))
                },
                Expr::Neq {
                    left: Box::new(Expr::Function { name: vec!["g".to_string()], args: vec![Expr::QualifiedId { ids: vec!["z".to_string()] }] }),
                    right: Box::new(Expr::Int("5".to_string()))
                }
            ]
        }
    );
}

fn runtime_message<T: std::fmt::Debug>(r: Result<T, riddle::RiddleError>) -> String {
    match r {
        Err(riddle::RiddleError::RuntimeError(m)) => m,
        other => panic!("Expected a runtime error, got {:?}", other),
    }
}

#[test]
fn error_messages_name_the_tokens() {
    assert_eq!(runtime_message(parse_function("void f(5 a) { }")), "Unexpected token in type: IntLiteral(\"5\")");
    let lexer = runtime_message(parse_statement("fact f @"));
    assert!(lexer.starts_with("Lexer Error: InvalidCharacter('@', Location {"), "{}", lexer);
    assert_eq!(runtime_message(parse_statement("return 1")), "Syntax Error: Expected Semicolon, found end of input");
    let found = runtime_message(parse_statement("return 1 )"));
    assert!(found.starts_with("Syntax Error: Expected Semicolon, found RParen at line 1, column "), "{}", found);
}

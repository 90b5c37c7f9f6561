use acc::lexer::{parse as lex, Token};
use acc::parser::expression::{
    AdditiveExpression, AdditiveOperator, EqualityExpression, Expression, LogicalAndExpression,
    LogicalOrExpression, RelationalExpression,
};
use acc::parser::factor::{BinaryFactorOperator, Factor, UnaryOperator};
use acc::parser::statement::Statement;
use acc::parser::term::Term;
use acc::parser::{expression, factor, function, program, statement, term};
use acc::parser::{Expected, ParseError, StackFrame};

fn tokens(source: &str) -> Vec<Token> {
    lex(source.to_string()).unwrap()
}

fn frame(names: &[&str]) -> StackFrame {
    let mut frame = StackFrame::default();
    for name in names {
        frame.add_var(name.to_string());
    }
    frame
}

fn syntax(expected: Expected, found: Option<Token>) -> ParseError {
    ParseError::Syntax { expected, found }
}

fn additive(expression: &Expression) -> &AdditiveExpression {
    match expression {
        Expression::LogicalOrExpression(LogicalOrExpression {
            expression:
                LogicalAndExpression {
                    expression:
                        EqualityExpression {
                            expression: RelationalExpression { expression, binary_expressions: r },
                            binary_expressions: e,
                        },
                    binary_expressions: a,
                },
            binary_expressions: o,
        }) => {
            assert!(r.is_empty() && e.is_empty() && a.is_empty() && o.is_empty());
            expression
        }
        _ => panic!("not a chain"),
    }
}

fn constant(term: &Term) -> i64 {
    assert!(term.binary_factors.is_empty());
    match term.factor {
        Factor::Constant(value) => value,
        _ => panic!("not a constant"),
    }
}

#[test]
fn subtraction_associates_to_the_left() {
    let input = tokens("1 - 2 - 3;");
    let (tree, rest) = expression::parse(&input, &frame(&[])).unwrap();
    assert_eq!(rest, &[Token::Semicolon]);
    let sum = additive(&tree);
    assert_eq!(constant(&sum.term), 1);
    assert_eq!(sum.binary_terms.len(), 2);
    assert_eq!(sum.binary_terms[0].operator, AdditiveOperator::Subtraction);
    assert_eq!(constant(&sum.binary_terms[0].right_term), 2);
    assert_eq!(sum.binary_terms[1].operator, AdditiveOperator::Subtraction);
    assert_eq!(constant(&sum.binary_terms[1].right_term), 3);
}

#[test]
fn multiplication_binds_tighter_than_addition() {
    let input = tokens("2 + 3 * 4");
    let (tree, rest) = expression::parse(&input, &frame(&[])).unwrap();
    assert!(rest.is_empty());
    let sum = additive(&tree);
    assert_eq!(constant(&sum.term), 2);
    assert_eq!(sum.binary_terms.len(), 1);
    assert_eq!(sum.binary_terms[0].operator, AdditiveOperator::Addition);
    let product = &sum.binary_terms[0].right_term;
    assert_eq!(product.factor, Factor::Constant(3));
    assert_eq!(product.binary_factors.len(), 1);
    assert_eq!(product.binary_factors[0].operator, BinaryFactorOperator::Multiplication);
    assert_eq!(product.binary_factors[0].right_factor, Factor::Constant(4));
}

#[test]
fn term_stops_at_an_operator_of_another_level() {
    let input = tokens("6 / 3 * 2 + 1");
    let (tree, rest) = term::parse(&input, &frame(&[])).unwrap();
    assert_eq!(rest, &[Token::PlusSign, Token::IntegerLiteral(1)]);
    assert_eq!(tree.factor, Factor::Constant(6));
    assert_eq!(tree.binary_factors[0].operator, BinaryFactorOperator::Division);
    assert_eq!(tree.binary_factors[1].operator, BinaryFactorOperator::Multiplication);
}

#[test]
fn factor_reads_each_of_its_forms() {
    let names = frame(&["x"]);
    let input = tokens("7");
    assert_eq!(factor::parse(&input, &names).unwrap().0, Factor::Constant(7));
    let input = tokens("x");
    assert_eq!(factor::parse(&input, &names).unwrap().0, Factor::Identifier("x".to_string()));
    let input = tokens("-~!x");
    match factor::parse(&input, &names).unwrap().0 {
        Factor::UnaryOperation(negation) => {
            assert_eq!(negation.operator, UnaryOperator::Negation);
            match negation.factor {
                Factor::UnaryOperation(complement) => {
                    assert_eq!(complement.operator, UnaryOperator::BitwiseComplement);
                    match complement.factor {
                        Factor::UnaryOperation(not) => {
                            assert_eq!(not.operator, UnaryOperator::LogicalNegation);
                            assert_eq!(not.factor, Factor::Identifier("x".to_string()));
                        }
                        _ => panic!("not a unary operation"),
                    }
                }
                _ => panic!("not a unary operation"),
            }
        }
        _ => panic!("not a unary operation"),
    }
    let input = tokens("(1) 2");
    let (tree, rest) = factor::parse(&input, &names).unwrap();
    assert_eq!(rest, &[Token::IntegerLiteral(2)]);
    match tree {
        Factor::Expression(inner) => assert_eq!(constant(&additive(&inner).term), 1),
        _ => panic!("not in parentheses"),
    }
}

#[test]
fn factor_names_what_it_found() {
    let names = frame(&[]);
    assert_eq!(factor::parse(&[], &names), Err(syntax(Expected::Factor, None)));
    let input = tokens(";");
    assert_eq!(
        factor::parse(&input, &names),
        Err(syntax(Expected::Factor, Some(Token::Semicolon)))
    );
    let input = tokens("(1;");
    assert_eq!(
        factor::parse(&input, &names),
        Err(syntax(Expected::CloseParen, Some(Token::Semicolon)))
    );
    let input = tokens("(1");
    assert_eq!(factor::parse(&input, &names), Err(syntax(Expected::CloseParen, None)));
    let input = tokens("1 + ");
    assert_eq!(expression::parse(&input, &names), Err(syntax(Expected::Factor, None)));
}

#[test]
fn parse_with_parens_wants_an_opening_parenthesis() {
    let names = frame(&[]);
    let input = tokens("1)");
    assert_eq!(
        expression::parse_with_parens(&input, &names),
        Err(syntax(Expected::OpenParen, Some(Token::IntegerLiteral(1))))
    );
    let input = tokens("(1 + 2) * 3");
    let (tree, rest) = expression::parse_with_parens(&input, &names).unwrap();
    assert_eq!(rest, &[Token::MultiplicationSign, Token::IntegerLiteral(3)]);
    assert_eq!(additive(&tree).binary_terms.len(), 1);
}

#[test]
fn logical_or_is_the_loosest_chain() {
    let input = tokens("1 && 2 || 3 == 4 || 5 < 6");
    let (tree, rest) = expression::parse_logical_or(&input, &frame(&[])).unwrap();
    assert!(rest.is_empty());
    assert_eq!(tree.binary_expressions.len(), 2);
    assert_eq!(tree.expression.binary_expressions.len(), 1);
    assert_eq!(tree.binary_expressions[0].right_expression.expression.binary_expressions.len(), 1);
    assert_eq!(
        tree.binary_expressions[1]
            .right_expression
            .expression
            .expression
            .binary_expressions
            .len(),
        1
    );
}

#[test]
fn assignment_is_read_where_an_identifier_and_equals_come_first() {
    let names = frame(&["a", "b"]);
    let input = tokens("a = b = 3;");
    let (tree, rest) = expression::parse(&input, &names).unwrap();
    assert_eq!(rest, &[Token::Semicolon]);
    match tree {
        Expression::Assignment(outer) => {
            assert_eq!(outer.var.name, "a");
            match outer.expression {
                Expression::Assignment(inner) => {
                    assert_eq!(inner.var.name, "b");
                    assert_eq!(constant(&additive(&inner.expression).term), 3);
                }
                _ => panic!("not an assignment"),
            }
        }
        _ => panic!("not an assignment"),
    }
    let input = tokens("a == 3");
    match expression::parse(&input, &names).unwrap().0 {
        Expression::LogicalOrExpression(_) => {}
        _ => panic!("not a chain"),
    }
}

#[test]
fn an_undeclared_variable_is_an_error_wherever_it_is_used() {
    let names = frame(&["a"]);
    let undeclared = |name: &str| Err(ParseError::UndeclaredVariable(name.to_string()));
    for source in ["b", "a + b", "a * (1 - b)", "-b", "1 || b", "a = b", "a && (a = b)"] {
        let input = tokens(source);
        assert_eq!(expression::parse(&input, &names), undeclared("b"), "{}", source);
    }
    let input = tokens("b = a");
    assert_eq!(expression::parse(&input, &names), undeclared("b"));
    let input = tokens("b = 1;");
    let mut names = frame(&["a"]);
    let fails = |name: &str| Err(ParseError::UndeclaredVariable(name.to_string()));
    assert_eq!(statement::parse(&input, &mut names), fails("b"));
    let input = tokens("return b;");
    assert_eq!(statement::parse(&input, &mut names), fails("b"));
    let input = tokens("int c = c;");
    assert_eq!(statement::parse(&input, &mut names), fails("c"));
    assert_eq!(
        program::parse(tokens("int main(){ return x; }")).err(),
        Some(ParseError::UndeclaredVariable("x".to_string()))
    );
}

#[test]
fn a_second_declaration_of_a_name_is_an_error() {
    assert_eq!(
        program::parse(tokens("int main(){ int a; int a; }")).err(),
        Some(ParseError::DuplicateDeclaration("a".to_string()))
    );
    assert_eq!(
        program::parse(tokens("int main(){ int a = 1; int b; int a = 2; return a; }")).err(),
        Some(ParseError::DuplicateDeclaration("a".to_string()))
    );
    let mut names = frame(&["a"]);
    let input = tokens("int a;");
    assert_eq!(
        statement::parse(&input, &mut names),
        Err(ParseError::DuplicateDeclaration("a".to_string()))
    );
    assert_eq!(names.current_offset, -8);
}

#[test]
fn a_declaration_takes_the_next_slot() {
    let mut names = StackFrame::default();
    assert_eq!(names.current_offset, 0);
    let input = tokens("int a; int b = a; a = 2;");
    let (first, rest) = statement::parse(&input, &mut names).unwrap();
    assert_eq!(names.current_offset, -8);
    assert_eq!(names.vars.get("a"), Some(&-8));
    let (second, rest) = statement::parse(rest, &mut names).unwrap();
    assert_eq!(names.current_offset, -16);
    assert_eq!(names.vars.get("a"), Some(&-8));
    assert_eq!(names.vars.get("b"), Some(&-16));
    let (third, rest) = statement::parse(rest, &mut names).unwrap();
    assert!(rest.is_empty());
    assert_eq!(names.current_offset, -16);
    assert_eq!(names.vars.len(), 2);
    match first {
        Statement::VariableDeclaration(declaration) => {
            assert_eq!(declaration.var.name, "a");
            assert_eq!(declaration.expression, None);
        }
        _ => panic!("not a declaration"),
    }
    match second {
        Statement::VariableDeclaration(declaration) => {
            assert_eq!(declaration.var.name, "b");
            assert!(declaration.expression.is_some());
        }
        _ => panic!("not a declaration"),
    }
    match third {
        Statement::Expression(Expression::Assignment(assignment)) => {
            assert_eq!(assignment.var.name, "a")
        }
        _ => panic!("not an assignment"),
    }
}

#[test]
fn add_var_steps_down_by_one_slot() {
    let mut names = StackFrame::default();
    names.add_var("x".to_string());
    names.add_var("y".to_string());
    names.add_var("z".to_string());
    assert_eq!(names.current_offset, -24);
    assert_eq!(names.vars.get("x"), Some(&-8));
    assert_eq!(names.vars.get("y"), Some(&-16));
    assert_eq!(names.vars.get("z"), Some(&-24));
    assert_eq!(names.vars.get("w"), None);
}

#[test]
fn statement_names_what_it_found() {
    let mut names = frame(&[]);
    let input = tokens("return 1 }");
    assert_eq!(
        statement::parse(&input, &mut names),
        Err(syntax(Expected::Semicolon, Some(Token::CloseBrace)))
    );
    let input = tokens("return 1");
    assert_eq!(statement::parse(&input, &mut names), Err(syntax(Expected::Semicolon, None)));
    let input = tokens("int 1;");
    assert_eq!(
        statement::parse(&input, &mut names),
        Err(syntax(Expected::Identifier, Some(Token::IntegerLiteral(1))))
    );
    let input = tokens("int a 1;");
    assert_eq!(
        statement::parse(&input, &mut names),
        Err(syntax(Expected::Semicolon, Some(Token::IntegerLiteral(1))))
    );
    assert_eq!(names.current_offset, 0);
    assert_eq!(statement::parse(&[], &mut names), Err(syntax(Expected::Factor, None)));
    let input = tokens("1 2;");
    assert_eq!(
        statement::parse(&input, &mut names),
        Err(syntax(Expected::Semicolon, Some(Token::IntegerLiteral(2))))
    );
}

#[test]
fn function_names_what_it_found() {
    let fails = |source: &str| function::parse(tokens(source)).err().unwrap();
    assert_eq!(fails(""), syntax(Expected::ReturnType, None));
    assert_eq!(
        fails("main(){}"),
        syntax(Expected::ReturnType, Some(Token::Identifier("main".to_string())))
    );
    assert_eq!(fails("int (){}"), syntax(Expected::Identifier, Some(Token::OpenParen)));
    assert_eq!(fails("int main){}"), syntax(Expected::OpenParen, Some(Token::CloseParen)));
    assert_eq!(fails("int main({}"), syntax(Expected::CloseParen, Some(Token::OpenBrace)));
    assert_eq!(
        fails("int main() return 1; }"),
        syntax(Expected::OpenBrace, Some(Token::KeywordReturn))
    );
    assert_eq!(fails("int main(){ return 1;"), syntax(Expected::CloseBrace, None));
    assert_eq!(
        fails("int main(){ return 1; } }"),
        syntax(Expected::EndOfInput, Some(Token::CloseBrace))
    );
    assert_eq!(fails("int main(){ return ; }"), syntax(Expected::Factor, Some(Token::Semicolon)));
}

#[test]
fn function_keeps_the_statements_after_a_return() {
    let tree = function::parse(tokens("int main(){ int a = 1; return a; a = 2; return 3; }"))
        .unwrap();
    assert_eq!(tree.name, "main");
    assert_eq!(tree.statements.len(), 4);
    assert!(matches!(tree.statements[0], Statement::VariableDeclaration(_)));
    assert!(matches!(tree.statements[1], Statement::Return(_)));
    assert!(matches!(tree.statements[2], Statement::Expression(_)));
    assert!(matches!(tree.statements[3], Statement::Return(_)));
    assert_eq!(tree.stack_frame.current_offset, -8);
    assert_eq!(tree.stack_frame.vars.get("a"), Some(&-8));
}

#[test]
fn an_empty_function_has_no_statements() {
    let tree = program::parse(tokens("int f(){}")).unwrap();
    assert_eq!(tree.function.name, "f");
    assert!(tree.function.statements.is_empty());
    assert_eq!(tree.function.stack_frame.current_offset, 0);
    assert_eq!(tree.function.stack_frame.vars.len(), 0);
}

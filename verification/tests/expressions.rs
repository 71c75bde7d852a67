use spingus::domain::action::precondition::{parse_precondition, Precondition};
use spingus::domain::action::string_expression::{parse_expression, StringExpression};
use spingus::shared::Span;
use spingus::term::Term;

fn term(name: &str, parameters: &[&str]) -> Term {
    Term {
        name: name.to_string(),
        parameters: parameters.iter().map(|p| p.to_string()).collect(),
    }
}

fn fact(name: &str, parameters: &[&str]) -> StringExpression {
    StringExpression::Predicate(term(name, parameters))
}

fn depth(e: &StringExpression) -> usize {
    match e {
        StringExpression::Predicate(_) | StringExpression::Equal(_) => 0,
        StringExpression::Not(c) => 1 + depth(c),
        StringExpression::And(cs) | StringExpression::Or(cs) => {
            1 + cs.iter().map(depth).max().unwrap_or(0)
        }
        StringExpression::Imply(a, b) => 1 + depth(a).max(depth(b)),
    }
}

#[test]
fn precondition_test() {
    assert_eq!(
        Ok((
            "".as_bytes(),
            Precondition::Predicate(Term {
                name: "predicate".to_string(),
                parameters: vec![]
            })
        )),
        parse_precondition("(predicate)")
    );
    assert_eq!(
        Ok((
            "".as_bytes(),
            Precondition::Predicate(Term {
                name: "predicate".to_string(),
                parameters: vec!["a".to_string()]
            })
        )),
        parse_precondition("(predicate ?a)")
    );
    assert_eq!(
        Ok((
            "".as_bytes(),
            Precondition::Predicate(Term {
                name: "predicate".to_string(),
                parameters: vec!["a".to_string(), "b".to_string()]
            })
        )),
        parse_precondition("(predicate ?a ?b)")
    );
    assert_eq!(
        Ok((
            "".as_bytes(),
            Precondition::Not(Box::new(Precondition::Predicate(Term {
                name: "predicate".to_string(),
                parameters: vec!["a".to_string()]
            })))
        )),
        parse_precondition("(not (predicate ?a))")
    );
    assert_eq!(
        Ok((
            "".as_bytes(),
            Precondition::And(vec![Precondition::Predicate(Term {
                name: "predicate".to_string(),
                parameters: vec!["a".to_string()]
            })])
        )),
        parse_precondition("(and (predicate ?a))")
    );
    assert_eq!(
        Ok((
            "".as_bytes(),
            Precondition::And(vec![
                Precondition::Predicate(Term {
                    name: "predicate".to_string(),
                    parameters: vec!["a".to_string()]
                }),
                Precondition::Predicate(Term {
                    name: "predicate".to_string(),
                    parameters: vec!["b".to_string()]
                })
            ])
        )),
        parse_precondition("(and (predicate ?a) (predicate ?b))")
    );
    assert_eq!(
        Ok((
            "".as_bytes(),
            Precondition::Or(vec![Precondition::Predicate(Term {
                name: "predicate".to_string(),
                parameters: vec!["a".to_string()]
            })])
        )),
        parse_precondition("(or (predicate ?a))")
    );
    assert_eq!(
        Ok((
            "".as_bytes(),
            Precondition::Or(vec![
                Precondition::Predicate(Term {
                    name: "predicate".to_string(),
                    parameters: vec!["a".to_string()]
                }),
                Precondition::Predicate(Term {
                    name: "predicate".to_string(),
                    parameters: vec!["b".to_string()]
                }),
            ])
        )),
        parse_precondition("(or (predicate ?a) (predicate ?b))")
    );
    assert_eq!(
        Ok((
            "".as_bytes(),
            Precondition::Equal(vec![
                Precondition::Predicate(Term {
                    name: "predicate".to_string(),
                    parameters: vec!["a".to_string()]
                }),
                Precondition::Predicate(Term {
                    name: "predicate".to_string(),
                    parameters: vec!["b".to_string()]
                }),
            ])
        )),
        parse_precondition("(= (predicate ?a) (predicate ?b))")
    );
}

#[test]
fn string_expression_test() {
    assert_eq!(
        Ok((
            "".as_bytes(),
            StringExpression::Predicate(Term {
                name: "predicate".to_string(),
                parameters: vec![]
            })
        )),
        parse_expression("(predicate)")
    );
    assert_eq!(
        Ok((
            "".as_bytes(),
            StringExpression::Predicate(Term {
                name: "predicate".to_string(),
                parameters: vec!["?a".to_string()]
            })
        )),
        parse_expression("(predicate ?a)")
    );
    assert_eq!(
        Ok((
            "".as_bytes(),
            StringExpression::Predicate(Term {
                name: "predicate".to_string(),
                parameters: vec!["?a".to_string(), "?b".to_string()]
            })
        )),
        parse_expression("(predicate ?a ?b)")
    );
    assert_eq!(
        Ok((
            "".as_bytes(),
            StringExpression::Not(Box::new(StringExpression::Predicate(Term {
                name: "predicate".to_string(),
                parameters: vec!["?a".to_string()]
            })))
        )),
        parse_expression("(not (predicate ?a))")
    );
    assert_eq!(
        Ok((
            "".as_bytes(),
            StringExpression::And(vec![StringExpression::Predicate(Term {
                name: "predicate".to_string(),
                parameters: vec!["?a".to_string()]
            })])
        )),
        parse_expression("(and (predicate ?a))")
    );
    assert_eq!(
        Ok((
            "".as_bytes(),
            StringExpression::And(vec![
                StringExpression::Predicate(Term {
                    name: "predicate".to_string(),
                    parameters: vec!["?a".to_string()]
                }),
                StringExpression::Predicate(Term {
                    name: "predicate".to_string(),
                    parameters: vec!["?b".to_string()]
                })
            ])
        )),
        parse_expression("(and (predicate ?a) (predicate ?b))")
    );
    assert_eq!(
        Ok((
            "".as_bytes(),
            StringExpression::Or(vec![StringExpression::Predicate(Term {
                name: "predicate".to_string(),
                parameters: vec!["?a".to_string()]
            })])
        )),
        parse_expression("(or (predicate ?a))")
    );
    assert_eq!(
        Ok((
            "".as_bytes(),
            StringExpression::Or(vec![
                StringExpression::Predicate(Term {
                    name: "predicate".to_string(),
                    parameters: vec!["?a".to_string()]
                }),
                StringExpression::Predicate(Term {
                    name: "predicate".to_string(),
                    parameters: vec!["?b".to_string()]
                }),
            ])
        )),
        parse_expression("(or (predicate ?a) (predicate ?b))")
    );
    assert_eq!(
        Ok((
            "".as_bytes(),
            StringExpression::Equal(vec!["?a".to_string(), "?b".to_string(),])
        )),
        parse_expression("(= ?a ?b)")
    );
    assert_eq!(
        Ok((
            "".as_bytes(),
            StringExpression::Imply(
                Box::new(StringExpression::Predicate(Term {
                    name: "predicate".to_string(),
                    parameters: vec!["?a".to_string()]
                })),
                Box::new(StringExpression::Predicate(Term {
                    name: "predicate".to_string(),
                    parameters: vec!["?b".to_string()]
                }))
            )
        )),
        parse_expression("(imply (predicate ?a) (predicate ?b))")
    );
    assert_eq!(
        Ok((
            "".as_bytes(),
            StringExpression::Imply(
                Box::new(StringExpression::Predicate(Term {
                    name: "closer".to_string(),
                    parameters: vec!["?a2".to_string(), "?a1".to_string()]
                })),
                Box::new(StringExpression::Predicate(Term {
                    name: "free".to_string(),
                    parameters: vec!["?a2".to_string(), "?t".to_string()]
                }))
            )
        )),
        parse_expression("(imply (closer ?a2 ?a1) (free ?a2 ?t))")
    );
}

#[test]
fn empty_and_is_accepted() {
    assert_eq!(
        parse_expression("(and)"),
        Ok(("".as_bytes(), StringExpression::And(vec![])))
    );
}

#[test]
fn empty_or_is_refused() {
    assert_eq!(
        parse_expression("(or)"),
        Err((
            "unexpected token".to_string(),
            Span { start: 3, end: 4 }
        ))
    );
    assert!(parse_expression("(or").is_err());
}

#[test]
fn not_and_imply_have_fixed_arity() {
    assert!(parse_expression("(not)").is_err());
    assert!(parse_expression("(not (p) (q))").is_err());
    assert!(parse_expression("(imply (p))").is_err());
    assert!(parse_expression("(imply (p) (q) (r))").is_err());
    assert!(parse_expression("(=)").is_err());
}

#[test]
fn unterminated_expression_fails_at_the_end() {
    assert_eq!(
        parse_expression("(predicate"),
        Err((
            "unexpected end of input".to_string(),
            Span { start: 10, end: 10 }
        ))
    );
    assert_eq!(
        parse_expression("(and (p) (q ?x"),
        Err((
            "unexpected end of input".to_string(),
            Span { start: 14, end: 14 }
        ))
    );
}

#[test]
fn a_failing_child_fails_the_whole() {
    assert_eq!(
        parse_expression("(and (p) (or) (q))"),
        Err((
            "unexpected token".to_string(),
            Span { start: 12, end: 13 }
        ))
    );
}

#[test]
fn keywords_ignore_letter_case() {
    let expected = Ok(("".as_bytes(), StringExpression::And(vec![fact("p", &[])])));
    assert_eq!(parse_expression("(AND (p))"), expected);
    assert_eq!(parse_expression("(And (p))"), expected);
    assert_eq!(parse_expression("(and (p))"), expected);
    assert_eq!(
        parse_expression("(NOT (P ?X))"),
        Ok((
            "".as_bytes(),
            StringExpression::Not(Box::new(fact("P", &["?X"])))
        ))
    );
    assert_eq!(
        parse_expression("(Or (p) (q))"),
        Ok((
            "".as_bytes(),
            StringExpression::Or(vec![fact("p", &[]), fact("q", &[])])
        ))
    );
}

#[test]
fn a_keyword_is_a_whole_name() {
    assert_eq!(
        parse_expression("(android ?x)"),
        Ok(("".as_bytes(), fact("android", &["?x"])))
    );
    assert_eq!(
        parse_expression("(order ?x)"),
        Ok(("".as_bytes(), fact("order", &["?x"])))
    );
    assert_eq!(
        parse_expression("(not-yet ?x)"),
        Ok(("".as_bytes(), fact("not-yet", &["?x"])))
    );
}

#[test]
fn nesting_keeps_depth_and_order() {
    let mut text = String::from("(leaf ?x)");
    let mut tree = fact("leaf", &["?x"]);
    for level in 0..40 {
        match level % 3 {
            0 => {
                text = format!("(and (first) {} (last))", text);
                tree = StringExpression::And(vec![fact("first", &[]), tree, fact("last", &[])]);
            }
            1 => {
                text = format!("(or {} (other))", text);
                tree = StringExpression::Or(vec![tree, fact("other", &[])]);
            }
            _ => {
                text = format!("(not {})", text);
                tree = StringExpression::Not(Box::new(tree));
            }
        }
        let parsed = parse_expression(&text);
        assert_eq!(parsed, Ok(("".as_bytes(), tree)));
        let (_, back) = parsed.unwrap();
        assert_eq!(depth(&back), level + 1);
        tree = back;
    }
}

#[test]
fn whitespace_around_parentheses_is_skipped() {
    assert_eq!(
        parse_expression(" \t(\n and ( p  ?a )\r\n( q ) ) rest"),
        Ok((
            "rest".as_bytes(),
            StringExpression::And(vec![fact("p", &["?a"]), fact("q", &[])])
        ))
    );
}

#[test]
fn precondition_operators_need_a_child() {
    assert!(parse_precondition("(and)").is_err());
    assert!(parse_precondition("(or)").is_err());
    assert!(parse_precondition("(=)").is_err());
    assert!(parse_precondition("(not)").is_err());
    assert_eq!(
        parse_precondition("(and)"),
        Err((
            "unexpected token".to_string(),
            Span { start: 4, end: 5 }
        ))
    );
}

#[test]
fn precondition_drops_only_the_sigil() {
    assert_eq!(
        parse_precondition("(at ?x home ?)"),
        Ok((
            "".as_bytes(),
            Precondition::Predicate(term("at", &["x", "home", ""]))
        ))
    );
}

#[test]
fn a_byte_that_starts_nothing_is_reported_whole() {
    assert_eq!(
        parse_expression("(\u{e9}t\u{e9})"),
        Err((
            "unexpected token".to_string(),
            Span { start: 1, end: 3 }
        ))
    );
}

#[test]
fn a_copied_expression_equals_what_it_was_made_of() {
    let (_, parsed) = parse_expression(
        "(imply (and (p ?x) (or (q) (not (= ?x ?y)))) (not (and)))",
    )
    .unwrap();
    assert_eq!(parsed.clone(), parsed);
}

#[test]
fn the_sigil_only_starts_a_name() {
    assert_eq!(
        parse_expression("(p ?x?y a?)"),
        Ok(("".as_bytes(), fact("p", &["?x", "?y", "a", "?"])))
    );
    assert_eq!(
        parse_expression("(p x-1 y_2 -z)"),
        Err((
            "unexpected token".to_string(),
            Span { start: 11, end: 12 }
        ))
    );
    assert!(parse_expression("(1p)").is_err());
}

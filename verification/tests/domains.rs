use spingus::domain::action::string_expression::StringExpression;
use spingus::domain::parameter::Parameter;
use spingus::domain::{parse, parse_domain, Action, Domain};
use spingus::shared::Span;
use spingus::term::Term;

fn term(name: &str, parameters: &[&str]) -> Term {
    Term {
        name: name.to_string(),
        parameters: parameters.iter().map(|p| p.to_string()).collect(),
    }
}

fn fact(name: &str, parameters: &[&str]) -> StringExpression {
    StringExpression::Predicate(term(name, parameters))
}

fn typed(name: &str, typename: &str) -> Parameter {
    Parameter::Typed {
        name: name.to_string(),
        typename: typename.to_string(),
    }
}

fn untyped(name: &str) -> Parameter {
    Parameter::Untyped {
        name: name.to_string(),
    }
}

fn failure(message: &str, start: usize, end: usize) -> Result<Domain, (String, Span)> {
    Err((message.to_string(), Span { start, end }))
}

#[test]
fn a_whole_domain() {
    let input = "; blocks\n\
        (define (domain Blocks)\n\
          (:requirements :strips :typing)\n\
          (:types block table - object ; comment (\n\
                  crane)\n\
          (:constants the-table - table)\n\
          (:predicates (on ?x - block ?y - (either block table)) (clear ?x) (idle))\n\
          (:action move\n\
             :parameters (?b - block ?from ?to - (either block table))\n\
             :precondition (and (on ?b ?from) (clear ?b) (not (= ?from ?to)))\n\
             :effect (and (on ?b ?to) (not (on ?b ?from))))\n\
          (:action wait :parameters ())\n\
          (:Action signal :Parameters (?c) :Effect (idle))\n\
        )";
    let either = |name: &str| Parameter::Either {
        name: name.to_string(),
        type_names: vec!["block".to_string(), "table".to_string()],
    };
    assert_eq!(
        parse_domain(input),
        Ok(Domain {
            name: "Blocks".to_string(),
            requirements: vec![":strips".to_string(), ":typing".to_string()],
            types: vec![
                typed("block", "object"),
                typed("table", "object"),
                untyped("crane")
            ],
            constants: vec![typed("the-table", "table")],
            predicates: vec![
                term("on", &["?x", "?y"]),
                term("clear", &["?x"]),
                term("idle", &[])
            ],
            actions: vec![
                Action {
                    name: "move".to_string(),
                    parameters: vec![typed("?b", "block"), either("?from"), either("?to")],
                    precondition: Some(StringExpression::And(vec![
                        fact("on", &["?b", "?from"]),
                        fact("clear", &["?b"]),
                        StringExpression::Not(Box::new(StringExpression::Equal(vec![
                            "?from".to_string(),
                            "?to".to_string()
                        ]))),
                    ])),
                    effect: Some(StringExpression::And(vec![
                        fact("on", &["?b", "?to"]),
                        StringExpression::Not(Box::new(fact("on", &["?b", "?from"]))),
                    ])),
                },
                Action {
                    name: "wait".to_string(),
                    parameters: vec![],
                    precondition: None,
                    effect: None,
                },
                Action {
                    name: "signal".to_string(),
                    parameters: vec![untyped("?c")],
                    precondition: None,
                    effect: Some(fact("idle", &[])),
                },
            ],
        })
    );
}

#[test]
fn a_domain_needs_only_its_name() {
    assert_eq!(
        parse_domain("(define (domain d))"),
        Ok(Domain {
            name: "d".to_string(),
            requirements: vec![],
            types: vec![],
            constants: vec![],
            predicates: vec![],
            actions: vec![],
        })
    );
}

#[test]
fn a_later_section_replaces_an_earlier_one() {
    let parsed = parse_domain("(define (domain d) (:types a) (:types b c))").unwrap();
    assert_eq!(parsed.types, vec![untyped("b"), untyped("c")]);
}

#[test]
fn the_domain_head_is_fixed() {
    assert_eq!(parse_domain(""), failure("unexpected end of input", 0, 0));
    assert_eq!(parse_domain("define"), failure("unexpected token", 0, 1));
    assert_eq!(
        parse_domain("(defined (domain d))"),
        failure("unexpected token", 1, 2)
    );
    assert_eq!(
        parse_domain("(define (problem d))"),
        failure("unexpected token", 9, 10)
    );
    assert_eq!(
        parse_domain("(define (domain))"),
        failure("unexpected token", 15, 16)
    );
    assert_eq!(
        parse_domain("(define (domain d e))"),
        failure("unexpected token", 18, 19)
    );
}

#[test]
fn an_unknown_domain_section_is_refused() {
    assert_eq!(
        parse_domain("(define (domain d) (:functions (f)))"),
        failure("unknown section tag", 20, 21)
    );
    assert_eq!(
        parse_domain("(define (domain d) (types a))"),
        failure("unknown section tag", 20, 21)
    );
    assert_eq!(
        parse_domain("(define (domain d) ("),
        failure("unexpected end of input", 20, 20)
    );
}

#[test]
fn an_unterminated_domain_fails_at_the_end() {
    assert_eq!(
        parse_domain("(define (domain d)"),
        failure("unexpected end of input", 18, 18)
    );
    assert_eq!(
        parse_domain("(define (domain d) (:types a b"),
        failure("unexpected end of input", 30, 30)
    );
    assert_eq!(
        parse_domain("(define (domain d) (:action a :parameters (?x) :effect (p ?x"),
        failure("unexpected end of input", 60, 60)
    );
}

#[test]
fn an_action_needs_its_parameters() {
    assert_eq!(
        parse_domain("(define (domain d) (:action a :effect (p)))"),
        failure("unexpected token", 30, 31)
    );
    assert_eq!(
        parse_domain("(define (domain d) (:action :parameters ()))"),
        failure("unexpected token", 28, 29)
    );
    assert_eq!(
        parse_domain("(define (domain d) (:action a :parameters () :effect (p) :precondition (q)))"),
        failure("unexpected token", 57, 58)
    );
}

#[test]
fn a_separator_without_its_type_is_errant() {
    assert_eq!(
        parse_domain("(define (domain d) (:constants a - ))"),
        failure("errant type separator", 33, 34)
    );
    assert_eq!(
        parse_domain("(define (domain d) (:types a b -))"),
        failure("errant type separator", 31, 32)
    );
    assert_eq!(
        parse_domain("(define (domain d) (:predicates (p ?x - )))"),
        failure("errant type separator", 38, 39)
    );
    assert_eq!(
        parse_domain("(define (domain d) (:action a :parameters (?x - (either))))"),
        failure("errant type separator", 46, 47)
    );
}

#[test]
fn a_known_domain_is_parsed_without_a_result() {
    let found = parse("(define (domain d) (:predicates (p ?x - t)))");
    assert_eq!(found.name, "d");
    assert_eq!(found.predicates, vec![term("p", &["?x"])]);
    assert_eq!(
        spingus::sas_plan::parse("(a b)"),
        vec![term("a", &["b"])]
    );
}

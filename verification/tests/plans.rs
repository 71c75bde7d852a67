use spingus::plan::{parse, try_parse};
use spingus::sas_plan::{export_sas, parse_sas};
use spingus::shared::Span;
use spingus::term::Term;

fn step(name: &str, arguments: &[&str]) -> (String, Vec<String>) {
    (
        name.to_string(),
        arguments.iter().map(|a| a.to_string()).collect(),
    )
}

fn term(name: &str, parameters: &[&str]) -> Term {
    Term {
        name: name.to_string(),
        parameters: parameters.iter().map(|p| p.to_string()).collect(),
    }
}

#[test]
fn plan_parse() {
    assert_eq!(parse("(a)"), vec![step("a", &[])]);
    assert_eq!(parse("(a b c)"), vec![step("a", &["b", "c"])]);
    assert_eq!(parse("(a)(b)"), vec![step("a", &[]), step("b", &[])]);
    assert_eq!(parse("(a)\n(b)"), vec![step("a", &[]), step("b", &[])]);
    assert_eq!(
        parse("(a b)(c d)"),
        vec![step("a", &["b"]), step("c", &["d"])]
    );
}

#[test]
fn plan_with_three_arguments() {
    assert_eq!(
        try_parse("(p1 o1 o2 o3)"),
        Ok(vec![step("p1", &["o1", "o2", "o3"])])
    );
}

#[test]
fn plan_skips_comments_and_blank_lines() {
    assert_eq!(
        try_parse("; header\n(move a b) ; first\n\n\x0c(stop)\n; cost = 2 (unit cost)"),
        Ok(vec![step("move", &["a", "b"]), step("stop", &[])])
    );
    assert_eq!(try_parse(""), Ok(vec![]));
    assert_eq!(try_parse(" \n ; nothing"), Ok(vec![]));
}

#[test]
fn plan_refuses_what_is_no_step() {
    assert_eq!(
        try_parse("a"),
        Err((
            "unexpected token".to_string(),
            Span { start: 0, end: 1 }
        ))
    );
    assert_eq!(
        try_parse("(a) )"),
        Err((
            "unexpected token".to_string(),
            Span { start: 4, end: 5 }
        ))
    );
    assert_eq!(
        try_parse("(a (b))"),
        Err((
            "unexpected token".to_string(),
            Span { start: 3, end: 4 }
        ))
    );
    assert_eq!(
        try_parse("(and b)"),
        Err((
            "unexpected token".to_string(),
            Span { start: 1, end: 4 }
        ))
    );
    assert_eq!(
        try_parse("()"),
        Err((
            "unexpected token".to_string(),
            Span { start: 1, end: 2 }
        ))
    );
}

#[test]
fn plan_reports_a_malformed_run() {
    assert_eq!(
        try_parse("(a $b)"),
        Err((
            "unexpected token".to_string(),
            Span { start: 3, end: 4 }
        ))
    );
    assert_eq!(
        try_parse("(a \u{20ac})"),
        Err((
            "unexpected token".to_string(),
            Span { start: 3, end: 6 }
        ))
    );
}

#[test]
fn unterminated_step_fails_at_the_end() {
    assert_eq!(
        try_parse("(predicate"),
        Err((
            "unexpected end of input".to_string(),
            Span { start: 10, end: 10 }
        ))
    );
    assert_eq!(
        try_parse("(a b) (c  "),
        Err((
            "unexpected end of input".to_string(),
            Span { start: 10, end: 10 }
        ))
    );
    assert_eq!(
        try_parse("("),
        Err((
            "unexpected end of input".to_string(),
            Span { start: 1, end: 1 }
        ))
    );
}

#[test]
fn parse_empty() {
    assert_eq!(Ok(vec![]), parse_sas(""));
}

#[test]
fn parse_comment() {
    assert_eq!(Ok(vec![]), parse_sas("; noise"));
}

#[test]
fn parse_single() {
    assert_eq!(
        Ok(vec![Term {
            name: "NAME".to_string(),
            parameters: vec!["PARAM".to_string()]
        }]),
        parse_sas("(NAME PARAM)")
    );
}

#[test]
fn parse_multiple() {
    assert_eq!(
        Ok(vec![
            Term {
                name: "NAME1".to_string(),
                parameters: vec!["PARAM1".to_string()]
            },
            Term {
                name: "NAME2".to_string(),
                parameters: vec!["PARAM2".to_string(), "PARAM3".to_string()]
            }
        ]),
        parse_sas("(NAME1 PARAM1)\n(NAME2 PARAM2 PARAM3)")
    );
}

#[test]
fn sas_comments_may_stand_anywhere() {
    assert_eq!(
        parse_sas("; plan\n(pick-up b1) ; lift\n(stack b1 b2)\n; cost = 2 (unit cost)\n"),
        Ok(vec![
            term("pick-up", &["b1"]),
            term("stack", &["b1", "b2"])
        ])
    );
    assert_eq!(
        parse_sas("(a ;(b)\n c)"),
        Ok(vec![term("a", &["c"])])
    );
}

#[test]
fn sas_spans_point_into_the_input_as_given() {
    assert_eq!(
        parse_sas("; twelve bytes\n(a) x"),
        Err((
            "unexpected token".to_string(),
            Span { start: 19, end: 20 }
        ))
    );
    assert_eq!(
        parse_sas("(a b"),
        Err((
            "unexpected end of input".to_string(),
            Span { start: 4, end: 4 }
        ))
    );
    assert_eq!(
        parse_sas("( )"),
        Err((
            "unexpected token".to_string(),
            Span { start: 2, end: 3 }
        ))
    );
}

#[test]
fn export_writes_one_step_per_line() {
    assert_eq!(export_sas(&vec![]), "");
    assert_eq!(export_sas(&vec![term("a", &[])]), "(a)\n");
    assert_eq!(
        export_sas(&vec![term("Pick-Up", &["B1"]), term("stack", &["b1", "b2"])]),
        "(Pick-Up B1)\n(stack b1 b2)\n"
    );
}

#[test]
fn export_then_parse_gives_the_plan_back() {
    let plans = vec![
        vec![],
        vec![term("a", &[])],
        vec![term("move", &["?x", "loc-1", "LOC_2"]), term("Stop", &[])],
        vec![
            term("a1", &["b", "c", "d"]),
            term("a2", &[]),
            term("a3", &["e"]),
        ],
    ];
    for plan in plans {
        assert_eq!(parse_sas(&export_sas(&plan)), Ok(plan));
    }
}

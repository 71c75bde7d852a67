use spingus::diagnostics::{excerpt, render, Excerpt};
use spingus::problem::goal::Goal;
use spingus::problem::init::Fact;
use spingus::problem::objects::Object;
use spingus::problem::{parse, try_parse, Problem};
use spingus::shared::{line_num, Span};

fn object(name: &str, typename: Option<&str>) -> Object {
    Object {
        name: name.to_string(),
        typename: typename.map(|t| t.to_string()),
    }
}

fn fact(predicate: &str, objects: &[&str]) -> Fact {
    Fact {
        predicate: predicate.to_string(),
        objects: objects.iter().map(|o| o.to_string()).collect(),
    }
}

fn goal(predicate: &str, objects: &[&str]) -> Goal {
    Goal::Fact {
        predicate: predicate.to_string(),
        objects: objects.iter().map(|o| o.to_string()).collect(),
    }
}

fn failure(message: &str, start: usize, end: usize) -> Result<Problem, (String, Span)> {
    Err((message.to_string(), Span { start, end }))
}

#[test]
fn problem_with_three_sections() {
    let input = "(define (problem prob)
                   (:objects o1)
                   (:init (p o1))
                   (:goal (not (p o3)))
              )";
    let problem = parse(input);
    assert_eq!(problem.name, Some("prob".to_string()));
    assert_eq!(problem.domain, None);
    assert_eq!(problem.objects, Some(vec![object("o1", None)]));
    assert_eq!(problem.init, Some(vec![fact("p", &["o1"])]));
    assert_eq!(
        problem.goal,
        Some(Goal::Not(Box::new(goal("p", &["o3"]))))
    );
}

#[test]
fn absent_sections_differ_from_empty_ones() {
    assert_eq!(
        try_parse("(define)"),
        Ok(Problem {
            name: None,
            domain: None,
            objects: None,
            init: None,
            goal: None
        })
    );
    assert_eq!(
        try_parse("(define (:objects) (:init))"),
        Ok(Problem {
            name: None,
            domain: None,
            objects: Some(vec![]),
            init: Some(vec![]),
            goal: None
        })
    );
}

#[test]
fn sections_come_in_any_order_and_the_last_one_counts() {
    let parsed = try_parse(
        "; a problem\n(DEFINE (:goal (AND (on a b) (Or (clear a) (NOT (clear b)))))\n\
         (:INIT (on a b) (clear a)) (:Domain blocks) (problem first) (PROBLEM second)\n\
         (:objects a b - block t - table loose))",
    )
    .unwrap();
    assert_eq!(parsed.name, Some("second".to_string()));
    assert_eq!(parsed.domain, Some("blocks".to_string()));
    assert_eq!(
        parsed.objects,
        Some(vec![
            object("a", Some("block")),
            object("b", Some("block")),
            object("t", Some("table")),
            object("loose", None),
        ])
    );
    assert_eq!(
        parsed.init,
        Some(vec![fact("on", &["a", "b"]), fact("clear", &["a"])])
    );
    assert_eq!(
        parsed.goal,
        Some(Goal::And(vec![
            goal("on", &["a", "b"]),
            Goal::Or(vec![
                goal("clear", &["a"]),
                Goal::Not(Box::new(goal("clear", &["b"]))),
            ]),
        ]))
    );
}

#[test]
fn not_inside_and_keeps_the_later_children() {
    let parsed = try_parse("(define (:goal (and (not (a)) (b))))").unwrap();
    assert_eq!(
        parsed.goal,
        Some(Goal::And(vec![
            Goal::Not(Box::new(goal("a", &[]))),
            goal("b", &[]),
        ]))
    );
}

#[test]
fn goal_rows_may_be_empty() {
    assert_eq!(
        try_parse("(define (:goal (and)))").unwrap().goal,
        Some(Goal::And(vec![]))
    );
    assert_eq!(
        try_parse("(define (:goal (or)))").unwrap().goal,
        Some(Goal::Or(vec![]))
    );
}

#[test]
fn what_follows_the_definition_is_not_read() {
    assert_eq!(
        try_parse("(define (problem p)) (garbage").unwrap().name,
        Some("p".to_string())
    );
}

#[test]
fn errant_type_separator() {
    assert_eq!(
        try_parse("(define (:objects a b -))"),
        failure("errant type separator", 23, 24)
    );
    assert_eq!(
        try_parse("(define (:objects a - - t))").unwrap().objects,
        Some(vec![object("a", Some("t"))])
    );
}

#[test]
fn objects_name_the_token_they_refuse() {
    assert_eq!(
        try_parse("(define (:objects a (b)))"),
        failure("unexpected token '('", 20, 21)
    );
    assert_eq!(
        try_parse("(define (:objects a and))"),
        failure("unexpected token 'AND'", 20, 23)
    );
    assert_eq!(
        try_parse("(define (:objects a :init))"),
        failure("unexpected token 'INIT_LIST'", 20, 25)
    );
    assert_eq!(
        try_parse("(define (:objects a #))"),
        failure("error", 20, 21)
    );
}

#[test]
fn the_head_must_open_a_definition() {
    assert_eq!(try_parse(""), failure("missing opening parenthesis", 0, 0));
    assert_eq!(
        try_parse("define"),
        failure("missing opening parenthesis", 0, 6)
    );
    assert_eq!(try_parse("("), failure("missing opening define", 1, 1));
    assert_eq!(
        try_parse("(problem p)"),
        failure("missing opening define", 1, 8)
    );
}

#[test]
fn a_section_must_open_with_a_parenthesis() {
    assert_eq!(
        try_parse("(define problem)"),
        failure("expected opening parenthesis, found 'PROBLEM_NAME'", 8, 15)
    );
    assert_eq!(
        try_parse("(define stray)"),
        failure("expected opening parenthesis, found 'stray'", 8, 13)
    );
    assert_eq!(
        try_parse("(define -)"),
        failure("expected opening parenthesis, found 'TYPE_SEPARATOR'", 8, 9)
    );
    assert_eq!(
        try_parse("(define %)"),
        failure("expected opening parenthesis", 8, 9)
    );
    assert_eq!(
        try_parse("(define ("),
        failure("unexpected end of input", 9, 9)
    );
}

#[test]
fn an_unknown_section_is_refused() {
    assert_eq!(
        try_parse("(define (:metric minimize))"),
        failure("unexpected token", 9, 16)
    );
    assert_eq!(
        try_parse("(define (objects a))"),
        failure("unexpected token", 9, 16)
    );
    assert_eq!(
        try_parse("(define (:domains d))"),
        failure("unexpected token", 9, 17)
    );
}

#[test]
fn an_unterminated_problem_fails_at_the_end() {
    assert_eq!(
        try_parse("(define (problem p)"),
        failure("unexpected end of input", 19, 19)
    );
    assert_eq!(
        try_parse("(define (:init (p a"),
        failure("unexpected end of input", 19, 19)
    );
    assert_eq!(
        try_parse("(define (:objects a b"),
        failure("unexpected end of input", 21, 21)
    );
    assert_eq!(
        try_parse("(define (:goal (and (p)"),
        failure("unexpected end of input", 23, 23)
    );
    assert_eq!(
        try_parse("(define (problem"),
        failure("unexpected end of input", 16, 16)
    );
}

#[test]
fn init_holds_flat_facts_only() {
    assert_eq!(
        try_parse("(define (:init (p (q))))"),
        failure("unexpected token", 18, 19)
    );
    assert_eq!(
        try_parse("(define (:init p))"),
        failure("unexpected token", 15, 16)
    );
    assert_eq!(
        try_parse("(define (:init (not (p))))"),
        failure("unexpected token", 16, 19)
    );
}

#[test]
fn the_goal_is_one_expression() {
    assert_eq!(
        try_parse("(define (:goal (p) (q)))"),
        failure("unexpected token", 19, 20)
    );
    assert_eq!(
        try_parse("(define (:goal p))"),
        failure("unexpected token", 15, 16)
    );
    assert_eq!(
        try_parse("(define (:goal (not p)))"),
        failure("unexpected token", 20, 21)
    );
    assert_eq!(
        try_parse("(define (:goal (and p)))"),
        failure("unexpected token", 20, 21)
    );
    assert_eq!(
        try_parse("(define (:goal ()))"),
        failure("unexpected token", 16, 17)
    );
}

#[test]
fn line_numbers_count_from_one() {
    assert_eq!(line_num("", 0), 1);
    assert_eq!(line_num("abc", 2), 1);
    assert_eq!(line_num("a\nb\nc", 1), 1);
    assert_eq!(line_num("a\nb\nc", 2), 2);
    assert_eq!(line_num("a\nb\nc", 4), 3);
    assert_eq!(line_num("a\nb\nc", 99), 3);
    assert_eq!(line_num("\n\n\n", 3), 4);
}

#[test]
fn a_failure_is_rendered_with_its_message() {
    let input = "(define (problem p)\n  (:objects a b -)\n)";
    let failure = try_parse(input).unwrap_err();
    assert_eq!(failure.0, "errant type separator");
    let shown = render(input, &failure);
    assert!(shown.contains("errant type separator"));
    assert!(shown.contains("(:objects a b -)"));
    assert!(shown.contains('^'));
}

#[test]
fn excerpts_count_characters_not_bytes() {
    assert_eq!(
        excerpt("ab\ncd", Span { start: 3, end: 5 }),
        Excerpt { line_start: 2, start: 3, end: 5 }
    );
    assert_eq!(
        excerpt("\u{e9}\u{e9}\nx", Span { start: 5, end: 6 }),
        Excerpt { line_start: 2, start: 3, end: 4 }
    );
    assert_eq!(
        excerpt("abc", Span { start: 7, end: 2 }),
        Excerpt { line_start: 1, start: 3, end: 3 }
    );
    assert_eq!(
        excerpt("", Span { start: 0, end: 0 }),
        Excerpt { line_start: 1, start: 0, end: 0 }
    );
}

#[test]
fn rendering_survives_any_span() {
    let input = "\u{20ac}(a\n\n(b) \u{e9}";
    for start in 0..input.len() + 3 {
        for end in 0..input.len() + 3 {
            let failure = ("unexpected token".to_string(), Span { start, end });
            assert!(render(input, &failure).contains("unexpected token"));
        }
    }
    let nothing = ("unexpected end of input".to_string(), Span { start: 0, end: 0 });
    assert!(render("", &nothing).len() < 1000);
}

#[test]
fn a_copy_equals_what_it_was_made_of() {
    let parsed = try_parse(
        "(define (problem p) (:domain d) (:objects a b - t c) (:init (on a b) (clear))\n\
         (:goal (and (on b a) (or (not (clear)) (free a b c)))))",
    )
    .unwrap();
    let copied = parsed.clone();
    assert_eq!(copied, parsed);
    assert_eq!(copied.goal.clone(), parsed.goal);
}

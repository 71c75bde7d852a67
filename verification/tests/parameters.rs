use spingus::domain::constants::parse_constants;
use spingus::domain::parameter::{parameters_to_string, parse_parameters, Parameter};
use spingus::shared::Span;

#[test]
fn parameter_test() {
    assert_eq!(
        Ok((
            "".as_bytes(),
            vec![Parameter::Untyped {
                name: "?p".to_string()
            }]
        )),
        parse_parameters("?p")
    );
    assert_eq!(
        Ok((
            "".as_bytes(),
            vec![
                Parameter::Untyped {
                    name: "?p1".to_string()
                },
                Parameter::Untyped {
                    name: "?p2".to_string()
                }
            ]
        )),
        parse_parameters("?p1 ?p2")
    );
    assert_eq!(
        Ok((
            "".as_bytes(),
            vec![Parameter::Typed {
                name: "?p".to_string(),
                typename: "type".to_string()
            }]
        )),
        parse_parameters("?p - type")
    );
    assert_eq!(
        Ok((
            "".as_bytes(),
            vec![
                Parameter::Typed {
                    name: "?p1".to_string(),
                    typename: "type".to_string()
                },
                Parameter::Typed {
                    name: "?p2".to_string(),
                    typename: "type".to_string()
                }
            ]
        )),
        parse_parameters("?p1 ?p2 - type")
    );
    assert_eq!(
        Ok((
            "".as_bytes(),
            vec![
                Parameter::Typed {
                    name: "?p1".to_string(),
                    typename: "type".to_string()
                },
                Parameter::Typed {
                    name: "?p2".to_string(),
                    typename: "type".to_string()
                }
            ]
        )),
        parse_parameters("?p1 - type ?p2 - type")
    );
    assert_eq!(
        Ok((
            "".as_bytes(),
            vec![
                Parameter::Typed {
                    name: "?p1".to_string(),
                    typename: "type1".to_string()
                },
                Parameter::Typed {
                    name: "?p2".to_string(),
                    typename: "type2".to_string()
                }
            ]
        )),
        parse_parameters("?p1 - type1 ?p2 - type2")
    );
    assert_eq!(
        Ok((
            "".as_bytes(),
            vec![
                Parameter::Typed {
                    name: "?p1".to_string(),
                    typename: "type".to_string()
                },
                Parameter::Untyped {
                    name: "?p2".to_string(),
                }
            ]
        )),
        parse_parameters("?p1 - type ?p2")
    );
    assert_eq!(
        Ok((
            "".as_bytes(),
            vec![Parameter::Either {
                name: "?p1".to_string(),
                type_names: vec!["type_a".to_string(), "type_b".to_string()]
            }]
        )),
        parse_parameters("?p1 - (either type_a type_b)")
    );
}

#[test]
fn parse_typed() {
    assert_eq!(
        Ok((
            "".as_bytes(),
            vec![Parameter::Typed {
                name: "kitchen".to_string(),
                typename: "place".to_string()
            }]
        )),
        parse_constants(":constants kitchen - place")
    );
}

#[test]
fn constants_need_their_tag() {
    assert_eq!(
        parse_constants("kitchen - place"),
        Err((
            "unexpected token".to_string(),
            Span { start: 0, end: 1 }
        ))
    );
    assert_eq!(
        parse_constants("  "),
        Err((
            "unexpected end of input".to_string(),
            Span { start: 2, end: 2 }
        ))
    );
    assert_eq!(
        parse_constants(":CONSTANTS a b"),
        Ok((
            "".as_bytes(),
            vec![
                Parameter::Untyped {
                    name: "a".to_string()
                },
                Parameter::Untyped {
                    name: "b".to_string()
                }
            ]
        ))
    );
}

#[test]
fn every_name_of_a_group_gets_the_whole_typing() {
    let parsed = parse_parameters("?a ?b ?c - (either t1 t2 t3) ?d").unwrap();
    assert_eq!(parsed.0, "".as_bytes());
    assert_eq!(parsed.1.len(), 4);
    for (i, name) in ["?a", "?b", "?c"].iter().enumerate() {
        assert_eq!(
            parsed.1[i],
            Parameter::Either {
                name: name.to_string(),
                type_names: vec!["t1".to_string(), "t2".to_string(), "t3".to_string()]
            }
        );
    }
    assert_eq!(
        parsed.1[3],
        Parameter::Untyped {
            name: "?d".to_string()
        }
    );
}

#[test]
fn parameters_stop_where_no_group_starts() {
    assert_eq!(parse_parameters(""), Ok(("".as_bytes(), vec![])));
    assert_eq!(parse_parameters(") rest"), Ok((") rest".as_bytes(), vec![])));
    assert_eq!(
        parse_parameters("?a ?b) rest"),
        Ok((
            ") rest".as_bytes(),
            vec![
                Parameter::Untyped {
                    name: "?a".to_string()
                },
                Parameter::Untyped {
                    name: "?b".to_string()
                }
            ]
        ))
    );
}

#[test]
fn a_separator_without_a_type_is_left_unread() {
    assert_eq!(
        parse_parameters("?a - )"),
        Ok((
            "- )".as_bytes(),
            vec![Parameter::Untyped {
                name: "?a".to_string()
            }]
        ))
    );
    assert_eq!(
        parse_parameters("?a - (either)"),
        Ok((
            "- (either)".as_bytes(),
            vec![Parameter::Untyped {
                name: "?a".to_string()
            }]
        ))
    );
}

#[test]
fn parameters_are_written_in_order() {
    assert_eq!(parameters_to_string(&vec![]), " ");
    let row = vec![
        Parameter::Untyped {
            name: "?a".to_string(),
        },
        Parameter::Typed {
            name: "?b".to_string(),
            typename: "block".to_string(),
        },
        Parameter::Either {
            name: "?c".to_string(),
            type_names: vec!["t1".to_string(), "t2".to_string()],
        },
    ];
    assert_eq!(
        parameters_to_string(&row),
        " ?a ?b - block ?c - (either (either t1 t2)) "
    );
}

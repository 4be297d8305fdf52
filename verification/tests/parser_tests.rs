use kleenexp::ast::Ast;
use kleenexp::parse::{ws, Op};

fn parse(pattern: &str) -> Ast {
    match kleenexp::parse::parse(pattern) {
        Ok(ast) => ast,
        Err(x) => panic!("{:#?}", x),
    }
}

fn s(text: &str) -> String {
    text.to_string()
}

#[test]
fn parser() {
    parse("");
    parse("hello");
    parse("Hi!@#$%^&'' \" \\ \n stuff");
    parse("[ ]");
    parse("[]");
    parse("[][]");
    parse("a[]b[]c");
    parse("[[][]][[[][[[][]]]][][]]");
    parse("[[][]]#a[[[#a][[[][]]#a#a]#a][][#a#a#a]]");
    parse("[#hello  #world]");
    parse("[#hi!$%#whatsup]");
    parse("[1+ #hello]");
    parse("[  1+  #hello  ]");
    parse("[1+#hello]");
    parse("[c:hi 1+#hello]");
    parse("[#hello | #world]");
    parse("[[] | []]");
    parse("[#hello #world | [2+ #hi]]");
    parse("[  #hello  #world  |  [  2+  #hi  ]  ]");
    parse("[#hello#world|[2+#hi]]");
    parse("['hello world']");
    parse("['hello' \"world\"]");
    parse("[#hello 'world' | [2+ '#hi']]");
    parse("[#1..9 'world' | [2+ '#hi']]");
}

#[test]
fn braces_must_be_balanced() {
    assert_eq!(kleenexp::parse::parse("[").ok(), None);
    assert_eq!(kleenexp::parse::parse("]").ok(), None);
    assert_eq!(kleenexp::parse::parse("[][[]").ok(), None);
}

#[test]
#[should_panic]
fn either_and_ops_dont_mix() {
    parse("[2+ #a | #b]");
}

#[test]
fn parser_result_macro() {
    assert_eq!(Ast::Macro(s("hello")), parse("[#hello]"));
    assert_eq!(
        Ast::Concat(vec![Ast::Macro(s("hello")), Ast::Macro(s("hi"))]),
        parse("[#hello #hi]")
    );
    assert_eq!(
        Ast::Concat(vec![Ast::Macro(s("hello")), Ast::Macro(s("hi"))]),
        parse("[#hello#hi]")
    );
    assert_eq!(
        Ast::Concat(vec![Ast::Macro(s("hi!@$")), Ast::Macro(s("hi"))]),
        parse("[#hi!@$#hi]")
    );
}

#[test]
fn parser_result_range() {
    assert_eq!(
        Ast::Range {
            start: 'a',
            end: 'f'
        },
        parse("[#a..f]")
    );
    assert_eq!(
        Ast::Range {
            start: '0',
            end: '9'
        },
        parse("[#0..9]")
    );
}

#[test]
fn parser_result_literals() {
    assert_eq!(Ast::Literal(s("hi")), parse("['hi']"));
    assert_eq!(
        Ast::Concat(vec![Ast::Literal(s("hi")), Ast::Macro(s("hi"))]),
        parse("[\"hi\" #hi]")
    );
    assert_eq!(
        Ast::Concat(vec![
            Ast::Literal(s("hi [man]")),
            Ast::Concat(vec![Ast::Literal(s("hoho")), Ast::Literal(s("heehee"))])
        ]),
        parse("['hi [man]' ['hoho' 'heehee']]")
    );
    assert_eq!(
        Ast::Concat(vec![
            Ast::Literal(s("hi ")),
            Ast::Literal(s("[")),
            Ast::Literal(s(" man ")),
            Ast::Literal(s("]")),
        ]),
        parse("hi ['['] man [']']")
    );
}

#[test]
fn parser_result_operator() {
    assert_eq!(
        Ast::Multiple {
            from: 2,
            to: None,
            subexpr: Box::new(Ast::Macro(s("hello")))
        },
        parse("[2+ #hello]")
    );
    assert_eq!(
        Ast::Operator {
            op: s("capture"),
            name: s("hi"),
            subexpr: Box::new(Ast::Macro(s("hello")))
        },
        parse("[capture:hi #hello]")
    );
}

#[test]
fn parser_result_operators() {
    assert_eq!(
        Ast::Operator {
            op: s("capture"),
            name: s("hi"),
            subexpr: Box::new(Ast::Multiple {
                from: 2,
                to: None,
                subexpr: Box::new(Ast::Macro(s("hello")))
            })
        },
        parse("[capture:hi 2+ #hello]")
    );
    assert_eq!(
        Ast::Operator {
            op: s("capture"),
            name: s("hi"),
            subexpr: Box::new(Ast::Multiple {
                from: 2,
                to: None,
                subexpr: Box::new(Ast::Operator {
                    op: s("op1"),
                    name: s(""),
                    subexpr: Box::new(Ast::Operator {
                        op: s("op2"),
                        name: s(""),
                        subexpr: Box::new(Ast::Operator {
                            op: s("op3"),
                            name: s("yo"),
                            subexpr: Box::new(Ast::Concat(vec![
                                Ast::Macro(s("hello")),
                                Ast::Macro(s("world"))
                            ]))
                        })
                    })
                })
            })
        },
        parse("[capture:hi 2+ op1 op2 op3:yo #hello #world]")
    );
}

#[test]
fn parser_result_either() {
    assert_eq!(
        Ast::Either(vec![Ast::Macro(s("hello")), Ast::Macro(s("world"))]),
        parse("[#hello | #world]")
    );
    assert_eq!(
        Ast::Either(vec![
            Ast::Concat(vec![Ast::Macro(s("hello")), Ast::Macro(s("world"))]),
            Ast::Macro(s("hi"))
        ]),
        parse("[#hello #world | [#hi]]")
    );
}

#[test]
fn parser_result_def() {
    assert_eq!(
        Ast::DefMacro(s("m"), Box::new(Ast::Macro(s("l")))),
        parse("[#m=[#l]]")
    );
    assert_eq!(
        Ast::Concat(vec![
            Ast::Macro(s("l")),
            Ast::DefMacro(s("m"), Box::new(Ast::Macro(s("lll")))),
            Ast::DefMacro(
                s("n"),
                Box::new(Ast::Multiple {
                    from: 1,
                    to: Some(3),
                    subexpr: Box::new(Ast::Literal(s("hi")))
                })
            )
        ]),
        parse("[#l #m=[#lll] #n=[1-3 'hi']]")
    );
}

#[test]
fn either() {
    assert_eq!(
        Ast::Either(vec![Ast::Macro(s("hello")), Ast::Macro(s("world"))]),
        kleenexp::parse::either("#hello|#world").unwrap().1
    );
    assert_eq!(
        Ast::Either(vec![Ast::Macro(s("hello")), Ast::Macro(s("world"))]),
        kleenexp::parse::either("#hello | #world").unwrap().1
    );
}

#[test]
fn matches() {
    assert_eq!(
        Ast::Concat(vec![]),
        kleenexp::parse::matches("[]").unwrap().1
    );
    assert_eq!(
        Ast::Concat(vec![Ast::Macro(s("hello")), Ast::Macro(s("world"))]),
        kleenexp::parse::matches("[#hello #world]").unwrap().1
    );
    println!("######");
    assert_eq!(
        Ast::Either(vec![Ast::Macro(s("hello")), Ast::Macro(s("world"))]),
        kleenexp::parse::matches("[#hello|#world]").unwrap().1
    );
}

#[test]
fn ops() {
    assert_eq!(
        vec![Op::Op {
            op: s("capture"),
            name: s("")
        }],
        kleenexp::parse::ops("capture").unwrap().1
    );
    assert_eq!(
        vec![Op::Op {
            op: s("capture"),
            name: s("hi")
        }],
        kleenexp::parse::ops("capture:hi").unwrap().1
    );
    assert_eq!(
        vec![Op::Multiple {
            from: 1,
            to: Some(3)
        }],
        kleenexp::parse::ops("1-3").unwrap().1
    );
    assert_eq!(
        vec![Op::Multiple {
            from: 3,
            to: Some(3)
        }],
        kleenexp::parse::ops("3").unwrap().1
    );
    assert_eq!(
        vec![Op::Multiple { from: 3, to: None }],
        kleenexp::parse::ops("3+").unwrap().1
    );
    assert_eq!(None, kleenexp::parse::ops("#hello").ok());
    assert_eq!(None, kleenexp::parse::ops(":hello").ok());
}

#[test]
fn ops_then_matches() {
    assert_eq!(None, kleenexp::parse::ops_then_matches("#hello").ok());
    assert_eq!(
        Ast::Multiple {
            from: 1,
            to: None,
            subexpr: Box::new(Ast::Macro(s("hello")))
        },
        kleenexp::parse::ops_then_matches("1+ #hello").unwrap().1
    );
    assert_eq!(
        Ast::Multiple {
            from: 1,
            to: None,
            subexpr: Box::new(Ast::Macro(s("hello")))
        },
        kleenexp::parse::ops_then_matches("1+ #hello").unwrap().1
    );
    assert_eq!(
        Ast::Operator {
            op: s("capture"),
            name: s("hi"),
            subexpr: Box::new(Ast::Either(vec![
                Ast::Macro(s("hello")),
                Ast::Macro(s("world"))
            ]))
        },
        kleenexp::parse::ops_then_matches("capture:hi [#hello|#world]")
            .unwrap()
            .1
    );
}

#[test]
fn token() {
    assert_eq!("hello", kleenexp::parse::token("hello").unwrap().1);
    assert_eq!("1+", kleenexp::parse::token("1+").unwrap().1);
    assert_eq!(None, kleenexp::parse::token("#").ok());
}

#[test]
fn whitespace_run_length() {
    assert_eq!(ws("  \t\nrest"), 4);
    assert_eq!(ws("rest"), 0);
    assert_eq!(ws(""), 0);
}

#[test]
fn remaining_input_is_returned() {
    let (rest, tok) = kleenexp::parse::token("hi there").unwrap();
    assert_eq!(tok, "hi");
    assert_eq!(rest, " there");
    let (rest, ast) = kleenexp::parse::matches("[#a] | [#b]").unwrap();
    assert_eq!(ast, Ast::Macro(s("a")));
    assert_eq!(rest, "| [#b]");
}

#[test]
fn oversized_multiplicity_is_rejected() {
    // A count that does not fit in 32 bits cannot be a multiplicity; the
    // digits then read as an (unknown) operator name instead.
    assert!(kleenexp::transpile("[99999999999 'a']", kleenexp::RegexFlavor::Python).is_err());
}

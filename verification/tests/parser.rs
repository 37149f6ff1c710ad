use trainfuck::parser::{characters, count_consecutive, parse_chars, parse_loop};
use trainfuck::render::to_source;
use trainfuck::{parse, Op, TrainfuckError};

fn open_fault(source: &str) -> usize {
    match parse(source) {
        Err(TrainfuckError::UnmatchedOpenBracket(at)) => at,
        other => panic!("expected an unmatched '[', got {:?}", other),
    }
}

fn close_fault(source: &str) -> usize {
    match parse(source) {
        Err(TrainfuckError::UnmatchedCloseBracket(at)) => at,
        other => panic!("expected an unmatched ']', got {:?}", other),
    }
}

#[test]
fn parses_classic_operations() {
    let ops = parse("+-><.,").unwrap();
    assert_eq!(
        ops,
        vec![
            Op::Increment(1),
            Op::Decrement(1),
            Op::MoveRight(1),
            Op::MoveLeft(1),
            Op::Output,
            Op::Input,
        ]
    );
}

#[test]
fn parses_networking_operations() {
    let ops = parse("%$@`'").unwrap();
    assert_eq!(
        ops,
        vec![Op::Connect, Op::Listen, Op::Accept, Op::Receive, Op::Send]
    );
}

#[test]
fn empty_source_gives_no_operations() {
    assert_eq!(parse("").unwrap(), Vec::<Op>::new());
}

#[test]
fn skips_characters_without_meaning() {
    let ops = parse("read a byte: , then\n\tprint it: . (done!)").unwrap();
    assert_eq!(ops, vec![Op::Input, Op::Output]);
    assert_eq!(parse("hello world 123 {}()~").unwrap(), Vec::<Op>::new());
}

#[test]
fn collapses_runs_into_counted_operations() {
    assert_eq!(parse(">>>").unwrap(), vec![Op::MoveRight(3)]);
    assert_eq!(parse("<<").unwrap(), vec![Op::MoveLeft(2)]);
    assert_eq!(parse("+++++").unwrap(), vec![Op::Increment(5)]);
    assert_eq!(parse("----").unwrap(), vec![Op::Decrement(4)]);
    assert_eq!(parse(">").unwrap(), vec![Op::MoveRight(1)]);
}

#[test]
fn run_of_256_plus_is_increment_zero() {
    let source = "+".repeat(256);
    assert_eq!(parse(&source).unwrap(), vec![Op::Increment(0)]);
}

#[test]
fn run_of_300_plus_is_increment_44() {
    let source = "+".repeat(300);
    assert_eq!(parse(&source).unwrap(), vec![Op::Increment(44)]);
}

#[test]
fn run_of_255_and_257_minus_wrap_as_bytes() {
    assert_eq!(parse(&"-".repeat(255)).unwrap(), vec![Op::Decrement(255)]);
    assert_eq!(parse(&"-".repeat(256)).unwrap(), vec![Op::Decrement(0)]);
    assert_eq!(parse(&"-".repeat(257)).unwrap(), vec![Op::Decrement(1)]);
}

#[test]
fn long_move_run_keeps_its_count() {
    assert_eq!(parse(&">".repeat(1000)).unwrap(), vec![Op::MoveRight(1000)]);
    assert_eq!(parse(&"<".repeat(70000)).unwrap(), vec![Op::MoveLeft(70000)]);
}

#[test]
fn runs_apart_stay_apart() {
    assert_eq!(
        parse("+ +").unwrap(),
        vec![Op::Increment(1), Op::Increment(1)]
    );
    assert_eq!(
        parse("++--++").unwrap(),
        vec![Op::Increment(2), Op::Decrement(2), Op::Increment(2)]
    );
    assert_eq!(
        parse(">>.>>").unwrap(),
        vec![Op::MoveRight(2), Op::Output, Op::MoveRight(2)]
    );
}

#[test]
fn single_operations_do_not_collapse() {
    assert_eq!(parse("..").unwrap(), vec![Op::Output, Op::Output]);
    assert_eq!(parse(",,").unwrap(), vec![Op::Input, Op::Input]);
    assert_eq!(parse("%%").unwrap(), vec![Op::Connect, Op::Connect]);
}

#[test]
fn parses_loops() {
    assert_eq!(
        parse("[-]").unwrap(),
        vec![Op::Loop(vec![Op::Decrement(1)])]
    );
    assert_eq!(parse("[]").unwrap(), vec![Op::Loop(vec![])]);
    assert_eq!(
        parse("+[>]+.").unwrap(),
        vec![
            Op::Increment(1),
            Op::Loop(vec![Op::MoveRight(1)]),
            Op::Increment(1),
            Op::Output,
        ]
    );
}

#[test]
fn parses_nested_loops() {
    assert_eq!(
        parse("[[+]>[-[]]]").unwrap(),
        vec![Op::Loop(vec![
            Op::Loop(vec![Op::Increment(1)]),
            Op::MoveRight(1),
            Op::Loop(vec![Op::Decrement(1), Op::Loop(vec![])]),
        ])]
    );
}

#[test]
fn loop_body_is_the_text_between_the_brackets() {
    assert_eq!(
        parse("[a+b+]").unwrap(),
        vec![Op::Loop(vec![Op::Increment(1), Op::Increment(1)])]
    );
    assert_eq!(
        parse("+[+]+").unwrap(),
        vec![
            Op::Increment(1),
            Op::Loop(vec![Op::Increment(1)]),
            Op::Increment(1),
        ]
    );
}

#[test]
fn parses_the_multiplication_program() {
    assert_eq!(
        parse("++++++++[>++++++++<-]>.").unwrap(),
        vec![
            Op::Increment(8),
            Op::Loop(vec![
                Op::MoveRight(1),
                Op::Increment(8),
                Op::MoveLeft(1),
                Op::Decrement(1),
            ]),
            Op::MoveRight(1),
            Op::Output,
        ]
    );
}

#[test]
fn unmatched_open_bracket_is_refused_at_its_position() {
    assert_eq!(open_fault("["), 0);
    assert_eq!(open_fault("+["), 1);
    assert_eq!(open_fault("[[]"), 0);
    assert_eq!(open_fault("[]["), 2);
    assert_eq!(open_fault("[]+[[]"), 3);
    assert_eq!(open_fault("[+.,-"), 0);
    assert_eq!(open_fault("++[->+<"), 2);
}

#[test]
fn unmatched_close_bracket_is_refused_at_its_position() {
    assert_eq!(close_fault("]"), 0);
    assert_eq!(close_fault("+]"), 1);
    assert_eq!(close_fault("[]]"), 2);
    assert_eq!(close_fault("[[]]+]"), 5);
    assert_eq!(close_fault("+++ ] +++"), 4);
}

#[test]
fn first_stray_bracket_is_the_fault() {
    assert_eq!(close_fault("]["), 0);
    assert_eq!(close_fault("]]"), 0);
    assert_eq!(open_fault("[["), 0);
    assert_eq!(close_fault("[]][["), 2);
}

#[test]
fn fault_positions_count_characters_not_bytes() {
    assert_eq!(open_fault("é["), 1);
    assert_eq!(close_fault("日本]"), 2);
    assert_eq!(open_fault("→→+["), 3);
}

#[test]
fn parsing_is_a_function_of_the_text() {
    let source = "+[>,.<-]$@`'%";
    assert_eq!(parse(source).unwrap(), parse(source).unwrap());
}

#[test]
fn characters_are_taken_in_order() {
    assert_eq!(characters("a+é]"), vec!['a', '+', 'é', ']']);
    assert_eq!(characters(""), Vec::<char>::new());
}

#[test]
fn counts_consecutive_characters() {
    let chars: Vec<char> = "++-+++".chars().collect();
    assert_eq!(count_consecutive(&chars, 0, '+'), 2);
    assert_eq!(count_consecutive(&chars, 1, '+'), 1);
    assert_eq!(count_consecutive(&chars, 2, '+'), 0);
    assert_eq!(count_consecutive(&chars, 2, '-'), 1);
    assert_eq!(count_consecutive(&chars, 3, '+'), 3);
    assert_eq!(count_consecutive(&chars, 6, '+'), 0);
}

#[test]
fn parse_loop_gives_body_and_closing_position() {
    let chars: Vec<char> = "+[>[-]<]+".chars().collect();
    let (body, end) = parse_loop(&chars, 1).unwrap();
    assert_eq!(end, 7);
    assert_eq!(
        body,
        vec![
            Op::MoveRight(1),
            Op::Loop(vec![Op::Decrement(1)]),
            Op::MoveLeft(1),
        ]
    );
    let (inner, inner_end) = parse_loop(&chars, 3).unwrap();
    assert_eq!(inner_end, 5);
    assert_eq!(inner, vec![Op::Decrement(1)]);
}

#[test]
fn parse_loop_names_the_opening_bracket() {
    let chars: Vec<char> = "+[>[-]<".chars().collect();
    match parse_loop(&chars, 1) {
        Err(TrainfuckError::UnmatchedOpenBracket(at)) => assert_eq!(at, 1),
        other => panic!("unexpected: {:?}", other),
    }
    match parse_loop(&chars, 7) {
        Err(TrainfuckError::UnmatchedOpenBracket(at)) => assert_eq!(at, 7),
        other => panic!("unexpected: {:?}", other),
    }
}

#[test]
fn parse_chars_agrees_with_parse() {
    let source = "++[>+<-]x]";
    let chars: Vec<char> = source.chars().collect();
    match (parse_chars(&chars), parse(source)) {
        (
            Err(TrainfuckError::UnmatchedCloseBracket(a)),
            Err(TrainfuckError::UnmatchedCloseBracket(b)),
        ) => {
            assert_eq!(a, 9);
            assert_eq!(b, 9);
        }
        other => panic!("unexpected: {:?}", other),
    }
    let good: Vec<char> = "+[-]".chars().collect();
    assert_eq!(parse_chars(&good).unwrap(), parse("+[-]").unwrap());
}

#[test]
fn canonical_text_of_operations() {
    let ops = vec![
        Op::Increment(2),
        Op::Increment(1),
        Op::Loop(vec![Op::MoveRight(3), Op::Output, Op::Loop(vec![])]),
        Op::MoveLeft(1),
        Op::Decrement(4),
        Op::Input,
        Op::Connect,
        Op::Listen,
        Op::Accept,
        Op::Receive,
        Op::Send,
    ];
    assert_eq!(to_source(&ops), "++ + [>>> .[]]< ---- ,%$@`'");
    assert_eq!(to_source(&[]), "");
}

#[test]
fn canonical_text_writes_zero_change_as_full_turn() {
    let text = to_source(&[Op::Increment(0)]);
    assert_eq!(text, format!("{} ", "+".repeat(256)));
    let text = to_source(&[Op::Decrement(0)]);
    assert_eq!(text, format!("{} ", "-".repeat(256)));
}

#[test]
fn reparsing_canonical_text_gives_the_same_tree() {
    let sources = [
        "",
        "++++++++[>++++++++<-]>.",
        ",.",
        "+ + - - > > < <",
        "a[b[c]d]e",
        "$@`'%%",
        ">>>[-]<<<[->>>+<<<]",
    ];
    for source in sources {
        let tree = parse(source).unwrap();
        let again = parse(&to_source(&tree)).unwrap();
        assert_eq!(again, tree);
    }
    let wrapped = parse(&"+".repeat(256)).unwrap();
    assert_eq!(parse(&to_source(&wrapped)).unwrap(), wrapped);
    let long = parse(&"-".repeat(1000)).unwrap();
    assert_eq!(parse(&to_source(&long)).unwrap(), long);
}

#[test]
fn cloned_operations_are_equal() {
    let tree = parse("+[>[-]<,.]%").unwrap();
    let copy = tree.clone();
    assert_eq!(copy, tree);
    let one = Op::Loop(vec![Op::Loop(vec![Op::Send])]);
    assert_eq!(one.clone(), one);
}

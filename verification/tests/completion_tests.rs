use crush::ast::{CommandNode, JobListNode, JobNode, Location, Node, TrackedString};
use crush::completion::{
    find_command_in_job_list, parse, CompletionCommand, LastArgument, ParseResult,
    PartialCommandResult, PreviousArgument, PreviousArgumentValue,
};
use crush::value::{ArgumentDescription, CommandSignature, Scope, Value, ValueType};

fn err_message<T>(r: Result<T, crush::JobError>) -> String {
    match r {
        Err(e) => e.message,
        Ok(_) => panic!("expected an error"),
    }
}

fn loc(a: usize, b: usize) -> Location {
    Location::new(a, b)
}

fn token(s: &str, a: usize, b: usize) -> TrackedString {
    TrackedString::new(s.to_string(), loc(a, b))
}

fn label(s: &str, a: usize, b: usize) -> Node {
    Node::Label(token(s, a, b))
}

fn command(expressions: Vec<Node>, a: usize, b: usize) -> CommandNode {
    CommandNode { expressions, location: loc(a, b) }
}

fn job(commands: Vec<CommandNode>, a: usize, b: usize) -> JobNode {
    JobNode { commands, location: loc(a, b) }
}

fn job_list(jobs: Vec<JobNode>, a: usize, b: usize) -> JobListNode {
    JobListNode { jobs, location: loc(a, b) }
}

/// The tree of `a (b)`.
fn substitution_tree() -> JobListNode {
    let inner = job(vec![command(vec![label("b", 3, 4)], 3, 4)], 3, 4);
    job_list(
        vec![job(
            vec![command(vec![label("a", 0, 1), Node::Substitution(inner)], 0, 5)],
            0,
            5,
        )],
        0,
        5,
    )
}

#[test]
fn find_command_in_substitution_test() {
    let ast = substitution_tree();
    let cmd = find_command_in_job_list(&ast, 4).unwrap();
    assert_eq!(cmd.location, Location::new(3, 4))
}

/// The tree of `a {b}`.
fn closure_tree() -> JobListNode {
    let inner = job_list(vec![job(vec![command(vec![label("b", 3, 4)], 3, 4)], 3, 4)], 3, 4);
    job_list(
        vec![job(
            vec![command(vec![label("a", 0, 1), Node::Closure(None, inner)], 0, 5)],
            0,
            5,
        )],
        0,
        5,
    )
}

#[test]
fn find_command_in_closure_test() {
    let ast = closure_tree();
    let cmd = find_command_in_job_list(&ast, 4).unwrap();
    assert_eq!(cmd.location, Location::new(3, 4))
}

/// The tree of `a | b {c:d (e f=g) h=(i j)}`.
fn complicated_tree() -> JobListNode {
    let e_job = job(
        vec![command(
            vec![
                label("e", 12, 13),
                Node::Assignment(
                    Box::new(label("f", 14, 15)),
                    "=".to_string(),
                    Box::new(label("g", 16, 17)),
                ),
            ],
            12,
            17,
        )],
        12,
        17,
    );
    let ij_job = job(
        vec![command(vec![label("i", 22, 23), label("j", 24, 25)], 22, 25)],
        22,
        25,
    );
    let closure_body = job_list(
        vec![job(
            vec![command(
                vec![
                    Node::GetAttr(Box::new(label("c", 7, 8)), token("d", 9, 10)),
                    Node::Substitution(e_job),
                    Node::Assignment(
                        Box::new(label("h", 19, 20)),
                        "=".to_string(),
                        Box::new(Node::Substitution(ij_job)),
                    ),
                ],
                7,
                26,
            )],
            7,
            26,
        )],
        7,
        26,
    );
    job_list(
        vec![job(
            vec![
                command(vec![label("a", 0, 1)], 0, 1),
                command(vec![label("b", 4, 5), Node::Closure(None, closure_body)], 4, 27),
            ],
            0,
            27,
        )],
        0,
        27,
    )
}

#[test]
fn find_command_in_complicated_mess_test() {
    let ast = complicated_tree();
    let cmd = find_command_in_job_list(&ast, 25).unwrap();
    assert_eq!(cmd.location, Location::new(22, 25))
}

/// The tree of `ps | where {^cpu == (max_)}`.
fn operator_tree() -> JobListNode {
    let max_job = job(vec![command(vec![label("max_", 21, 25)], 21, 25)], 21, 25);
    let closure_body = job_list(
        vec![job(
            vec![command(
                vec![
                    label("^cpu", 12, 16),
                    label("==", 17, 19),
                    Node::Substitution(max_job),
                ],
                12,
                26,
            )],
            12,
            26,
        )],
        12,
        26,
    );
    job_list(
        vec![job(
            vec![
                command(vec![label("ps", 0, 2)], 0, 2),
                command(vec![label("where", 5, 10), Node::Closure(None, closure_body)], 5, 27),
            ],
            0,
            27,
        )],
        0,
        27,
    )
}

#[test]
fn find_command_in_operator() {
    let ast = operator_tree();
    let cmd = find_command_in_job_list(&ast, 25).unwrap();
    assert_eq!(cmd.location, Location::new(21, 25))
}

#[test]
fn bare_label_completes_to_prefix() {
    let ast = job_list(
        vec![job(vec![command(vec![label("abcd", 0, 4)], 0, 4)], 0, 4)],
        0,
        4,
    );
    let scope = Scope::new();
    match parse(&ast, 2, &scope).unwrap() {
        ParseResult::PartialLabel(s) => assert_eq!(s, "ab"),
        _ => panic!("expected a partial label"),
    }
}

#[test]
fn argument_name_completes_to_switch() {
    // `cmd na=x` with the cursor inside `na`.
    let assignment = Node::Assignment(
        Box::new(label("na", 4, 6)),
        "=".to_string(),
        Box::new(label("x", 7, 8)),
    );
    let ast = job_list(
        vec![job(vec![command(vec![label("cmd", 0, 3), assignment], 0, 8)], 0, 8)],
        0,
        8,
    );
    let scope = Scope::new();
    match parse(&ast, 5, &scope).unwrap() {
        ParseResult::PartialArgument(p) => match p.last_argument {
            LastArgument::Switch(s) => assert_eq!(s, "n"),
            _ => panic!("expected a switch, never a value completion"),
        },
        _ => panic!("expected a partial argument"),
    }
}

fn descriptor(name: &str, value_type: ValueType, unnamed: bool) -> ArgumentDescription {
    ArgumentDescription {
        name: name.to_string(),
        value_type,
        unnamed,
        named: false,
        optional: false,
        multiple: false,
        allowed: Vec::new(),
        default: None,
    }
}

#[test]
fn unnamed_descriptor_always_wins() {
    let signature = CommandSignature {
        arguments: vec![
            descriptor("first", ValueType::String, false),
            descriptor("rest", ValueType::File, true),
            descriptor("last", ValueType::Integer, false),
        ],
    };
    let partial = PartialCommandResult {
        command: CompletionCommand::Known(signature),
        previous_arguments: vec![
            PreviousArgument {
                name: Some("first".to_string()),
                value: PreviousArgumentValue::ValueType(ValueType::Any),
            },
            PreviousArgument {
                name: Some("last".to_string()),
                value: PreviousArgumentValue::ValueType(ValueType::Any),
            },
        ],
        last_argument_name: None,
        last_argument: LastArgument::Unknown,
    };
    let d = partial.last_argument_description().unwrap();
    assert_eq!(d.name, "rest");
    assert!(matches!(partial.last_argument_type(), ValueType::File));
}

#[test]
fn named_descriptor_matches_exactly() {
    let signature = CommandSignature {
        arguments: vec![
            descriptor("alpha", ValueType::String, false),
            descriptor("beta", ValueType::Integer, false),
        ],
    };
    let partial = PartialCommandResult {
        command: CompletionCommand::Known(signature),
        previous_arguments: vec![],
        last_argument_name: Some("beta".to_string()),
        last_argument: LastArgument::Unknown,
    };
    let d = partial.last_argument_description().unwrap();
    assert_eq!(d.name, "beta");
    assert!(matches!(partial.last_argument_type(), ValueType::Integer));
}

#[test]
fn command_resolves_through_scope() {
    let mut scope = Scope::new();
    scope.declare(
        "run",
        Value::Command(CommandSignature {
            arguments: vec![descriptor("only", ValueType::Glob, false)],
        }),
    );
    // `run x` with the cursor on `x`.
    let ast = job_list(
        vec![job(vec![command(vec![label("run", 0, 3), label("x", 4, 5)], 0, 5)], 0, 5)],
        0,
        5,
    );
    match parse(&ast, 5, &scope).unwrap() {
        ParseResult::PartialArgument(p) => {
            match p.command {
                CompletionCommand::Known(sig) => assert_eq!(sig.arguments[0].name, "only"),
                CompletionCommand::Unknown => panic!("expected the command to resolve"),
            }
            match p.last_argument {
                LastArgument::Label(s) => assert_eq!(s, "x"),
                _ => panic!("expected a label"),
            }
        },
        _ => panic!("expected a partial argument"),
    }
}

#[test]
fn member_completion_fetches_parent() {
    let mut scope = Scope::new();
    scope.declare(
        "val",
        Value::Struct(vec![("fld".to_string(), Value::Integer(7))]),
    );
    // `val:fld` with the cursor after the first field character.
    let ast = job_list(
        vec![job(
            vec![command(
                vec![Node::GetAttr(Box::new(label("val", 0, 3)), token("fld", 4, 7))],
                0,
                7,
            )],
            0,
            7,
        )],
        0,
        7,
    );
    match parse(&ast, 5, &scope).unwrap() {
        ParseResult::PartialMember(parent, partial) => {
            assert!(matches!(parent, Value::Struct(_)));
            assert_eq!(partial, "f");
        },
        _ => panic!("expected a partial member"),
    }
}

#[test]
fn quoted_file_unescapes() {
    let ast = job_list(
        vec![job(
            vec![command(vec![Node::File(token("a\\nb", 0, 4), true)], 0, 4)],
            0,
            4,
        )],
        0,
        4,
    );
    let scope = Scope::new();
    match parse(&ast, 2, &scope).unwrap() {
        ParseResult::PartialFile(p, quoted) => {
            assert_eq!(p, "a\nb");
            assert!(quoted);
        },
        _ => panic!("expected a partial file"),
    }
}

#[test]
fn path_flattens_with_slashes() {
    let path = Node::Path(Box::new(label("usr", 0, 3)), token("bin", 4, 7));
    let ast = job_list(vec![job(vec![command(vec![path], 0, 7)], 0, 7)], 0, 7);
    let scope = Scope::new();
    match parse(&ast, 5, &scope).unwrap() {
        ParseResult::PartialFile(p, quoted) => {
            assert_eq!(p, "usr/bin");
            assert!(!quoted);
        },
        _ => panic!("expected a partial file"),
    }
}

#[test]
fn get_item_is_unsupported() {
    let item = Node::GetItem(Box::new(label("xs", 0, 2)), Box::new(label("i", 3, 4)));
    let ast = job_list(vec![job(vec![command(vec![item], 0, 5)], 0, 5)], 0, 5);
    let scope = Scope::new();
    assert_eq!(err_message(parse(&ast, 1, &scope)), "Unsupported construct");
}

#[test]
fn oversized_integer_is_rejected() {
    let huge = "9".repeat(60);
    let node = Node::Integer(TrackedString::new(huge, loc(1, 61)));
    let ast = job_list(vec![job(vec![command(vec![node], 0, 61)], 0, 61)], 0, 61);
    let scope = Scope::new();
    // The integer sits in command position; with the cursor before its
    // span, the command is resolved by evaluating it, which parses the
    // literal and rejects a value beyond the integer range.
    assert_eq!(err_message(parse(&ast, 0, &scope)), "Invalid integer");
}

#[test]
fn empty_job_list_completes_to_nothing() {
    let ast = job_list(vec![], 0, 0);
    let scope = Scope::new();
    assert!(matches!(parse(&ast, 0, &scope).unwrap(), ParseResult::Nothing));
}

#[test]
fn empty_job_has_nothing_to_complete() {
    let ast = job_list(vec![job(vec![], 0, 0)], 0, 0);
    let scope = Scope::new();
    assert_eq!(err_message(parse(&ast, 0, &scope)), "Nothing to complete");
}

#[test]
fn complete_twice_yields_identical_results() {
    let ast = complicated_tree();
    let scope = Scope::new();
    let first = parse(&ast, 25, &scope).unwrap();
    let second = parse(&ast, 25, &scope).unwrap();
    match (first, second) {
        (ParseResult::PartialArgument(p1), ParseResult::PartialArgument(p2)) => {
            assert!(matches!(p1.command, CompletionCommand::Unknown));
            assert!(matches!(p2.command, CompletionCommand::Unknown));
            assert_eq!(p1.previous_arguments.len(), p2.previous_arguments.len());
            assert_eq!(p1.last_argument_name, p2.last_argument_name);
            match (p1.last_argument, p2.last_argument) {
                (LastArgument::Label(a), LastArgument::Label(b)) => assert_eq!(a, b),
                _ => panic!("expected matching label completions"),
            }
        },
        _ => panic!("expected matching partial arguments"),
    }
}

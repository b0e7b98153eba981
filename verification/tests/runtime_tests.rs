use crush::ast::Location;
use crush::du::{du, size, Du, DuRow, FsEntry};
use crush::errors::{argument_error, error, parse_error};
use crush::execute::{program_command, string, JobOutcome};
use crush::patterns::{CompiledRegex, Patterns};
use crush::systemd::{
    declare, journal_plan, journal_step, parse_files, usec_since_epoch, JournalFiles,
    JournalSignature, JournalStep,
};
use crush::value::{CommandSignature, Scope, Value};

fn err_message<T>(r: Result<T, crush::JobError>) -> String {
    match r {
        Err(e) => e.message,
        Ok(_) => panic!("expected an error"),
    }
}

#[test]
fn error_constructors_carry_the_message() {
    assert_eq!(parse_error("bad text").message, "bad text");
    assert_eq!(argument_error("bad argument").message, "bad argument");
    assert_eq!(error("other").message, "other");
}

#[test]
fn patterns_match_literals_globs_and_regexes() {
    let mut p = Patterns::new();
    p.expand_string("exact".to_string());
    p.expand_glob("a*c".to_string());
    p.expand_regex(CompiledRegex::compile("^ab+$").unwrap());
    assert!(p.test("exact"));
    assert!(p.test("abbbc"));
    assert!(p.test("abb"));
    assert!(!p.test("exac"));
    assert!(!p.test("ba"));
    assert!(!p.test("xyz"));
}

#[test]
fn invalid_regex_is_rejected() {
    assert!(CompiledRegex::compile("(").is_none());
    let re = CompiledRegex::compile("foo(bar)?").unwrap();
    assert_eq!(re.def(), "foo(bar)?");
    assert!(re.is_match("xxfooxx"));
    assert!(!re.is_match("fo"));
}

#[test]
fn empty_patterns_match_nothing() {
    let p = Patterns::new();
    assert!(!p.test(""));
    assert!(!p.test("anything"));
}

fn failed(msg: &str) -> JobOutcome {
    JobOutcome::Failed(argument_error(msg))
}

#[test]
fn one_failing_job_reports_once_and_later_jobs_still_run() {
    let first_span = Location::new(0, 5);
    let second_span = Location::new(6, 11);
    let (reports, joins) = string(
        "fail me; work",
        Ok(vec![
            (first_span, failed("Argument list must be of type list")),
            (second_span, JobOutcome::Spawned(7)),
        ]),
    );
    assert_eq!(reports.len(), 1);
    assert_eq!(reports[0].message, "Argument list must be of type list");
    assert_eq!(reports[0].source, "fail me; work");
    assert_eq!(reports[0].span, Some(first_span));
    assert_eq!(joins.len(), 1);
    assert_eq!(joins[0].handle, 7);
    assert_eq!(joins[0].span, second_span);
}

#[test]
fn parse_failure_reports_without_a_span() {
    let (reports, joins) = string("[broken", Err(parse_error("mismatched bracket")));
    assert_eq!(reports.len(), 1);
    assert_eq!(reports[0].message, "mismatched bracket");
    assert_eq!(reports[0].source, "[broken");
    assert_eq!(reports[0].span, None);
    assert!(joins.is_empty());
}

#[test]
fn program_must_be_a_command() {
    assert_eq!(
        err_message(program_command(Value::Integer(3))),
        "Expected a command, but found other value"
    );
    let cmd = Value::Command(CommandSignature { arguments: vec![] });
    assert!(program_command(cmd).is_ok());
}

fn cfg() -> JournalSignature {
    JournalSignature {
        follow: false,
        skip_system_files: false,
        skip_user_files: false,
        runtime_only: false,
        local_only: false,
        seek: None,
        filters: vec![],
    }
}

#[test]
fn journal_file_choice_follows_the_flags() {
    assert_eq!(parse_files(&cfg()).unwrap(), JournalFiles::All);
    let mut c = cfg();
    c.skip_user_files = true;
    assert_eq!(parse_files(&c).unwrap(), JournalFiles::System);
    let mut c = cfg();
    c.skip_system_files = true;
    assert_eq!(parse_files(&c).unwrap(), JournalFiles::CurrentUser);
    let mut c = cfg();
    c.skip_system_files = true;
    c.skip_user_files = true;
    assert_eq!(parse_files(&c).unwrap_err().message, "No files specified");
}

#[test]
fn journal_seek_needs_a_nonnegative_time() {
    assert_eq!(usec_since_epoch(1_500_000).unwrap(), 1_500_000);
    assert_eq!(usec_since_epoch(-1).unwrap_err().message, "Time overflow");

    let mut c = cfg();
    c.seek = Some(Value::Time(42));
    let plan = journal_plan(&c).unwrap();
    assert_eq!(plan.seek_usec, Some(42));

    let mut c = cfg();
    c.seek = Some(Value::Integer(42));
    assert_eq!(
        err_message(journal_plan(&c)),
        "Don't know how to seek to this value"
    );
}

#[test]
fn journal_records_become_rows() {
    assert!(matches!(journal_step(false, None), JournalStep::Stop));
    assert!(matches!(journal_step(true, None), JournalStep::Wait));
    let rec = crush::systemd::JournalRecord {
        timestamp_micros: 99,
        fields: vec![("MESSAGE".to_string(), "hello".to_string())],
    };
    match journal_step(false, Some(rec)) {
        JournalStep::Emit(t, d) => {
            assert!(matches!(t, Value::Time(99)));
            match d {
                Value::Struct(fields) => {
                    assert_eq!(fields.len(), 1);
                    assert_eq!(fields[0].0, "MESSAGE");
                    match &fields[0].1 {
                        Value::String(s) => assert_eq!(s, "hello"),
                        _ => panic!("expected a string field"),
                    }
                },
                _ => panic!("expected a struct"),
            }
        },
        _ => panic!("expected a row"),
    }
}

#[test]
fn declare_adds_the_namespace() {
    let mut root = Scope::new();
    declare(&mut root).unwrap();
    match root.get("systemd") {
        Some(Value::Struct(members)) => {
            assert_eq!(members.len(), 1);
            assert_eq!(members[0].0, "journal");
            assert!(matches!(members[0].1, Value::Command(_)));
        },
        _ => panic!("expected the systemd namespace"),
    }
}

fn file(path: &str, size: u64, blocks: u64) -> FsEntry {
    FsEntry {
        path: path.to_string(),
        size,
        blocks,
        is_directory: false,
        children: vec![],
    }
}

fn dir(path: &str, size: u64, blocks: u64, children: Vec<FsEntry>) -> FsEntry {
    FsEntry {
        path: path.to_string(),
        size,
        blocks,
        is_directory: true,
        children,
    }
}

fn row(r: &DuRow) -> (u64, u64, &str) {
    (r.size, r.blocks, r.file.as_str())
}

#[test]
fn directory_sizes_are_recursive() {
    let tree = dir(
        "top",
        10,
        1,
        vec![
            file("top/a", 100, 2),
            dir("top/sub", 20, 1, vec![file("top/sub/b", 1000, 4)]),
        ],
    );
    let mut rows = Vec::new();
    let (sz, bl) = size(&tree, false, &mut rows);
    assert_eq!(sz, 10 + 100 + 20 + 1000);
    assert_eq!(bl, 1 + 2 + 1 + 4);
    assert_eq!(rows.len(), 1);
    assert_eq!(row(&rows[0]), (1020, 5, "top/sub"));

    let mut silent_rows = Vec::new();
    let _ = size(&tree, true, &mut silent_rows);
    assert!(silent_rows.is_empty());
}

#[test]
fn du_emits_one_row_per_listed_tree() {
    let trees = vec![
        dir("d", 1, 1, vec![file("d/x", 2, 2)]),
        file("plain", 5, 5),
    ];
    let rows = du(&trees, false);
    assert_eq!(rows.len(), 2);
    assert_eq!(row(&rows[0]), (3, 3, "d"));
    assert_eq!(row(&rows[1]), (5, 5, "plain"));
    let silent = Du { directory: vec!["d".to_string()], silent: true };
    assert!(silent.silent);
}

#[test]
fn saturating_totals_stop_at_the_limit() {
    let tree = dir(
        "big",
        u64::MAX - 1,
        0,
        vec![file("big/x", 5, 0)],
    );
    let mut rows = Vec::new();
    let (sz, _) = size(&tree, true, &mut rows);
    assert_eq!(sz, u64::MAX);
}

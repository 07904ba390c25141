use crush_core::closure::Closure;
use crush_core::data::{Argument, Cell, FileValue, Row};
use crush_core::errors::Error;
use crush_core::job::{Command, Job};
use crush_core::printer::Printer;
use crush_core::scope::ScopeArena;
use crush_core::stream::{OutputStream, empty_channel};

fn echo_job(label: &str) -> Job {
    Job::new(
        Command::Echo,
        vec![Argument { name: None, value: Cell::Text(String::from(label)) }],
    )
}

fn fail_job() -> Job {
    Job::new(Command::Fail, Vec::new())
}

fn text_row(s: &str) -> Row {
    Row { cells: vec![Cell::Text(String::from(s))] }
}

#[test]
fn unbound_closure_returns_environment_error_and_runs_no_stage() {
    let closure = Closure::new(vec![echo_job("a")]);
    let mut arena = ScopeArena::new();
    let mut output = OutputStream::new();
    let mut printer = Printer::new();
    let r = closure.spawn_and_execute(
        &mut arena,
        Vec::new(),
        empty_channel(),
        &mut output,
        &mut printer,
    );
    assert_eq!(r, Err(Error::EnvironmentError));
    assert_eq!(printer.printed.len(), 0);
    assert_eq!(printer.errors.len(), 0);
    assert_eq!(output.rows.len(), 0);
    assert_eq!(closure.spawn_stream(), Err(Error::EnvironmentError));
}

#[test]
fn bound_closure_with_zero_stages_returns_empty_closure_error() {
    let mut arena = ScopeArena::new();
    let root = arena.create_root();
    let closure = Closure::new(Vec::new()).with_env(root);
    let mut output = OutputStream::new();
    let mut printer = Printer::new();
    let r = closure.spawn_and_execute(
        &mut arena,
        Vec::new(),
        empty_channel(),
        &mut output,
        &mut printer,
    );
    assert_eq!(r, Err(Error::EmptyClosureError));
    assert_eq!(printer.printed.len(), 0);
    assert_eq!(printer.errors.len(), 0);
    assert_eq!(output.rows.len(), 0);
    assert_eq!(closure.spawn_stream(), Ok(()));
}

#[test]
fn a_single_stage_writes_the_real_output_and_prints_nothing() {
    let mut arena = ScopeArena::new();
    let root = arena.create_root();
    let closure = Closure::new(vec![echo_job("only")]).with_env(root);
    let mut output = OutputStream::new();
    let mut printer = Printer::new();
    let r = closure.spawn_and_execute(
        &mut arena,
        Vec::new(),
        empty_channel(),
        &mut output,
        &mut printer,
    );
    assert_eq!(r, Ok(()));
    assert_eq!(output.rows, vec![text_row("only")]);
    assert_eq!(printer.printed.len(), 0);
    assert_eq!(printer.errors.len(), 0);
}

#[test]
fn a_failing_stage_reports_to_the_sink_and_never_alters_the_result() {
    let mut arena = ScopeArena::new();
    let root = arena.create_root();
    let closure = Closure::new(vec![echo_job("a"), fail_job()]).with_env(root);
    let mut output = OutputStream::new();
    let mut printer = Printer::new();
    let r = closure.spawn_and_execute(
        &mut arena,
        Vec::new(),
        empty_channel(),
        &mut output,
        &mut printer,
    );
    assert_eq!(r, Ok(()));
    assert_eq!(printer.errors, vec![Error::StageError]);
    assert_eq!(output.rows.len(), 0);
    assert_eq!(printer.printed, vec![text_row("a")]);
}

#[test]
fn interior_wiring_discards_the_first_stage_output_and_hands_the_last_an_empty_input() {
    // {A | B} with empty real input: A's row is only ever printed through
    // the sink, B receives an empty input (never A's rows) and writes the
    // invocation's real output.
    let mut arena = ScopeArena::new();
    let root = arena.create_root();
    let closure = Closure::new(vec![echo_job("a-out"), echo_job("b-out")]).with_env(root);
    let mut output = OutputStream::new();
    let mut printer = Printer::new();
    let r = closure.spawn_and_execute(
        &mut arena,
        Vec::new(),
        empty_channel(),
        &mut output,
        &mut printer,
    );
    assert_eq!(r, Ok(()));
    assert_eq!(output.rows, vec![text_row("b-out")]);
    assert_eq!(printer.printed, vec![text_row("a-out")]);
    assert_eq!(printer.errors.len(), 0);
}

#[test]
fn the_second_stage_sees_an_empty_input_not_the_first_stages_rows() {
    // The first stage emits a row holding a file; the second is the
    // file-enumerating command given a column spec. Were the first stage's
    // rows forwarded, the spec would name an existing column and lines
    // would flow; against the empty, column-less input it is actually
    // wired to, the command treats its text argument as a file name,
    // reports an ArgumentError to the sink, and emits nothing.
    let mut arena = ScopeArena::new();
    let root = arena.create_root();
    let file = FileValue { path: String::from("p"), contents: String::from("l\n") };
    let a = Job::new(
        Command::Echo,
        vec![Argument { name: Some(String::from("f")), value: Cell::File(file) }],
    );
    let b = Job::new(
        Command::Lines,
        vec![Argument { name: None, value: Cell::Text(String::from("f")) }],
    );
    let closure = Closure::new(vec![a, b]).with_env(root);
    let mut output = OutputStream::new();
    let mut printer = Printer::new();
    let r = closure.spawn_and_execute(
        &mut arena,
        Vec::new(),
        empty_channel(),
        &mut output,
        &mut printer,
    );
    assert_eq!(r, Ok(()));
    assert_eq!(printer.errors, vec![Error::ArgumentError]);
    assert_eq!(output.rows.len(), 0);
    assert_eq!(printer.printed.len(), 1);
}

#[test]
fn three_stages_run_in_order_and_only_interior_rows_are_printed() {
    let mut arena = ScopeArena::new();
    let root = arena.create_root();
    let closure =
        Closure::new(vec![echo_job("s1"), echo_job("s2"), echo_job("s3")]).with_env(root);
    let mut output = OutputStream::new();
    let mut printer = Printer::new();
    let r = closure.spawn_and_execute(
        &mut arena,
        Vec::new(),
        empty_channel(),
        &mut output,
        &mut printer,
    );
    assert_eq!(r, Ok(()));
    assert_eq!(printer.printed, vec![text_row("s1"), text_row("s2")]);
    assert_eq!(output.rows, vec![text_row("s3")]);
}

#[test]
fn named_arguments_are_bound_into_the_invocation_scope_and_the_last_wins() {
    let mut arena = ScopeArena::new();
    let root = arena.create_root();
    let closure = Closure::new(vec![echo_job("x")]).with_env(root);
    let args = vec![
        Argument { name: Some(String::from("x")), value: Cell::Numeric(1) },
        Argument { name: None, value: Cell::Numeric(5) },
        Argument { name: Some(String::from("x")), value: Cell::Numeric(2) },
    ];
    let mut output = OutputStream::new();
    let mut printer = Printer::new();
    let r = closure.spawn_and_execute(
        &mut arena,
        args,
        empty_channel(),
        &mut output,
        &mut printer,
    );
    assert_eq!(r, Ok(()));
    // The invocation's child scope is the one created after the root.
    let child = 1;
    assert_eq!(arena.lookup(child, &String::from("x")), Ok(Cell::Numeric(2)));
    assert_eq!(arena.lookup(root, &String::from("x")), Err(Error::NameError));
}

#[test]
fn push_arguments_binds_only_named_arguments() {
    let mut arena = ScopeArena::new();
    let root = arena.create_root();
    let args = vec![
        Argument { name: Some(String::from("a")), value: Cell::Numeric(10) },
        Argument { name: None, value: Cell::Text(String::from("positional")) },
    ];
    Closure::push_arguments_to_env(&mut arena, root, args);
    assert_eq!(arena.lookup(root, &String::from("a")), Ok(Cell::Numeric(10)));
    assert_eq!(
        arena.lookup(root, &String::from("positional")),
        Err(Error::NameError)
    );
}

#[test]
fn a_rejected_stage_aborts_with_argument_error_after_earlier_stages_ran() {
    let mut arena = ScopeArena::new();
    let root = arena.create_root();
    let bad = Job::new(
        Command::Lines,
        vec![Argument { name: None, value: Cell::Numeric(1) }],
    );
    // The bad lines stage reads the real input, which has a column, so its
    // numeric column spec is rejected synchronously: no stage spawns.
    let input = crush_core::data::InputStream::of_rows(
        vec![crush_core::data::ColumnType {
            name: String::from("c"),
            cell_type: crush_core::data::CellType::File,
        }],
        vec![],
    );
    let closure = Closure::new(vec![bad, echo_job("never")]).with_env(root);
    let mut output = OutputStream::new();
    let mut printer = Printer::new();
    let r = closure.spawn_and_execute(&mut arena, Vec::new(), input, &mut output, &mut printer);
    assert_eq!(r, Err(Error::ArgumentError));
    assert_eq!(printer.printed.len(), 0);
    assert_eq!(output.rows.len(), 0);
}

#[test]
fn echo_with_a_live_stream_argument_reports_a_clone_error_to_the_sink() {
    let mut arena = ScopeArena::new();
    let root = arena.create_root();
    let job = Job::new(
        Command::Echo,
        vec![Argument { name: None, value: Cell::Stream(empty_channel()) }],
    );
    let closure = Closure::new(vec![job]).with_env(root);
    let mut output = OutputStream::new();
    let mut printer = Printer::new();
    let r = closure.spawn_and_execute(
        &mut arena,
        Vec::new(),
        empty_channel(),
        &mut output,
        &mut printer,
    );
    assert_eq!(r, Ok(()));
    assert_eq!(printer.errors, vec![Error::CloneError]);
    assert_eq!(output.rows.len(), 0);
}

#[test]
fn to_string_joins_the_stage_names_with_semicolons() {
    let closure = Closure::new(vec![
        Job::new(Command::Lines, Vec::new()),
        echo_job("x"),
        fail_job(),
    ]);
    assert_eq!(closure.to_string(), String::from("lines; echo; fail"));
    assert_eq!(Closure::new(Vec::new()).to_string(), String::from(""));
}

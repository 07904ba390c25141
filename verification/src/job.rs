use vstd::prelude::*;

use crate::data::{Argument, Cell, ColumnType, InputStream, Row, RowVal};
use crate::data::{lemma_view_cells_push, view_cell, view_cells, view_rows};
use crate::errors::Error;
use crate::lines;
use crate::printer::Printer;
use crate::row::{dup_cells_val, dup_val, lemma_dup_cells_pointwise};
use crate::stream::OutputStream;

verus! {

// ---------------------------------------------------------------------------
// A job is one pipeline stage: an executable command bound to arguments.
// Spawning validates the arguments against the input schema and then runs
// the command's logic to completion against its streams; joining forwards
// whatever the stage reported to the diagnostics sink. Stages here run on
// the orchestrator's own control flow — each stage is joined before the
// next is spawned, so a synchronous worker is an exact model of the
// spawn/join protocol.
// ---------------------------------------------------------------------------

/// The executable unit of a stage, dispatched once at spawn time.
#[derive(Clone, Copy, PartialEq, Eq, Structural, Debug)]
pub enum Command {
    /// Enumerates files and their lines.
    Lines,
    /// Emits one row holding copies of its argument cells.
    Echo,
    /// Reports a StageError to the sink; stands for any failing stage.
    Fail,
}

/// One pipeline stage, as defined before any invocation: a command and the
/// arguments it was given. Streams are attached per invocation.
pub struct Job {
    pub command: Command,
    pub arguments: Vec<Argument>,
}

/// The cells of the arguments, in order.
pub open spec fn arg_cells(args: Seq<Argument>) -> Seq<Cell> {
    args.map_values(|a: Argument| a.value)
}

/// Whether the stage's arguments pass validation against the schema of the
/// input it is wired to.
pub open spec fn job_accepts(j: Job, in_types: Seq<ColumnType>) -> bool {
    match j.command {
        Command::Lines => lines::lines_accepts(j.arguments@, in_types),
        Command::Echo => true,
        Command::Fail => true,
    }
}

/// The row the echo command emits: its argument cells, in order.
pub open spec fn echo_row(args: Seq<Argument>) -> RowVal {
    RowVal { cells: view_cells(arg_cells(args)) }
}

/// The rows a spawned stage sends to its output stream, in send order.
pub open spec fn job_out(j: Job, types: Seq<ColumnType>, rows: Seq<Row>) -> Seq<RowVal> {
    match j.command {
        Command::Lines => lines::lines_out(j.arguments@, types, rows),
        Command::Echo => if dup_cells_val(view_cells(arg_cells(j.arguments@))) {
            seq![echo_row(j.arguments@)]
        } else {
            Seq::empty()
        },
        Command::Fail => Seq::empty(),
    }
}

/// The error a spawned stage reports to the diagnostics sink, if any.
pub open spec fn job_err(j: Job, types: Seq<ColumnType>, rows: Seq<Row>) -> Option<Error> {
    match j.command {
        Command::Lines => if lines::lines_err(j.arguments@, types, rows) {
            Some(Error::ArgumentError)
        } else {
            None
        },
        Command::Echo => if dup_cells_val(view_cells(arg_cells(j.arguments@))) {
            None
        } else {
            Some(Error::CloneError)
        },
        Command::Fail => Some(Error::StageError),
    }
}

/// The display name of a command.
pub open spec fn command_name(c: Command) -> Seq<char> {
    match c {
        Command::Lines => "lines"@,
        Command::Echo => "echo"@,
        Command::Fail => "fail"@,
    }
}

/// A handle on a stage that was spawned: what it produced into its output
/// stream, and the failure it will report when joined.
pub struct JobHandle {
    pub produced: Vec<Row>,
    pub failure: Option<Error>,
}

impl Job {
    pub fn new(command: Command, arguments: Vec<Argument>) -> (j: Job)
        ensures
            j.command == command,
            j.arguments@ == arguments@,
    {
        Job { command, arguments }
    }

    /// The display-only textual form of this stage.
    pub fn to_string(&self) -> (r: String)
        ensures
            r@ == command_name(self.command),
    {
        match self.command {
            Command::Lines => String::from_str("lines"),
            Command::Echo => String::from_str("echo"),
            Command::Fail => String::from_str("fail"),
        }
    }

    /// Validates the arguments against the input's schema — an
    /// ArgumentError here is synchronous, and no stage runs — then runs
    /// the command against the given input, and returns the handle on the
    /// finished stage. A failure inside the running stage is captured in
    /// the handle, never returned here.
    pub fn spawn_and_execute(&self, input: InputStream) -> (r: Result<JobHandle, Error>)
        ensures
            (r is Ok) == job_accepts(*self, input.types@),
            r matches Err(e) ==> e == Error::ArgumentError,
            r matches Ok(h) ==> view_rows(h.produced@) == job_out(*self, input.types@, input.rows@)
                && h.failure == job_err(*self, input.types@, input.rows@),
    {
        match self.command {
            Command::Lines => {
                if !lines::check_accepts(&self.arguments, &input.types) {
                    return Err(Error::ArgumentError);
                }
                let mut out = OutputStream::new();
                let run_result = lines::run(&self.arguments, input, &mut out);
                let failure = match run_result {
                    Ok(_) => None,
                    Err(e) => Some(e),
                };
                Ok(JobHandle { produced: out.rows, failure })
            },
            Command::Echo => {
                let ghost cellsv = view_cells(arg_cells(self.arguments@));
                proof {
                    crate::data::lemma_view_cells_len(arg_cells(self.arguments@));
                    lemma_dup_cells_pointwise(cellsv);
                }
                let mut cells: Vec<Cell> = Vec::new();
                let mut i: usize = 0;
                while i < self.arguments.len()
                    invariant
                        self.command == Command::Echo,
                        i <= self.arguments.len(),
                        cellsv == view_cells(arg_cells(self.arguments@)),
                        cellsv.len() == self.arguments@.len(),
                        forall|j: int|
                            0 <= j < self.arguments@.len() ==> #[trigger] cellsv[j] == view_cell(
                                self.arguments@[j].value,
                            ),
                        dup_cells_val(cellsv) <==> (forall|j: int|
                            0 <= j < cellsv.len() ==> dup_val(#[trigger] cellsv[j])),
                        view_cells(cells@) == cellsv.subrange(0, i as int),
                        forall|j: int| 0 <= j < i ==> dup_val(#[trigger] cellsv[j]),
                    decreases self.arguments.len() - i,
                {
                    match self.arguments[i].value.partial_clone() {
                        Ok(c) => {
                            proof {
                                lemma_view_cells_push(cells@, c);
                                assert(cellsv.subrange(0, i + 1) =~= cellsv.subrange(
                                    0,
                                    i as int,
                                ).push(cellsv[i as int]));
                            }
                            cells.push(c);
                        },
                        Err(_) => {
                            proof {
                                assert(!dup_val(cellsv[i as int]));
                                assert(view_rows(Seq::<Row>::empty())
                                    =~= Seq::<RowVal>::empty());
                            }
                            return Ok(
                                JobHandle {
                                    produced: Vec::new(),
                                    failure: Some(Error::CloneError),
                                },
                            );
                        },
                    }
                    i = i + 1;
                }
                proof {
                    assert(cellsv.subrange(0, cellsv.len() as int) =~= cellsv);
                }
                let row = Row { cells };
                let mut produced: Vec<Row> = Vec::new();
                produced.push(row);
                proof {
                    crate::data::lemma_view_rows_push(Seq::empty(), produced@[0]);
                    assert(produced@ =~= Seq::empty().push(produced@[0]));
                    assert(view_rows(produced@) =~= seq![echo_row(self.arguments@)]);
                }
                Ok(JobHandle { produced, failure: None })
            },
            Command::Fail => {
                proof {
                    assert(view_rows(Seq::<Row>::empty()) =~= Seq::<RowVal>::empty());
                }
                Ok(JobHandle { produced: Vec::new(), failure: Some(Error::StageError) })
            },
        }
    }
}

impl JobHandle {
    /// Waits for the stage behind this handle; any error the stage raised
    /// goes to the diagnostics sink as a report, never to the caller. The
    /// rows the stage produced into its output stream are handed back for
    /// the orchestrator to wire onward.
    pub fn join(self, printer: &mut Printer) -> (rows: Vec<Row>)
        ensures
            rows@ == self.produced@,
            final(printer).printed@ == old(printer).printed@,
            self.failure matches Some(e) ==> final(printer).errors@ == old(
                printer,
            ).errors@.push(e),
            self.failure is None ==> final(printer).errors@ == old(printer).errors@,
    {
        match self.failure {
            Some(e) => printer.job_error(e),
            None => {},
        }
        self.produced
    }
}

} // verus!

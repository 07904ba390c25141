use vstd::prelude::*;

use crate::data::Row;
use crate::errors::Error;

verus! {

// The diagnostics sink: the one funnel through which every stage and the
// orchestrator surface rows for the user and report stage failures. In the
// running system it is shared by concurrently running workers; stages here
// are joined one at a time, so their messages arrive in stage order, and
// within one stage in that stage's own order.

pub struct Printer {
    /// Rows printed for the user, oldest first.
    pub printed: Vec<Row>,
    /// Errors reported by stages, oldest first. An error landing here never
    /// alters the return value of the call that spawned the stage.
    pub errors: Vec<Error>,
}

impl Printer {
    pub fn new() -> (p: Printer)
        ensures
            p.printed@.len() == 0,
            p.errors@.len() == 0,
    {
        Printer { printed: Vec::new(), errors: Vec::new() }
    }

    /// Prints one row for the user.
    pub fn print_row(&mut self, row: Row)
        ensures
            final(self).printed@ == old(self).printed@.push(row),
            final(self).errors@ == old(self).errors@,
    {
        self.printed.push(row);
    }

    /// Reports one stage failure.
    pub fn job_error(&mut self, e: Error)
        ensures
            final(self).printed@ == old(self).printed@,
            final(self).errors@ == old(self).errors@.push(e),
    {
        self.errors.push(e);
    }

    /// The print-sink consumer: prints every row of a discarded stream, in
    /// send order, and drops the stream.
    pub fn print_all(&mut self, rows: Vec<Row>)
        ensures
            final(self).printed@ == old(self).printed@ + rows@,
            final(self).errors@ == old(self).errors@,
    {
        let mut rows = rows;
        self.printed.append(&mut rows);
    }
}

} // verus!

use vstd::prelude::*;

use crate::data::{ColumnType, InputStream, Row};

verus! {

// A stream hands rows from one producer to one consumer, in send order.
// Stages run one at a time and each is joined before the next is spawned,
// so the runtime uses a deterministic, synchronous queue: the producer's
// rows are all present before the consumer starts receiving.

impl InputStream {
    /// A stream over the given schema whose producer sent `rows` and closed.
    pub fn of_rows(types: Vec<ColumnType>, rows: Vec<Row>) -> (s: InputStream)
        ensures
            s.types@ == types@,
            s.rows@ == rows@,
    {
        InputStream { types, rows }
    }

    /// Receives the next row, in send order; `None` is the end-of-stream
    /// signal, returned once the producer's rows are exhausted.
    pub fn recv(&mut self) -> (r: Option<Row>)
        ensures
            old(self).rows@.len() == 0 ==> r is None && final(self).rows@ == old(self).rows@,
            old(self).rows@.len() > 0 ==> r == Some(old(self).rows@[0]) && final(self).rows@
                == old(self).rows@.drop_first(),
            final(self).types == old(self).types,
    {
        if self.rows.len() == 0 {
            None
        } else {
            let row = self.rows.remove(0);
            proof {
                assert(old(self).rows@.remove(0) =~= old(self).rows@.drop_first());
            }
            Some(row)
        }
    }
}

/// The pre-closed, empty input handed to a stage that must not read any
/// upstream data: it signals end-of-stream at once and carries no columns.
pub fn empty_channel() -> (s: InputStream)
    ensures
        s.types@.len() == 0,
        s.rows@.len() == 0,
{
    InputStream { types: Vec::new(), rows: Vec::new() }
}

/// The producer end of a stream: rows already sent, in send order.
pub struct OutputStream {
    pub rows: Vec<Row>,
}

impl OutputStream {
    /// A fresh stream with no rows sent yet.
    pub fn new() -> (s: OutputStream)
        ensures
            s.rows@.len() == 0,
    {
        OutputStream { rows: Vec::new() }
    }

    /// Sends every row of a finished stage's stream, in order.
    pub fn send_all(&mut self, rows: Vec<Row>)
        ensures
            final(self).rows@ == old(self).rows@ + rows@,
    {
        let mut rows = rows;
        self.rows.append(&mut rows);
    }

    /// Sends one row; rows are delivered to the consumer in send order.
    pub fn send(&mut self, row: Row)
        ensures
            final(self).rows@ == old(self).rows@.push(row),
    {
        self.rows.push(row);
    }
}

} // verus!

use vstd::prelude::*;

use crate::data::{ArgVal, Argument, ColumnType, InputStream, Row, RowVal};
use crate::data::{arg_binding, lemma_view_rows_concat, view_arg, view_args, view_rows};
use crate::errors::Error;
use crate::job::{Job, command_name, job_accepts, job_err, job_out};
use crate::printer::Printer;
use crate::scope::{ScopeArena, find_local, view_arena, wf_arena};
use crate::stream::{OutputStream, empty_channel};

verus! {

// ---------------------------------------------------------------------------
// A closure: an ordered sequence of job definitions plus an optionally
// captured scope. Unbound until a scope is attached; once bound it can be
// invoked any number of times, each invocation getting a fresh child scope
// of the captured one. Stage wiring is deliberately sequential and
// non-forwarding: each stage is fully joined before the next is spawned;
// only the first stage reads the invocation's real input and only the
// last writes its real output, every other stage getting a pre-closed
// empty input and a print-sink output.
// ---------------------------------------------------------------------------

pub struct Closure {
    pub job_definitions: Vec<Job>,
    pub env: Option<usize>,
}

/// The input schema stage `i` of an invocation is wired to.
pub open spec fn stage_types(in_types: Seq<ColumnType>, i: int) -> Seq<ColumnType> {
    if i == 0 {
        in_types
    } else {
        Seq::empty()
    }
}

/// The input rows stage `i` of an invocation is wired to.
pub open spec fn stage_rows(in_rows: Seq<Row>, i: int) -> Seq<Row> {
    if i == 0 {
        in_rows
    } else {
        Seq::empty()
    }
}

/// Whether stage `i`'s arguments pass validation against its wired input.
pub open spec fn stage_accepts(
    jobs: Seq<Job>,
    in_types: Seq<ColumnType>,
    i: int,
) -> bool {
    job_accepts(jobs[i], stage_types(in_types, i))
}

/// The rows stage `i` produces into its wired output.
pub open spec fn stage_out(
    jobs: Seq<Job>,
    in_types: Seq<ColumnType>,
    in_rows: Seq<Row>,
    i: int,
) -> Seq<RowVal> {
    job_out(jobs[i], stage_types(in_types, i), stage_rows(in_rows, i))
}

/// The error stage `i` reports to the sink, if any.
pub open spec fn stage_err(
    jobs: Seq<Job>,
    in_types: Seq<ColumnType>,
    in_rows: Seq<Row>,
    i: int,
) -> Option<Error> {
    job_err(jobs[i], stage_types(in_types, i), stage_rows(in_rows, i))
}

/// The first stage at or after `k` whose validation is rejected, or the
/// number of stages when every one from `k` on is accepted. Since a
/// rejected spawn aborts the invocation, this is also the number of
/// stages that run.
pub open spec fn first_reject_from(jobs: Seq<Job>, in_types: Seq<ColumnType>, k: int) -> int
    decreases jobs.len() - k,
{
    if !(0 <= k < jobs.len()) {
        jobs.len() as int
    } else if !stage_accepts(jobs, in_types, k) {
        k
    } else {
        first_reject_from(jobs, in_types, k + 1)
    }
}

pub open spec fn first_reject(jobs: Seq<Job>, in_types: Seq<ColumnType>) -> int {
    first_reject_from(jobs, in_types, 0)
}

/// Everything stages `0 .. k` produce, in stage order.
pub open spec fn outs_concat(
    jobs: Seq<Job>,
    in_types: Seq<ColumnType>,
    in_rows: Seq<Row>,
    k: int,
) -> Seq<RowVal>
    decreases k,
{
    if k <= 0 {
        Seq::empty()
    } else {
        outs_concat(jobs, in_types, in_rows, k - 1) + stage_out(jobs, in_types, in_rows, k - 1)
    }
}

/// Every error stages `0 .. k` report, in stage order.
pub open spec fn errs_concat(
    jobs: Seq<Job>,
    in_types: Seq<ColumnType>,
    in_rows: Seq<Row>,
    k: int,
) -> Seq<Error>
    decreases k,
{
    if k <= 0 {
        Seq::empty()
    } else {
        errs_concat(jobs, in_types, in_rows, k - 1) + (match stage_err(
            jobs,
            in_types,
            in_rows,
            k - 1,
        ) {
            Some(e) => seq![e],
            None => Seq::empty(),
        })
    }
}

/// The `;`-joined textual form of the job definitions, display-only.
pub open spec fn closure_text(jobs: Seq<Job>) -> Seq<char>
    decreases jobs.len(),
{
    if jobs.len() == 0 {
        Seq::empty()
    } else if jobs.len() == 1 {
        command_name(jobs[0].command)
    } else {
        command_name(jobs[0].command) + "; "@ + closure_text(jobs.drop_first())
    }
}

pub proof fn lemma_closure_text_push(jobs: Seq<Job>, j: Job)
    ensures
        closure_text(jobs.push(j)) == if jobs.len() == 0 {
            command_name(j.command)
        } else {
            closure_text(jobs) + "; "@ + command_name(j.command)
        },
    decreases jobs.len(),
{
    if jobs.len() == 0 {
        assert(jobs.push(j)[0] == j);
    } else {
        lemma_closure_text_push(jobs.drop_first(), j);
        assert(jobs.push(j).drop_first() =~= jobs.drop_first().push(j));
        if jobs.len() == 1 {
            assert(closure_text(jobs.push(j)) =~= closure_text(jobs) + "; "@ + command_name(
                j.command,
            ));
        } else {
            assert(closure_text(jobs.push(j)) =~= closure_text(jobs) + "; "@ + command_name(
                j.command,
            ));
        }
    }
}

impl Closure {
    /// A new closure over these stage definitions, not yet bound to any
    /// scope.
    pub fn new(job_definitions: Vec<Job>) -> (c: Closure)
        ensures
            c.job_definitions@ == job_definitions@,
            c.env is None,
    {
        Closure { job_definitions, env: None }
    }

    /// Binds the closure to a scope, by reference: the handle is shared,
    /// the scope is not copied. The result is the Bound closure value.
    pub fn with_env(self, env: usize) -> (c: Closure)
        ensures
            c.job_definitions@ == self.job_definitions@,
            c.env == Some(env),
    {
        Closure { job_definitions: self.job_definitions, env: Some(env) }
    }

    /// Validates that this closure can execute against streams: it must
    /// be bound to a scope.
    pub fn spawn_stream(&self) -> (r: Result<(), Error>)
        ensures
            (r is Ok) == (self.env is Some),
            r matches Err(e) ==> e == Error::EnvironmentError,
    {
        match self.env {
            Some(_) => Ok(()),
            None => Err(Error::EnvironmentError),
        }
    }

    /// The `;`-joined textual form of the stage definitions, in order —
    /// display-only, not reparsable.
    pub fn to_string(&self) -> (r: String)
        ensures
            r@ == closure_text(self.job_definitions@),
    {
        let mut acc = String::new();
        let mut i: usize = 0;
        proof {
            assert(self.job_definitions@.subrange(0, 0) =~= Seq::<Job>::empty());
        }
        while i < self.job_definitions.len()
            invariant
                i <= self.job_definitions.len(),
                acc@ == closure_text(self.job_definitions@.subrange(0, i as int)),
            decreases self.job_definitions.len() - i,
        {
            let ghost prefix = self.job_definitions@.subrange(0, i as int);
            if i > 0 {
                acc.append("; ");
            }
            let name = self.job_definitions[i].to_string();
            acc.append(name.as_str());
            proof {
                assert(self.job_definitions@.subrange(0, i + 1) =~= prefix.push(
                    self.job_definitions@[i as int],
                ));
                lemma_closure_text_push(prefix, self.job_definitions@[i as int]);
            }
            i = i + 1;
        }
        proof {
            assert(self.job_definitions@.subrange(0, self.job_definitions@.len() as int)
                =~= self.job_definitions@);
        }
        acc
    }

    /// Declares each named argument, in order, into the given scope; an
    /// unnamed argument is not bound to any name. When several arguments
    /// share a name the last one wins.
    pub fn push_arguments_to_env(arena: &mut ScopeArena, scope: usize, arguments: Vec<Argument>)
        requires
            wf_arena(view_arena(*old(arena))),
            scope < view_arena(*old(arena)).len(),
        ensures
            wf_arena(view_arena(*final(arena))),
            view_arena(*final(arena)).len() == view_arena(*old(arena)).len(),
            forall|q: int|
                0 <= q < view_arena(*old(arena)).len() && q != scope ==> view_arena(
                    *final(arena),
                )[q] == view_arena(*old(arena))[q],
            view_arena(*final(arena))[scope as int].parent == view_arena(*old(arena))[
                scope as int
            ].parent,
            forall|m: Seq<char>|
                find_local(view_arena(*final(arena))[scope as int], m) == (match arg_binding(
                    view_args(arguments@),
                    m,
                ) {
                    Some(v) => Some(v),
                    None => find_local(view_arena(*old(arena))[scope as int], m),
                }),
    {
        let ghost all = view_args(arguments@);
        let mut arguments = arguments;
        proof {
            assert(view_args(arguments@) =~= all);
        }
        while arguments.len() > 0
            invariant
                wf_arena(view_arena(*arena)),
                scope < view_arena(*arena).len(),
                view_arena(*arena).len() == view_arena(*old(arena)).len(),
                forall|q: int|
                    0 <= q < view_arena(*old(arena)).len() && q != scope ==> view_arena(
                        *arena,
                    )[q] == view_arena(*old(arena))[q],
                view_arena(*arena)[scope as int].parent == view_arena(*old(arena))[
                    scope as int
                ].parent,
                forall|m: Seq<char>|
                    #![trigger arg_binding(all, m)]
                    (match arg_binding(all, m) {
                        Some(v) => Some(v),
                        None => find_local(view_arena(*old(arena))[scope as int], m),
                    }) == (match arg_binding(view_args(arguments@), m) {
                        Some(v) => Some(v),
                        None => find_local(view_arena(*arena)[scope as int], m),
                    }),
            decreases arguments@.len(),
        {
            let ghost rem = view_args(arguments@);
            let a = arguments.remove(0);
            proof {
                assert(view_arg(a) == rem[0]);
                assert(view_args(arguments@) =~= rem.drop_first());
            }
            let ghost pre = view_arena(*arena)[scope as int];
            match a.name {
                Some(nm) => {
                    arena.declare(scope, nm, a.value);
                },
                None => {},
            }
            proof {
                assert forall|m: Seq<char>|
                    #![trigger arg_binding(all, m)]
                    (match arg_binding(all, m) {
                        Some(v) => Some(v),
                        None => find_local(view_arena(*old(arena))[scope as int], m),
                    }) == (match arg_binding(view_args(arguments@), m) {
                        Some(v) => Some(v),
                        None => find_local(view_arena(*arena)[scope as int], m),
                    }) by {
                    lemma_arg_binding_first(rem, m);
                }
            }
        }
        proof {
            assert(view_args(arguments@).len() == 0) by {
                assert(arguments@.len() == 0);
            }
            assert forall|m: Seq<char>|
                #![trigger arg_binding(all, m)]
                find_local(view_arena(*final(arena))[scope as int], m) == (match arg_binding(
                    all,
                    m,
                ) {
                    Some(v) => Some(v),
                    None => find_local(view_arena(*old(arena))[scope as int], m),
                }) by {
                assert(arg_binding(view_args(arguments@), m) is None);
            }
        }
    }

    /// Runs the closure: fails with EnvironmentError when unbound and with
    /// EmptyClosureError when bound with no stages — no stage is spawned in
    /// either case. Otherwise a fresh child of the captured scope receives
    /// the named arguments, and the stages run strictly one after another,
    /// each fully joined before the next is spawned: the first stage reads
    /// the invocation's real input, the last writes its real output, and
    /// every other stage is wired to an empty input and the print sink, its
    /// rows surfaced to the user but never forwarded. A stage whose
    /// validation is rejected aborts the invocation with its ArgumentError;
    /// an error inside a running stage goes to the diagnostics sink and
    /// never changes this call's own result.
    pub fn spawn_and_execute(
        &self,
        arena: &mut ScopeArena,
        arguments: Vec<Argument>,
        input: InputStream,
        output: &mut OutputStream,
        printer: &mut Printer,
    ) -> (r: Result<(), Error>)
        requires
            wf_arena(view_arena(*old(arena))),
            self.env matches Some(e) ==> e < view_arena(*old(arena)).len(),
        ensures
            wf_arena(view_arena(*final(arena))),
            self.env is None ==> r == Err::<(), Error>(Error::EnvironmentError) && view_arena(
                *final(arena),
            ) == view_arena(*old(arena)) && final(printer).printed@ == old(printer).printed@
                && final(printer).errors@ == old(printer).errors@ && final(output).rows@ == old(
                output,
            ).rows@,
            self.env matches Some(e) ==> {
                let a0 = view_arena(*old(arena));
                let a1 = view_arena(*final(arena));
                &&& a1.len() == a0.len() + 1
                &&& (forall|q: int| 0 <= q < a0.len() ==> a1[q] == a0[q])
                &&& a1[a0.len() as int].parent == Some(e as int)
                &&& (forall|m: Seq<char>|
                    #![trigger arg_binding(view_args(arguments@), m)]
                    find_local(a1[a0.len() as int], m) == arg_binding(view_args(arguments@), m))
            },
            self.env is Some && self.job_definitions@.len() == 0 ==> r == Err::<(), Error>(
                Error::EmptyClosureError,
            ) && final(printer).printed@ == old(printer).printed@ && final(printer).errors@ == old(
                printer,
            ).errors@ && final(output).rows@ == old(output).rows@,
            self.env is Some && self.job_definitions@.len() > 0 ==> {
                let jobs = self.job_definitions@;
                let n = jobs.len() as int;
                let k = first_reject(jobs, input.types@);
                &&& (r is Ok) == (k == n)
                &&& (r matches Err(e2) ==> e2 == Error::ArgumentError)
                &&& view_rows(final(printer).printed@) == view_rows(old(printer).printed@)
                    + outs_concat(
                    jobs,
                    input.types@,
                    input.rows@,
                    if k < n - 1 {
                        k
                    } else {
                        n - 1
                    },
                )
                &&& final(printer).errors@ == old(printer).errors@ + errs_concat(
                    jobs,
                    input.types@,
                    input.rows@,
                    if k < n {
                        k
                    } else {
                        n
                    },
                )
                &&& k == n ==> view_rows(final(output).rows@) == view_rows(old(output).rows@)
                    + stage_out(jobs, input.types@, input.rows@, n - 1)
                &&& k < n ==> final(output).rows@ == old(output).rows@
            },
    {
        let ghost jobs = self.job_definitions@;
        let ghost t = input.types@;
        let ghost rws = input.rows@;
        let ghost a0 = view_arena(*old(arena));
        let env = match self.env {
            Some(e) => e,
            None => {
                return Err(Error::EnvironmentError);
            },
        };
        let child = arena.create_child(env);
        Closure::push_arguments_to_env(arena, child, arguments);
        let ghost a_mid = view_arena(*arena);
        let n = self.job_definitions.len();
        if n == 0 {
            return Err(Error::EmptyClosureError);
        }
        if n == 1 {
            let h = match self.job_definitions[0].spawn_and_execute(input) {
                Ok(h) => h,
                Err(e) => {
                    proof {
                        assert(first_reject(jobs, t) == 0);
                        assert(view_rows(printer.printed@) =~= view_rows(printer.printed@)
                            + outs_concat(jobs, t, rws, 0));
                        assert(printer.errors@ =~= printer.errors@ + errs_concat(jobs, t, rws, 0));
                    }
                    return Err(e);
                },
            };
            proof {
                assert(first_reject_from(jobs, t, 0) == first_reject_from(jobs, t, 1));
            }
            let ghost hf = h.failure;
            let rows = h.join(printer);
            output.send_all(rows);
            proof {
                lemma_view_rows_concat(old(output).rows@, rows@);
                reveal_with_fuel(outs_concat, 2);
                reveal_with_fuel(errs_concat, 2);
                assert(view_rows(rows@) == stage_out(jobs, t, rws, 0));
                assert(hf == stage_err(jobs, t, rws, 0));
                assert(view_rows(printer.printed@) =~= view_rows(printer.printed@) + outs_concat(
                    jobs,
                    t,
                    rws,
                    0,
                ));
                match hf {
                    Some(e) => {
                        assert(printer.errors@ =~= old(printer).errors@ + errs_concat(
                            jobs,
                            t,
                            rws,
                            1,
                        ));
                    },
                    None => {
                        assert(printer.errors@ =~= old(printer).errors@ + errs_concat(
                            jobs,
                            t,
                            rws,
                            1,
                        ));
                    },
                }
            }
            return Ok(());
        }
        // n >= 2: first stage reads the real input, writes to the print sink
        let h = match self.job_definitions[0].spawn_and_execute(input) {
            Ok(h) => h,
            Err(e) => {
                proof {
                    assert(first_reject(jobs, t) == 0);
                    assert(view_rows(printer.printed@) =~= view_rows(printer.printed@)
                        + outs_concat(jobs, t, rws, 0));
                    assert(printer.errors@ =~= printer.errors@ + errs_concat(jobs, t, rws, 0));
                }
                return Err(e);
            },
        };
        let ghost hf = h.failure;
            let rows = h.join(printer);
        printer.print_all(rows);
        proof {
            assert(first_reject_from(jobs, t, 0) == first_reject_from(jobs, t, 1));
            reveal_with_fuel(outs_concat, 2);
            reveal_with_fuel(errs_concat, 2);
            assert(view_rows(rows@) == stage_out(jobs, t, rws, 0));
            assert(hf == stage_err(jobs, t, rws, 0));
            lemma_view_rows_concat(old(printer).printed@, rows@);
            assert(view_rows(printer.printed@) =~= view_rows(old(printer).printed@) + outs_concat(
                jobs,
                t,
                rws,
                1,
            ));
            match hf {
                Some(e) => {
                    assert(printer.errors@ =~= old(printer).errors@ + errs_concat(jobs, t, rws, 1));
                },
                None => {
                    assert(printer.errors@ =~= old(printer).errors@ + errs_concat(jobs, t, rws, 1));
                },
            }
        }
        let mut i: usize = 1;
        while i < n - 1
            invariant
                2 <= n == self.job_definitions@.len(),
                1 <= i <= n - 1,
                jobs == self.job_definitions@,
                t == input.types@,
                rws == input.rows@,
                wf_arena(view_arena(*arena)),
                view_arena(*arena) == a_mid,
                a_mid.len() == view_arena(*old(arena)).len() + 1,
                forall|q: int|
                    0 <= q < view_arena(*old(arena)).len() ==> a_mid[q] == view_arena(
                        *old(arena),
                    )[q],
                self.env == Some(env as usize),
                a_mid[view_arena(*old(arena)).len() as int].parent == Some(env as int),
                first_reject_from(jobs, t, 0) == first_reject_from(jobs, t, i as int),
                view_rows(printer.printed@) == view_rows(old(printer).printed@) + outs_concat(
                    jobs,
                    t,
                    rws,
                    i as int,
                ),
                printer.errors@ == old(printer).errors@ + errs_concat(jobs, t, rws, i as int),
                output.rows@ == old(output).rows@,
            decreases n - 1 - i,
        {
            let e_in = empty_channel();
            proof {
                assert(e_in.types@ =~= Seq::<ColumnType>::empty());
                assert(e_in.rows@ =~= Seq::<Row>::empty());
            }
            let h = match self.job_definitions[i].spawn_and_execute(e_in) {
                Ok(h) => h,
                Err(e) => {
                    proof {
                        assert(!stage_accepts(jobs, t, i as int));
                        assert(first_reject_from(jobs, t, i as int) == i as int);
                    }
                    return Err(e);
                },
            };
            proof {
                assert(stage_accepts(jobs, t, i as int));
                assert(first_reject_from(jobs, t, i as int) == first_reject_from(
                    jobs,
                    t,
                    i + 1,
                ));
            }
            let ghost printed_pre = printer.printed@;
            let ghost hf = h.failure;
            let rows = h.join(printer);
            printer.print_all(rows);
            proof {
                lemma_view_rows_concat(printed_pre, rows@);
                assert(view_rows(rows@) == stage_out(jobs, t, rws, i as int));
                assert(view_rows(printer.printed@) =~= view_rows(old(printer).printed@)
                    + outs_concat(jobs, t, rws, i + 1));
                assert(hf == stage_err(jobs, t, rws, i as int));
                match hf {
                    Some(e) => {
                        assert(printer.errors@ =~= old(printer).errors@ + errs_concat(
                            jobs,
                            t,
                            rws,
                            i + 1,
                        ));
                    },
                    None => {
                        assert(printer.errors@ =~= old(printer).errors@ + errs_concat(
                            jobs,
                            t,
                            rws,
                            i + 1,
                        ));
                    },
                }
            }
            i = i + 1;
        }
        // last stage: empty input, the invocation's real output
        let e_in = empty_channel();
        proof {
            assert(e_in.types@ =~= Seq::<ColumnType>::empty());
            assert(e_in.rows@ =~= Seq::<Row>::empty());
        }
        let h = match self.job_definitions[n - 1].spawn_and_execute(e_in) {
            Ok(h) => h,
            Err(e) => {
                proof {
                    assert(!stage_accepts(jobs, t, n - 1));
                    assert(first_reject_from(jobs, t, n - 1) == n - 1);
                }
                return Err(e);
            },
        };
        proof {
            assert(stage_accepts(jobs, t, n - 1));
            assert(first_reject_from(jobs, t, n - 1) == first_reject_from(jobs, t, n as int));
        }
        let ghost errors_pre = printer.errors@;
        let ghost hf = h.failure;
            let rows = h.join(printer);
        output.send_all(rows);
        proof {
            lemma_view_rows_concat(old(output).rows@, rows@);
            assert(view_rows(rows@) == stage_out(jobs, t, rws, n - 1));
            assert(hf == stage_err(jobs, t, rws, n - 1));
            match hf {
                Some(e) => {
                    assert(printer.errors@ =~= old(printer).errors@ + errs_concat(
                        jobs,
                        t,
                        rws,
                        n as int,
                    ));
                },
                None => {
                    assert(printer.errors@ =~= old(printer).errors@ + errs_concat(
                        jobs,
                        t,
                        rws,
                        n as int,
                    ));
                },
            }
        }
        Ok(())
    }
}

/// Peeling the first argument off the binding fold: the later arguments
/// win, and the first one only matters when none of them binds `m`.
pub proof fn lemma_arg_binding_first(args: Seq<ArgVal>, m: Seq<char>)
    requires
        args.len() > 0,
    ensures
        arg_binding(args, m) == (match arg_binding(args.drop_first(), m) {
            Some(v) => Some(v),
            None => if args[0].name == Some(m) {
                Some(args[0].value)
            } else {
                None
            },
        }),
    decreases args.len(),
{
    if args.len() == 1 {
        assert(args.drop_first() =~= Seq::<ArgVal>::empty());
        assert(args.last() == args[0]);
    } else {
        lemma_arg_binding_first(args.drop_last(), m);
        assert(args.drop_last().drop_first() =~= args.drop_first().drop_last());
        assert(args.drop_first().last() == args.last());
        assert(args.drop_last()[0] == args[0]);
    }
}

} // verus!

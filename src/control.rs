//! Control-flow lowering of join points: a join point's body runs with its parameters
//! held in slots, and every jump to it stores new arguments into the slots and runs the
//! body again, so that local tail recursion becomes a loop.
use vstd::prelude::*;
use crate::arith::Exception;

verus! {

broadcast use {vstd::std_specs::vec::group_vec_axioms, vstd::seq::group_seq_axioms};

/// An integer expression over the parameters of a join point.
#[derive(Debug)]
pub enum Expr {
    Param(usize),
    Lit(i64),
    /// Checked addition: overflow raises.
    Add(Box<Expr>, Box<Expr>),
    /// Checked subtraction: overflow raises.
    Sub(Box<Expr>, Box<Expr>),
    /// One when the first is less than the second, else zero.
    Lt(Box<Expr>, Box<Expr>),
}

/// A statement of a join point's body.
#[derive(Debug)]
pub enum Stmt {
    /// Returns the value of the expression.
    Ret(Expr),
    /// Jumps to the join point with the values of the expressions as its arguments.
    Jump(Vec<Expr>),
    /// Runs the first statement when the condition is not zero, else the second.
    If(Expr, Box<Stmt>, Box<Stmt>),
    /// Raises a runtime error with the message of the given index.
    Fail(u64),
    /// Evaluates a call that may raise. When it returns, its result becomes one more
    /// parameter and the first statement runs; when it raises, the second statement runs
    /// as the handler of that exception.
    Invoke(Expr, Box<Stmt>, Box<Stmt>),
    /// Re-raises the exception being handled, continuing the unwind.
    Resume,
}

/// What one run of a body ends in: a result, or a jump with new arguments.
pub enum Step {
    Done(Result<i64, Exception>),
    Jump(Seq<i64>),
}

/// Whether `e` reads only the first `n` parameters.
pub open spec fn expr_wf(e: Expr, n: nat) -> bool
    decreases e,
{
    match e {
        Expr::Param(i) => i < n,
        Expr::Lit(_) => true,
        Expr::Add(a, b) => expr_wf(*a, n) && expr_wf(*b, n),
        Expr::Sub(a, b) => expr_wf(*a, n) && expr_wf(*b, n),
        Expr::Lt(a, b) => expr_wf(*a, n) && expr_wf(*b, n),
    }
}

/// Whether `s` reads only the first `n` parameters, jumps with `m` arguments, and
/// re-raises only inside a handler (`handling`).
pub open spec fn stmt_wf(s: Stmt, n: nat, m: nat, handling: bool) -> bool
    decreases s,
{
    match s {
        Stmt::Ret(e) => expr_wf(e, n),
        Stmt::Jump(es) => es@.len() == m && forall|i: int| 0 <= i < m ==> expr_wf(#[trigger] es@[i], n),
        Stmt::If(c, a, b) => expr_wf(c, n) && stmt_wf(*a, n, m, handling) && stmt_wf(*b, n, m, handling),
        Stmt::Fail(_) => true,
        Stmt::Invoke(c, pass, fail) => expr_wf(c, n) && stmt_wf(*pass, n + 1, m, handling) && stmt_wf(
            *fail,
            n,
            m,
            true,
        ),
        Stmt::Resume => handling,
    }
}

/// The value of `e` for the arguments `args`, or the exception it raises.
pub open spec fn eval_expr(e: Expr, args: Seq<i64>) -> Result<i64, Exception>
    decreases e,
{
    match e {
        Expr::Param(i) => Ok(args[i as int]),
        Expr::Lit(v) => Ok(v),
        Expr::Add(a, b) => match (eval_expr(*a, args), eval_expr(*b, args)) {
            (Ok(x), Ok(y)) => if i64::MIN <= x + y <= i64::MAX {
                Ok((x + y) as i64)
            } else {
                Err(Exception::Overflow)
            },
            (Err(x), _) => Err(x),
            (_, Err(y)) => Err(y),
        },
        Expr::Sub(a, b) => match (eval_expr(*a, args), eval_expr(*b, args)) {
            (Ok(x), Ok(y)) => if i64::MIN <= x - y <= i64::MAX {
                Ok((x - y) as i64)
            } else {
                Err(Exception::Overflow)
            },
            (Err(x), _) => Err(x),
            (_, Err(y)) => Err(y),
        },
        Expr::Lt(a, b) => match (eval_expr(*a, args), eval_expr(*b, args)) {
            (Ok(x), Ok(y)) => Ok(if x < y { 1i64 } else { 0i64 }),
            (Err(x), _) => Err(x),
            (_, Err(y)) => Err(y),
        },
    }
}

/// The values of the expressions `es[i..]`, or the first exception one of them raises.
pub open spec fn eval_args(es: Seq<Expr>, args: Seq<i64>) -> Result<Seq<i64>, Exception>
    decreases es.len(),
{
    if es.len() == 0 {
        Ok(Seq::empty())
    } else {
        match eval_expr(es[0], args) {
            Ok(v) => match eval_args(es.subrange(1, es.len() as int), args) {
                Ok(vs) => Ok(seq![v] + vs),
                Err(x) => Err(x),
            },
            Err(x) => Err(x),
        }
    }
}

/// What running `s` once with the arguments `args` ends in, `exn` being the exception
/// under handling, if any.
pub open spec fn step_in(s: Stmt, args: Seq<i64>, exn: Option<Exception>) -> Step
    decreases s,
{
    match s {
        Stmt::Ret(e) => Step::Done(eval_expr(e, args)),
        Stmt::Jump(es) => match eval_args(es@, args) {
            Ok(vs) => Step::Jump(vs),
            Err(x) => Step::Done(Err(x)),
        },
        Stmt::If(c, a, b) => match eval_expr(c, args) {
            Ok(v) => if v != 0 {
                step_in(*a, args, exn)
            } else {
                step_in(*b, args, exn)
            },
            Err(x) => Step::Done(Err(x)),
        },
        Stmt::Fail(m) => Step::Done(Err(Exception::RuntimeError(m))),
        Stmt::Invoke(c, pass, fail) => match eval_expr(c, args) {
            Ok(v) => step_in(*pass, args.push(v), exn),
            Err(x) => step_in(*fail, args, Some(x)),
        },
        Stmt::Resume => match exn {
            Some(x) => Step::Done(Err(x)),
            None => Step::Done(Err(Exception::RuntimeError(0))),
        },
    }
}

/// What running `s` once with the arguments `args` ends in.
pub open spec fn step(s: Stmt, args: Seq<i64>) -> Step {
    step_in(s, args, None)
}

/// The result of a join point with body `body` entered with `args`, written as direct
/// recursion: a jump calls the body again. `None` when more than `fuel` jumps are made.
pub open spec fn run_rec(body: Stmt, args: Seq<i64>, fuel: nat) -> Option<Result<i64, Exception>>
    decreases fuel,
{
    match step(body, args) {
        Step::Done(r) => Some(r),
        Step::Jump(next) => if fuel == 0 {
            None
        } else {
            run_rec(body, next, (fuel - 1) as nat)
        },
    }
}

/// The result of `Join`: the remainder runs first with the outer arguments; when it
/// jumps, the join point's body runs with the arguments of the jump, jumping back at
/// most `fuel` times.
pub open spec fn run_join_spec(
    remainder: Stmt,
    outer: Seq<i64>,
    body: Stmt,
    fuel: nat,
) -> Option<Result<i64, Exception>> {
    match step(remainder, outer) {
        Step::Done(r) => Some(r),
        Step::Jump(init) => run_rec(body, init, fuel),
    }
}

/// What one run of a body ended in, as the generated code holds it.
pub enum Next {
    Done(Result<i64, Exception>),
    Jump(Vec<i64>),
}

impl Next {
    /// The step this stands for.
    pub open spec fn model(self) -> Step {
        match self {
            Next::Done(r) => Step::Done(r),
            Next::Jump(v) => Step::Jump(v@),
        }
    }
}

/// Evaluates `e` with the arguments `args`.
pub fn eval(e: &Expr, args: &Vec<i64>) -> (r: Result<i64, Exception>)
    requires
        expr_wf(*e, args@.len()),
    ensures
        r == eval_expr(*e, args@),
    decreases e,
{
    match e {
        Expr::Param(i) => Ok(args[*i]),
        Expr::Lit(v) => Ok(*v),
        Expr::Add(a, b) => {
            let x = match eval(a, args) {
                Ok(x) => x,
                Err(x) => return Err(x),
            };
            let y = match eval(b, args) {
                Ok(y) => y,
                Err(y) => return Err(y),
            };
            match x.checked_add(y) {
                Some(z) => Ok(z),
                None => Err(Exception::Overflow),
            }
        },
        Expr::Sub(a, b) => {
            let x = match eval(a, args) {
                Ok(x) => x,
                Err(x) => return Err(x),
            };
            let y = match eval(b, args) {
                Ok(y) => y,
                Err(y) => return Err(y),
            };
            match x.checked_sub(y) {
                Some(z) => Ok(z),
                None => Err(Exception::Overflow),
            }
        },
        Expr::Lt(a, b) => {
            let x = match eval(a, args) {
                Ok(x) => x,
                Err(x) => return Err(x),
            };
            let y = match eval(b, args) {
                Ok(y) => y,
                Err(y) => return Err(y),
            };
            Ok(
                if x < y {
                    1
                } else {
                    0
                },
            )
        },
    }
}

/// The values of `es[i..]`, then the values of the rest, or the first exception.
pub proof fn lemma_eval_args_split(es: Seq<Expr>, args: Seq<i64>, i: int)
    requires
        0 <= i <= es.len(),
    ensures
        eval_args(es.subrange(i, es.len() as int), args) == (if i == es.len() {
            Ok(Seq::empty())
        } else {
            match eval_expr(es[i], args) {
                Ok(v) => match eval_args(es.subrange(i + 1, es.len() as int), args) {
                    Ok(vs) => Ok(seq![v] + vs),
                    Err(x) => Err(x),
                },
                Err(x) => Err(x),
            }
        }),
{
    let t = es.subrange(i, es.len() as int);
    if i < es.len() {
        assert(t.subrange(1, t.len() as int) =~= es.subrange(i + 1, es.len() as int));
    }
}

/// Evaluates the arguments of a jump, left to right.
fn eval_all(es: &Vec<Expr>, args: &Vec<i64>) -> (r: Result<Vec<i64>, Exception>)
    requires
        forall|i: int| 0 <= i < es@.len() ==> expr_wf(#[trigger] es@[i], args@.len()),
    ensures
        match r {
            Ok(v) => eval_args(es@, args@) == Ok::<Seq<i64>, Exception>(v@),
            Err(x) => eval_args(es@, args@) == Err::<Seq<i64>, Exception>(x),
        },
{
    let mut out: Vec<i64> = Vec::new();
    let mut i: usize = 0;
    assert(es@.subrange(0, es@.len() as int) =~= es@);
    while i < es.len()
        invariant
            i <= es@.len(),
            forall|j: int| 0 <= j < es@.len() ==> expr_wf(#[trigger] es@[j], args@.len()),
            eval_args(es@, args@) == match eval_args(es@.subrange(i as int, es@.len() as int), args@) {
                Ok(vs) => Ok(out@ + vs),
                Err(x) => Err(x),
            },
        decreases es.len() - i,
    {
        proof {
            lemma_eval_args_split(es@, args@, i as int);
        }
        match eval(&es[i], args) {
            Ok(v) => {
                proof {
                    match eval_args(es@.subrange(i + 1, es@.len() as int), args@) {
                        Ok(vs) => {
                            assert(out@ + (seq![v] + vs) =~= out@.push(v) + vs);
                        },
                        Err(_) => {},
                    }
                }
                out.push(v);
            },
            Err(x) => {
                return Err(x);
            },
        }
        i = i + 1;
    }
    proof {
        lemma_eval_args_split(es@, args@, es@.len() as int);
    }
    assert(out@ + Seq::<i64>::empty() =~= out@);
    Ok(out)
}

/// The values of well-formed jump arguments are as many as the expressions.
pub proof fn lemma_eval_args_len(es: Seq<Expr>, args: Seq<i64>)
    ensures
        eval_args(es, args) is Ok ==> eval_args(es, args)->Ok_0.len() == es.len(),
    decreases es.len(),
{
    if es.len() > 0 {
        lemma_eval_args_len(es.subrange(1, es.len() as int), args);
    }
}

/// Copies `args` with `v` appended.
fn pushed(args: &Vec<i64>, v: i64) -> (r: Vec<i64>)
    ensures
        r@ == args@.push(v),
{
    let mut r: Vec<i64> = Vec::new();
    let mut i: usize = 0;
    while i < args.len()
        invariant
            i <= args@.len(),
            r@ == args@.subrange(0, i as int),
        decreases args@.len() - i,
    {
        r.push(args[i]);
        i = i + 1;
        assert(r@ =~= args@.subrange(0, i as int));
    }
    assert(args@.subrange(0, args@.len() as int) =~= args@);
    r.push(v);
    r
}

/// Runs `s` once with the arguments `args`, `exn` being the exception under handling.
pub(crate) fn run_once(s: &Stmt, args: &Vec<i64>, exn: Option<Exception>, Ghost(m): Ghost<nat>) -> (r: Next)
    requires
        stmt_wf(*s, args@.len(), m, exn is Some),
    ensures
        r.model() == step_in(*s, args@, exn),
        r is Jump ==> r->Jump_0@.len() == m,
    decreases s,
{
    match s {
        Stmt::Ret(e) => Next::Done(eval(e, args)),
        Stmt::Jump(es) => {
            proof {
                lemma_eval_args_len(es@, args@);
            }
            match eval_all(es, args) {
                Ok(v) => Next::Jump(v),
                Err(x) => Next::Done(Err(x)),
            }
        },
        Stmt::If(c, a, b) => match eval(c, args) {
            Ok(v) => if v != 0 {
                run_once(a, args, exn, Ghost(m))
            } else {
                run_once(b, args, exn, Ghost(m))
            },
            Err(x) => Next::Done(Err(x)),
        },
        Stmt::Fail(code) => Next::Done(Err(Exception::RuntimeError(*code))),
        Stmt::Invoke(c, pass, fail) => match eval(c, args) {
            Ok(v) => {
                let extended = pushed(args, v);
                run_once(pass, &extended, exn, Ghost(m))
            },
            Err(x) => run_once(fail, args, Some(x), Ghost(m)),
        },
        Stmt::Resume => match exn {
            Some(x) => Next::Done(Err(x)),
            None => Next::Done(Err(Exception::RuntimeError(0))),
        },
    }
}

/// Whether a call that may raise needs its own unwind target: it does not when its
/// handler only re-raises, and it is then an ordinary call.
pub fn invoke_needs_landing_pad(fail: &Stmt) -> (r: bool)
    ensures
        r == !(*fail is Resume),
{
    match fail {
        Stmt::Resume => false,
        _ => true,
    }
}

/// A call whose handler only re-raises behaves as an ordinary call: its result goes on
/// to the next statement, and what it raises leaves unchanged.
pub proof fn lemma_reraise_is_plain_call(c: Expr, pass: Box<Stmt>, args: Seq<i64>, exn: Option<Exception>)
    ensures
        step_in(Stmt::Invoke(c, pass, Box::new(Stmt::Resume)), args, exn) == match eval_expr(c, args) {
            Ok(v) => step_in(*pass, args.push(v), exn),
            Err(x) => Step::Done(Err(x)),
        },
{
    reveal_with_fuel(step_in, 2);
}

/// Generates a join point: runs `remainder` with the outer arguments; each jump stores
/// its arguments in the parameter slots and runs `body`, which may jump again, at most
/// `fuel` times. Returns `None` when the jumps run out; runs in constant stack space
/// whatever the number of jumps.
pub fn run_join(remainder: &Stmt, outer: &Vec<i64>, body: &Stmt, arity: usize, fuel: u64) -> (r: Option<
    Result<i64, Exception>,
>)
    requires
        stmt_wf(*remainder, outer@.len(), arity as nat, false),
        stmt_wf(*body, arity as nat, arity as nat, false),
    ensures
        r == run_join_spec(*remainder, outer@, *body, fuel as nat),
{
    let mut slots = match run_once(remainder, outer, None, Ghost(arity as nat)) {
        Next::Done(x) => {
            return Some(x);
        },
        Next::Jump(v) => v,
    };
    let mut left = fuel;
    loop
        invariant
            slots@.len() == arity,
            stmt_wf(*body, arity as nat, arity as nat, false),
            run_rec(*body, slots@, left as nat) == run_join_spec(*remainder, outer@, *body, fuel as nat),
        decreases left,
    {
        match run_once(body, &slots, None, Ghost(arity as nat)) {
            Next::Done(x) => {
                return Some(x);
            },
            Next::Jump(v) => {
                if left == 0 {
                    return None;
                }
                left = left - 1;
                slots = v;
            },
        }
    }
}

/// A join point whose remainder jumps once with the initial arguments and whose body
/// returns without jumping yields the body's result for those initial arguments,
/// whatever the bound on jumps.
pub proof fn lemma_join_zero_iterations(
    remainder: Stmt,
    outer: Seq<i64>,
    body: Stmt,
    init: Seq<i64>,
    fuel: nat,
)
    requires
        step(remainder, outer) == Step::Jump(init),
        step(body, init) is Done,
    ensures
        run_join_spec(remainder, outer, body, fuel) == Some(step(body, init)->Done_0),
{
}

/// Once the recursive formulation has finished within a bound on jumps, a larger bound
/// gives the same result: the bound only cuts off runs that do not finish.
pub proof fn lemma_run_rec_more_fuel(body: Stmt, args: Seq<i64>, fuel: nat, more: nat)
    requires
        run_rec(body, args, fuel) is Some,
        fuel <= more,
    ensures
        run_rec(body, args, more) == run_rec(body, args, fuel),
    decreases fuel,
{
    match step(body, args) {
        Step::Done(_) => {},
        Step::Jump(next) => {
            lemma_run_rec_more_fuel(body, next, (fuel - 1) as nat, (more - 1) as nat);
        },
    }
}

} // verus!

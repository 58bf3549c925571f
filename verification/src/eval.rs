//! The evaluator: a form and an environment give a value or an error.
//!
//! A native function may return differently from one call to the next, so
//! what a form evaluates to is stated as a relation between the form, the
//! environment and a result: [`evaluates`].

use vstd::prelude::*;
use vstd::string::StringExecFns;
use crate::env::Env;
use crate::lexer::tokenize_spec;
use crate::printer::pr_str_spec;
use crate::reader::{read_str, read_str_spec};
use crate::types::{
    applied, error, failure, func, holds_native, lemma_model_list, may_return, models,
    native_returns, outcome, vector, vector_of,
    BeeArgs, BeeErr, BeeRet, BeeVal, ErrVal, Outcome, Val,
};

verus! {

/// The words of the failure of looking up the unbound name `name`.
pub open spec fn not_found(name: Seq<char>) -> Seq<char> {
    "'"@ + name + "' not found"@
}

/// What the symbol `name` evaluates to in `env`.
pub open spec fn lookup(env: Map<Seq<char>, Val>, name: Seq<char>) -> Outcome {
    if env.contains_key(name) {
        Ok(env[name])
    } else {
        failure(not_found(name))
    }
}

/// The error that stopped an evaluation in order, if one did.
pub open spec fn first_error(rs: Seq<Outcome>) -> Option<ErrVal> {
    if rs.len() > 0 && rs.last() is Err {
        Some(rs.last()->Err_0)
    } else {
        None
    }
}

/// The values of the results `rs`.
pub open spec fn values(rs: Seq<Outcome>) -> Seq<Val> {
    Seq::new(rs.len(), |i: int| rs[i]->Ok_0)
}

/// Whether `rs` has the shape of the results of evaluating `n` items from
/// left to right up to the first error: at most one result for each item,
/// none but the last an error, and an item is left out only after an error.
pub open spec fn in_order(n: nat, rs: Seq<Outcome>) -> bool {
    &&& rs.len() <= n
    &&& forall|i: int| 0 <= i < rs.len() - 1 ==> (#[trigger] rs[i]) is Ok
    &&& rs.len() < n ==> first_error(rs) is Some
}

/// Whether `r` may be the result of evaluating `ast` in `env`.
///
/// A symbol evaluates to what it is bound to. The elements of a vector are
/// evaluated from left to right into a new vector without metadata. The
/// empty list evaluates to itself. Of any other list all elements are
/// evaluated from left to right, and the first value is applied to the
/// others. The first error ends the evaluation and is its result. Every
/// other value evaluates to itself.
pub open spec fn evaluates(ast: Val, env: Map<Seq<char>, Val>, r: Outcome) -> bool
    decreases ast,
{
    match ast {
        Val::Sym(s) => r == lookup(env, s),
        Val::Vector(items, _) => exists|rs: Seq<Outcome>|
            {
                &&& #[trigger] in_order(items.len(), rs)
                &&& forall|i: int|
                    0 <= i < rs.len() && i < items.len() ==> evaluates(
                        items[i],
                        env,
                        #[trigger] rs[i],
                    )
                &&& r == (match first_error(rs) {
                    Some(e) => Err(e),
                    None => Ok(vector_of(values(rs))),
                })
            },
        Val::List(items, _) => if items.len() == 0 {
            r == Ok::<Val, ErrVal>(ast)
        } else {
            exists|rs: Seq<Outcome>|
                {
                    &&& #[trigger] in_order(items.len(), rs)
                    &&& forall|i: int|
                        0 <= i < rs.len() && i < items.len() ==> evaluates(
                            items[i],
                            env,
                            #[trigger] rs[i],
                        )
                    &&& match first_error(rs) {
                        Some(e) => r == Err::<Val, ErrVal>(e),
                        None => applied(values(rs)[0], values(rs).skip(1), r),
                    }
                }
        },
        _ => r == Ok::<Val, ErrVal>(ast),
    }
}

/// Whether `rs` may be the results of evaluating `items` in `env` from left
/// to right up to the first error.
pub open spec fn evaluated_in_order(
    items: Seq<Val>,
    env: Map<Seq<char>, Val>,
    rs: Seq<Outcome>,
) -> bool {
    &&& in_order(items.len(), rs)
    &&& forall|i: int|
        0 <= i < rs.len() && i < items.len() ==> evaluates(items[i], env, #[trigger] rs[i])
}

/// Whether `rs` may be the results behind `r`, the outcome of evaluating
/// `items` in order: their values where all are values, else their error.
pub open spec fn results_of(
    items: Seq<Val>,
    env: Map<Seq<char>, Val>,
    rs: Seq<Outcome>,
    r: Result<Vec<BeeVal>, BeeErr>,
) -> bool {
    &&& evaluated_in_order(items, env, rs)
    &&& match r {
        Ok(vals) => first_error(rs) is None && models(vals@) == values(rs),
        Err(e) => first_error(rs) == Some(e@),
    }
}

/// Evaluates `items` from left to right and stops at the first error.
pub fn eval_all(items: &Vec<BeeVal>, env: &Env) -> (r: Result<Vec<BeeVal>, BeeErr>)
    ensures
        exists|rs: Seq<Outcome>| #[trigger] results_of(models(items@), env@, rs, r),
    decreases models(items@), 0nat,
{
    let mut vals: Vec<BeeVal> = Vec::new();
    let ghost mut rs: Seq<Outcome> = Seq::empty();
    let mut i: usize = 0;
    while i < items.len()
        invariant
            i <= items.len(),
            rs.len() == i,
            vals.len() == i,
            forall|j: int| 0 <= j < i ==> evaluates(models(items@)[j], env@, #[trigger] rs[j]),
            forall|j: int| 0 <= j < i ==> (#[trigger] rs[j]) is Ok,
            models(vals@) == values(rs),
        decreases items.len() - i,
    {
        let ghost done = rs;
        let ghost old_vals = vals@;
        assert(models(items@)[i as int] == items[i as int]@);
        match eval(&items[i], env) {
            Ok(v) => {
                vals.push(v);
                proof {
                    rs = done.push(Ok(v@));
                    assert forall|j: int| 0 <= j < vals.len() implies models(vals@)[j] == values(
                        rs,
                    )[j] by {
                        if j < i {
                            assert(models(old_vals)[j] == old_vals[j]@);
                        }
                    }
                }
            },
            Err(e) => {
                proof {
                    rs = done.push(Err(e@));
                    assert(results_of(models(items@), env@, rs, Err(e)));
                }
                return Err(e);
            },
        }
        i += 1;
    }
    assert(results_of(models(items@), env@, rs, Ok(vals)));
    Ok(vals)
}

/// Evaluates `ast` in `env`.
pub fn eval(ast: &BeeVal, env: &Env) -> (r: BeeRet)
    ensures
        evaluates(ast@, env@, outcome(r)),
    decreases ast@, 1nat,
{
    match ast {
        BeeVal::Sym(sym) => {
            match env.get(sym.as_str()) {
                Some(v) => Ok(v.clone()),
                None => {
                    let mut msg = String::from_str("'");
                    msg.append(sym.as_str());
                    msg.append("' not found");
                    Err(BeeErr::ErrString(msg))
                },
            }
        },
        BeeVal::Vector(v, m) => {
            proof {
                lemma_model_list(*v, *m);
                assert(ast@->Vector_0 == models(v@));
            }
            let all = eval_all(v, env);
            proof {
                let rs = choose|rs: Seq<Outcome>| #[trigger]
                    results_of(models(v@), env@, rs, all);
                assert(in_order(models(v@).len(), rs));
            }
            match all {
                Ok(vals) => Ok(vector(vals)),
                Err(e) => Err(e),
            }
        },
        BeeVal::List(l, m) => {
            proof {
                lemma_model_list(*l, *m);
                assert(ast@->List_0 == models(l@));
            }
            if l.len() == 0 {
                return Ok(ast.clone());
            }
            let all = eval_all(l, env);
            proof {
                let rs = choose|rs: Seq<Outcome>| #[trigger]
                    results_of(models(l@), env@, rs, all);
                assert(in_order(models(l@).len(), rs));
            }
            match all {
                Ok(vals) => {
                    assert(vals.len() == models(vals@).len());
                    let mut args = vals;
                    let f = args.remove(0);
                    assert(models(args@) =~= models(vals@).skip(1));
                    f.apply(args)
                },
                Err(e) => Err(e),
            }
        },
        _ => Ok(ast.clone()),
    }
}

/// Reads the first form of `text`.
pub fn read(text: &str) -> (r: BeeRet)
    requires
        tokenize_spec(text@).len() > 0,
    ensures
        outcome(r) == read_str_spec(text@),
{
    read_str(text)
}

/// The readable text of `ast`.
pub fn print(ast: &BeeVal) -> (r: String)
    ensures
        r@ == pr_str_spec(ast@, true),
{
    ast.to_string()
}

/// Whether `r` may be the result of reading `text`, evaluating what was
/// read in `env` and printing the value: an error of the reader or of the
/// evaluator, or the readable text of the value.
pub open spec fn rep_outcome(
    text: Seq<char>,
    env: Map<Seq<char>, Val>,
    r: Result<Seq<char>, ErrVal>,
) -> bool {
    match read_str_spec(text) {
        Err(e) => r == Err::<Seq<char>, ErrVal>(e),
        Ok(ast) => exists|o: Outcome| #[trigger]
            evaluates(ast, env, o) && r == (match o {
                Ok(v) => Ok(pr_str_spec(v, true)),
                Err(e) => Err(e),
            }),
    }
}

/// Reads `text`, evaluates what was read in `env` and prints the value.
pub fn rep(text: &str, env: &Env) -> (r: Result<String, BeeErr>)
    requires
        tokenize_spec(text@).len() > 0,
    ensures
        rep_outcome(
            text@,
            env@,
            match r {
                Ok(s) => Ok(s@),
                Err(e) => Err(e@),
            },
        ),
{
    let ast = match read(text) {
        Ok(a) => a,
        Err(e) => {
            return Err(e);
        },
    };
    match eval(&ast, env) {
        Ok(exp) => Ok(print(&exp)),
        Err(e) => Err(e),
    }
}

/// The two integers that `args` begins with, where it does.
pub open spec fn int_args(args: Seq<Val>) -> Option<(i64, i64)> {
    if args.len() >= 2 && args[0] is Int && args[1] is Int {
        Some((args[0]->Int_0, args[1]->Int_0))
    } else {
        None
    }
}

pub open spec fn invalid_int_args() -> Seq<char> {
    "invalid int_op args"@
}

/// Applies `op` to the two integers that `a` begins with; anything else in
/// their place is rejected.
pub fn int_op<F: Fn(i64, i64) -> i64>(op: F, a: BeeArgs) -> (r: BeeRet)
    requires
        forall|x: i64, y: i64| call_requires(op, (x, y)),
    ensures
        match int_args(models(a@)) {
            Some((x, y)) => r matches Ok(v) && v@ matches Val::Int(z) && call_ensures(
                op,
                (x, y),
                z,
            ),
            None => outcome(r) == failure(invalid_int_args()),
        },
{
    if a.len() < 2 {
        return error("invalid int_op args");
    }
    match (&a[0], &a[1]) {
        (BeeVal::Int(a0), BeeVal::Int(a1)) => Ok(BeeVal::Int(op(*a0, *a1))),
        _ => error("invalid int_op args"),
    }
}

/// The sum of `x` and `y` in 64 bits, wrapping around at the ends.
pub open spec fn wrapped_sum(x: i64, y: i64) -> i64 {
    if x + y > i64::MAX {
        (x + y - 0x1_0000_0000_0000_0000) as i64
    } else if x + y < i64::MIN {
        (x + y + 0x1_0000_0000_0000_0000) as i64
    } else {
        (x + y) as i64
    }
}

/// What `+` gives for `args`: the wrapped sum of the two integers that
/// `args` begins with.
pub open spec fn int_add_outcome(args: Seq<Val>) -> Outcome {
    match int_args(args) {
        Some((x, y)) => Ok(Val::Int(wrapped_sum(x, y))),
        None => failure(invalid_int_args()),
    }
}

/// The native function of `+`: the wrapped sum of two integers.
pub fn int_add(a: BeeArgs) -> (r: BeeRet)
    ensures
        outcome(r) == int_add_outcome(models(a@)),
{
    let plus = |i: i64, j: i64| -> (k: i64)
        ensures
            k == wrapped_sum(i, j),
        { i.wrapping_add(j) };
    int_op(plus, a)
}

/// Binds `name` in `env` to the native function `f`.
pub fn register_builtin<F: Fn(BeeArgs) -> BeeRet + 'static>(env: &mut Env, name: &str, f: F)
    requires
        forall|args: BeeArgs| call_requires(f, (args,)),
    ensures
        exists|v: Val| holds_native(v, f) && #[trigger] old(env)@.insert(name@, v) == final(env)@,
{
    let v = func(f);
    env.insert(String::from_str(name), v);
    assert(old(env)@.insert(name@, v@) == env@);
}

/// Whether `v` holds a native function that adds as `+` does, and no
/// metadata.
pub open spec fn is_plus(v: Val) -> bool {
    &&& v matches Val::Func(native, meta)
    &&& *meta == Val::Nil
    &&& forall|args: Seq<Val>, r: Outcome| #[trigger]
        native_returns(native, args, r) ==> r == int_add_outcome(args)
}

/// The environment of a new session: `+` is bound to [`int_add`].
pub fn core_env() -> (env: Env)
    ensures
        env@.dom() == set!["+"@],
        is_plus(env@["+"@]),
{
    let mut env = Env::new();
    register_builtin(&mut env, "+", int_add);
    proof {
        let v = env@["+"@];
        assert(holds_native(v, int_add));
        assert forall|args: Seq<Val>, r: Outcome| #[trigger]
            native_returns(v->Func_0, args, r) implies r == int_add_outcome(args) by {
            assert(may_return(int_add, args, r));
        }
    }
    env
}

/// Where `+` is bound as in [`core_env`], the form `(+ x y)` of two
/// integers evaluates to their wrapped sum and to nothing else.
pub proof fn lemma_plus_of_two_integers(env: Map<Seq<char>, Val>, x: i64, y: i64, r: Outcome)
    requires
        env.contains_key("+"@),
        is_plus(env["+"@]),
        evaluates(crate::types::list_of(seq![Val::Sym("+"@), Val::Int(x), Val::Int(y)]), env, r),
    ensures
        r == Ok::<Val, ErrVal>(Val::Int(wrapped_sum(x, y))),
{
    let items = seq![Val::Sym("+"@), Val::Int(x), Val::Int(y)];
    let rs = choose|rs: Seq<Outcome>|
        {
            &&& #[trigger] in_order(items.len(), rs)
            &&& forall|i: int|
                0 <= i < rs.len() && i < items.len() ==> evaluates(items[i], env, #[trigger] rs[i])
            &&& match first_error(rs) {
                Some(e) => r == Err::<Val, ErrVal>(e),
                None => applied(values(rs)[0], values(rs).skip(1), r),
            }
        };
    assert forall|i: int| 0 <= i < rs.len() implies (#[trigger] rs[i]) is Ok by {
        assert(evaluates(items[i], env, rs[i]));
    }
    assert(rs.len() == 3);
    assert(evaluates(items[0], env, rs[0]));
    assert(evaluates(items[1], env, rs[1]));
    assert(evaluates(items[2], env, rs[2]));
    assert(values(rs).skip(1) =~= seq![Val::Int(x), Val::Int(y)]);
}

} // verus!

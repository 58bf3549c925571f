//! The values of the language, the errors, and their mathematical models.

use vstd::prelude::*;
use std::rc::Rc;
use vstd::string::StringExecFns;
use crate::printer::pr_str_spec;

verus! {

/// A native function: a callable handle that takes the evaluated arguments
/// and gives a value or an error.
///
/// The handle is opaque to the verifier, which takes neither function
/// pointers nor a type of values that holds functions over itself. What a
/// call may return is spoken of through [`native_returns`].
#[verifier::external_body]
pub struct NativeFn {
    f: Rc<dyn Fn(Vec<BeeVal>) -> Result<BeeVal, BeeErr>>,
}

/// A value of the language.
pub enum BeeVal {
    Nil,
    Bool(bool),
    Int(i64),
    /// A string; a keyword is a string that begins with [`KEYWORD_MARK`].
    Str(String),
    Sym(String),
    /// The elements, and the metadata attached to the list.
    List(Rc<Vec<BeeVal>>, Rc<BeeVal>),
    /// The elements, and the metadata attached to the vector.
    Vector(Rc<Vec<BeeVal>>, Rc<BeeVal>),
    /// A native function, and the metadata attached to it.
    Func(NativeFn, Rc<BeeVal>),
}

/// What a stage reports in place of a value.
pub enum BeeErr {
    /// A failure described in words.
    ErrString(String),
    /// A value raised as an error.
    ErrBeeVal(BeeVal),
}

/// The arguments of a call.
pub type BeeArgs = Vec<BeeVal>;

/// A value, or the error in its place.
pub type BeeRet = Result<BeeVal, BeeErr>;

/// The first character of every keyword's text.
pub const KEYWORD_MARK: char = '\u{29e}';

/// The mathematical model of a [`BeeVal`]: text is a sequence of characters
/// and the elements of a list or vector are a sequence of models.
pub enum Val {
    Nil,
    Bool(bool),
    Int(i64),
    Str(Seq<char>),
    Sym(Seq<char>),
    List(Seq<Val>, Box<Val>),
    Vector(Seq<Val>, Box<Val>),
    Func(NativeFn, Box<Val>),
}

/// The mathematical model of a [`BeeErr`].
pub enum ErrVal {
    Text(Seq<char>),
    Value(Val),
}

/// The model of a result.
pub type Outcome = Result<Val, ErrVal>;

/// The model of the value `v`.
pub open spec fn model(v: BeeVal) -> Val
    decreases v,
{
    match v {
        BeeVal::Nil => Val::Nil,
        BeeVal::Bool(b) => Val::Bool(b),
        BeeVal::Int(i) => Val::Int(i),
        BeeVal::Str(s) => Val::Str(s@),
        BeeVal::Sym(s) => Val::Sym(s@),
        BeeVal::List(l, m) => Val::List(
            Seq::new(l.len() as nat, |i: int| if 0 <= i < l.len() { model(l[i]) } else { Val::Nil }),
            Box::new(model(*m)),
        ),
        BeeVal::Vector(l, m) => Val::Vector(
            Seq::new(l.len() as nat, |i: int| if 0 <= i < l.len() { model(l[i]) } else { Val::Nil }),
            Box::new(model(*m)),
        ),
        BeeVal::Func(f, m) => Val::Func(f, Box::new(model(*m))),
    }
}

impl View for BeeVal {
    type V = Val;

    open spec fn view(&self) -> Val {
        model(*self)
    }
}

impl View for BeeErr {
    type V = ErrVal;

    open spec fn view(&self) -> ErrVal {
        match *self {
            BeeErr::ErrString(s) => ErrVal::Text(s@),
            BeeErr::ErrBeeVal(v) => ErrVal::Value(v@),
        }
    }
}

/// Whether the native function behind `f`, called with arguments whose
/// models are `args`, may return a result whose model is `r`.
pub uninterp spec fn native_returns(f: NativeFn, args: Seq<Val>, r: Outcome) -> bool;

/// Whether `f`, called with arguments whose models are `args`, may return a
/// result whose model is `r`.
pub open spec fn may_return<F: Fn(BeeArgs) -> BeeRet>(f: F, args: Seq<Val>, r: Outcome) -> bool {
    exists|a: BeeArgs, x: BeeRet| models(a@) == args && outcome(x) == r && call_ensures(f, (a,), x)
}

/// Whether `v` holds a native function that returns only what `f` may
/// return, and no metadata.
pub open spec fn holds_native<F: Fn(BeeArgs) -> BeeRet>(v: Val, f: F) -> bool {
    &&& v matches Val::Func(native, meta)
    &&& *meta == Val::Nil
    &&& forall|args: Seq<Val>, r: Outcome| #[trigger]
        native_returns(native, args, r) ==> may_return(f, args, r)
}

/// The models of the values of `s`, in order.
pub open spec fn models(s: Seq<BeeVal>) -> Seq<Val> {
    Seq::new(s.len(), |i: int| s[i]@)
}

/// The model of the result `r`.
pub open spec fn outcome(r: BeeRet) -> Outcome {
    match r {
        Ok(v) => Ok(v@),
        Err(e) => Err(e@),
    }
}

/// The failure described by the words `s`.
pub open spec fn failure(s: Seq<char>) -> Outcome {
    Err(ErrVal::Text(s))
}

/// The list of `items` with no metadata.
pub open spec fn list_of(items: Seq<Val>) -> Val {
    Val::List(items, Box::new(Val::Nil))
}

/// The vector of `items` with no metadata.
pub open spec fn vector_of(items: Seq<Val>) -> Val {
    Val::Vector(items, Box::new(Val::Nil))
}

/// The model of a list is made of the models of its elements.
pub proof fn lemma_model_list(l: Rc<Vec<BeeVal>>, m: Rc<BeeVal>)
    ensures
        BeeVal::List(l, m)@ == Val::List(models(l@), Box::new(m@)),
        BeeVal::Vector(l, m)@ == Val::Vector(models(l@), Box::new(m@)),
{
    match model(BeeVal::List(l, m)) {
        Val::List(items, _) => {
            assert(items =~= models(l@));
        },
        _ => {},
    }
    match model(BeeVal::Vector(l, m)) {
        Val::Vector(items, _) => {
        },
        _ => {},
    }
}

/// `Rc::clone` of the standard library gives a second pointer to the same
/// allocation, so the value behind the result is the value behind `p`.
#[verifier::external_body]
pub(crate) fn share<T>(p: &Rc<T>) -> (r: Rc<T>)
    ensures
        r == *p,
{
    Rc::clone(p)
}

impl NativeFn {
    /// Makes a handle for `f`, which must accept every argument list. The
    /// body moves `f` behind an `Rc`, by `Rc::new`: calling the handle is
    /// calling `f`, so the handle returns only what `f` may return.
    #[verifier::external_body]
    pub(crate) fn new<F: Fn(Vec<BeeVal>) -> Result<BeeVal, BeeErr> + 'static>(f: F) -> (r: NativeFn)
        requires
            forall|args: Vec<BeeVal>| call_requires(f, (args,)),
        ensures
            forall|args: Seq<Val>, out: Outcome| #[trigger]
                native_returns(r, args, out) ==> may_return(f, args, out),
    {
        NativeFn { f: Rc::new(f) }
    }

    /// Calls the function behind the handle with `args`. The result is
    /// whatever that function returns for them: one of the results that it
    /// may return, and no more is claimed of it.
    #[verifier::external_body]
    pub(crate) fn call(&self, args: Vec<BeeVal>) -> (r: Result<BeeVal, BeeErr>)
        ensures
            native_returns(*self, models(args@), outcome(r)),
    {
        (self.f)(args)
    }

    /// A second handle for the same function, by `Rc::clone`.
    #[verifier::external_body]
    pub(crate) fn duplicate(&self) -> (r: NativeFn)
        ensures
            r == *self,
    {
        NativeFn { f: Rc::clone(&self.f) }
    }
}

impl Clone for BeeVal {
    /// A copy that shares the elements of lists and vectors with `self`.
    fn clone(&self) -> (r: Self)
        ensures
            r == *self,
    {
        match self {
            BeeVal::Nil => BeeVal::Nil,
            BeeVal::Bool(b) => BeeVal::Bool(*b),
            BeeVal::Int(i) => BeeVal::Int(*i),
            BeeVal::Str(s) => BeeVal::Str(s.clone()),
            BeeVal::Sym(s) => BeeVal::Sym(s.clone()),
            BeeVal::List(l, m) => BeeVal::List(share(l), share(m)),
            BeeVal::Vector(l, m) => BeeVal::Vector(share(l), share(m)),
            BeeVal::Func(f, m) => BeeVal::Func(f.duplicate(), share(m)),
        }
    }
}

/// The list of `items`, with no metadata.
pub fn list(items: Vec<BeeVal>) -> (r: BeeVal)
    ensures
        r@ == list_of(models(items@)),
{
    let l = Rc::new(items);
    let m = Rc::new(BeeVal::Nil);
    proof {
        lemma_model_list(l, m);
    }
    BeeVal::List(l, m)
}

/// The vector of `items`, with no metadata.
pub fn vector(items: Vec<BeeVal>) -> (r: BeeVal)
    ensures
        r@ == vector_of(models(items@)),
{
    let l = Rc::new(items);
    let m = Rc::new(BeeVal::Nil);
    proof {
        lemma_model_list(l, m);
    }
    BeeVal::Vector(l, m)
}

/// The words of the failure that `hash_map` reports.
pub open spec fn hash_map_unsupported() -> Seq<char> {
    "Hash maps are not supported"@
}

/// Hash maps have no construction rule: every call is rejected.
pub fn hash_map(args: BeeArgs) -> (r: BeeRet)
    ensures
        outcome(r) == failure(hash_map_unsupported()),
{
    error("Hash maps are not supported")
}

/// The words of the failure of applying what is no function.
pub open spec fn not_a_function() -> Seq<char> {
    "Attempt to call non function"@
}

/// Whether `r` may be the result of applying `f` to `args`: what the
/// native function may return for `args` where `f` holds one; nothing else
/// can be applied.
pub open spec fn applied(f: Val, args: Seq<Val>, r: Outcome) -> bool {
    match f {
        Val::Func(native, _) => native_returns(native, args, r),
        _ => r == failure(not_a_function()),
    }
}

impl BeeVal {
    /// Applies `self` to `args`. A native function is called with `args`
    /// and its result handed back as it is; any other value cannot be
    /// applied.
    pub fn apply(&self, args: BeeArgs) -> (r: BeeRet)
        ensures
            applied(self@, models(args@), outcome(r)),
    {
        match self {
            BeeVal::Func(f, _) => f.call(args),
            _ => error("Attempt to call non function"),
        }
    }
}

impl BeeVal {
    /// The readable text of `self`.
    pub fn to_string(&self) -> (r: String)
        ensures
            r@ == pr_str_spec(self@, true),
    {
        self.pr_str(true)
    }
}

/// What is shown for the error `e`: its words, or the readable text of the
/// value that it carries.
pub open spec fn error_text(e: ErrVal) -> Seq<char> {
    match e {
        ErrVal::Text(s) => s,
        ErrVal::Value(v) => pr_str_spec(v, true),
    }
}

/// What is shown for the error `e`.
pub fn format_error(e: BeeErr) -> (r: String)
    ensures
        r@ == error_text(e@),
{
    match e {
        BeeErr::ErrString(s) => s,
        BeeErr::ErrBeeVal(mv) => mv.pr_str(true),
    }
}

/// The failure described by `s`.
pub fn error(s: &str) -> (r: BeeRet)
    ensures
        outcome(r) == failure(s@),
{
    Err(BeeErr::ErrString(String::from_str(s)))
}

/// The value that holds the native function `f`, with no metadata.
pub fn func<F: Fn(BeeArgs) -> BeeRet + 'static>(f: F) -> (r: BeeVal)
    requires
        forall|args: BeeArgs| call_requires(f, (args,)),
    ensures
        holds_native(r@, f),
{
    proof {
        reveal_with_fuel(model, 2);
    }
    BeeVal::Func(NativeFn::new(f), Rc::new(BeeVal::Nil))
}

} // verus!

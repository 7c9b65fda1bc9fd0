//! The reduction engine: one step of a thunk, an encode drained to data,
//! and a handle normalized to a value.

use vstd::prelude::*;
use vstd::string::StringSliceAdditionalSpecFns;
use crate::names::{
    failure, BlobName, Data, Encode, Handle, Object, RuntimeValue, Thunk, TreeName, Value,
};
use crate::store::{rank, Store};

verus! {

/// What a procedure or a selection hands back: a finished value, the
/// content of a new blob or of a new tree (with its tag) for the store to
/// name, or a failure.
#[derive(Debug)]
pub enum Outcome {
    Value(RuntimeValue),
    Blob(Vec<u8>),
    Tree(Vec<Handle>, bool),
    Failure(Data),
}

/// The collaborators that apply procedures and answer selections. They read
/// the store and say what is to be made; nothing is promised of what they
/// hand back.
pub trait Backend {
    /// Applies the procedure of a combination whose elements are all fully
    /// evaluated.
    fn apply(&self, store: &Store, combination: TreeName) -> (r: Outcome)
        requires
            store.wf(),
            store.evaluated(accessible(combination)),
    ;

    /// Answers a selection.
    fn select(&self, store: &Store, spec: TreeName) -> (r: Outcome)
        requires
            store.wf(),
    ;
}

/// The handle of a tree name as an accessible object.
pub open spec fn accessible(t: TreeName) -> Handle {
    Handle::Data(Data::Object(Object::Tree(t)))
}

/// Whether two stores hold the same content.
pub open spec fn unchanged(before: Store, after: Store) -> bool {
    after.trees() == before.trees() && after.blobs() == before.blobs()
}

/// What settling an outcome gives. A finished value and a failure pass
/// through and the store stays as it is. The content of a new blob is
/// named in the store. The content of a new tree is named with its tag,
/// unless the tree is too long or has an accessible tree among its elements
/// that the store does not hold: that is a failure.
pub open spec fn settles(
    before: Store,
    outcome: Outcome,
    r: Result<RuntimeValue, Data>,
    after: Store,
) -> bool {
    match outcome {
        Outcome::Value(v) => r == Ok::<RuntimeValue, Data>(v) && unchanged(before, after),
        Outcome::Failure(d) => r == Err::<RuntimeValue, Data>(d) && unchanged(before, after),
        Outcome::Blob(bytes) => {
            &&& r matches Ok(RuntimeValue::Data(Data::Object(Object::Blob(b))))
            &&& after.names_blob(b, bytes@)
            &&& after.trees() == before.trees()
        },
        Outcome::Tree(elems, tag) => {
            let fits = elems@.len() <= u32::MAX && forall|i: int|
                0 <= i < elems@.len() ==> before.grounded(#[trigger] elems@[i]);
            match r {
                Ok(RuntimeValue::Data(Data::Object(Object::Tree(t)))) => {
                    &&& fits
                    &&& after.tree_at(t.name) == Some(elems@)
                    &&& after.describes(t)
                    &&& t.tag == tag
                    &&& after.blobs() == before.blobs()
                },
                Ok(_) => false,
                Err(e) => !fits && unchanged(before, after) && e.reports(
                    if elems@.len() > u32::MAX {
                        "tree too large".spec_bytes()
                    } else {
                        "tree element not held".spec_bytes()
                    },
                ),
            }
        },
    }
}

/// Turns an outcome into the result of a step, naming new content in the
/// store.
pub fn settle(store: &mut Store, outcome: Outcome) -> (r: Result<RuntimeValue, Data>)
    requires
        old(store).wf(),
    ensures
        final(store).wf(),
        final(store).extends(*old(store)),
        settles(*old(store), outcome, r, *final(store)),
{
    match outcome {
        Outcome::Value(v) => Ok(v),
        Outcome::Failure(d) => Err(d),
        Outcome::Blob(bytes) => Ok(
            RuntimeValue::Data(Data::Object(Object::Blob(BlobName::create(store, bytes)))),
        ),
        Outcome::Tree(elems, tag) => match TreeName::create(store, elems, tag) {
            Ok(t) => Ok(RuntimeValue::Data(Data::Object(Object::Tree(t)))),
            Err(e) => Err(e),
        },
    }
}

/// Whether `r` and the store `after` are what settling gives for an outcome
/// that the collaborator hands back when it is asked to apply `combination`
/// on the store `before`.
pub open spec fn applies<B: Backend>(
    backend: &B,
    before: Store,
    combination: TreeName,
    outcome: Outcome,
    r: Result<RuntimeValue, Data>,
    after: Store,
) -> bool {
    call_ensures(B::apply, (backend, &before, combination), outcome) && settles(
        before,
        outcome,
        r,
        after,
    )
}

/// Whether `r` and the store `after` are what settling gives for an outcome
/// that the collaborator hands back when it is asked the selection `spec`
/// on the store `before`.
pub open spec fn selects<B: Backend>(
    backend: &B,
    before: Store,
    spec: TreeName,
    outcome: Outcome,
    r: Result<RuntimeValue, Data>,
    after: Store,
) -> bool {
    call_ensures(B::select, (backend, &before, spec), outcome) && settles(
        before,
        outcome,
        r,
        after,
    )
}

/// Whether `r` and the store `after` are what applying gives for the
/// combination `c` on the store `before`: the elements of `c` were
/// evaluated, which led to the store `mid` and to the combination `c2` of
/// the results, with the tag of `c`; the collaborator was asked to apply
/// `c2` on `mid`, and `outcome`, which it handed back, was settled.
pub open spec fn applied_to<B: Backend>(
    backend: &B,
    before: Store,
    c: TreeName,
    mid: Store,
    c2: TreeName,
    outcome: Outcome,
    r: Result<RuntimeValue, Data>,
    after: Store,
) -> bool {
    &&& mid.wf()
    &&& mid.extends(before)
    &&& c2.tag == c.tag
    &&& mid.describes(c2)
    &&& mid.evaluated(accessible(c2))
    &&& before.tree_at(c.name) matches Some(from) && mid.tree_at(c2.name) matches Some(to)
        && kept_in_place(before, from, to)
    &&& applies(backend, mid, c2, outcome, r, after)
}

/// Applies the procedure that an evaluated combination describes: the
/// collaborator is asked once, on the store as it is and with that
/// combination, and what it hands back is settled.
pub fn apply<B: Backend>(backend: &B, store: &mut Store, evaluated_combination: TreeName) -> (r:
    Result<RuntimeValue, Data>)
    requires
        old(store).wf(),
        old(store).evaluated(accessible(evaluated_combination)),
    ensures
        final(store).wf(),
        final(store).extends(*old(store)),
        exists|outcome: Outcome| #[trigger]
            applies(backend, *old(store), evaluated_combination, outcome, r, *final(store)),
{
    let outcome = backend.apply(store, evaluated_combination);
    let ghost handed = outcome;
    let r = settle(store, outcome);
    assert(applies(backend, *old(store), evaluated_combination, handed, r, *store));
    r
}

/// Answers a selection: the collaborator is asked once, on the store as it
/// is and with that selection, and what it hands back is settled.
pub fn select<B: Backend>(backend: &B, store: &mut Store, spec: TreeName) -> (r: Result<
    RuntimeValue,
    Data,
>)
    requires
        old(store).wf(),
    ensures
        final(store).wf(),
        final(store).extends(*old(store)),
        exists|outcome: Outcome| #[trigger]
            selects(backend, *old(store), spec, outcome, r, *final(store)),
{
    let outcome = backend.select(store, spec);
    let ghost handed = outcome;
    let r = settle(store, outcome);
    assert(selects(backend, *old(store), spec, handed, r, *store));
    r
}

/// What an accessibility request makes of data: nothing without a request;
/// the lowered reference where a reference is asked for; where an object is
/// asked for, an object as it is and a reference lifted, or a failure if the
/// store does not hold what the reference names.
pub open spec fn adjusts(
    store: Store,
    data: Data,
    accessibility: Option<bool>,
    r: Result<Data, Data>,
) -> bool {
    match accessibility {
        None => r == Ok::<Data, Data>(data),
        Some(false) => r == Ok::<Data, Data>(Data::Ref(data.lowered())),
        Some(true) => match data {
            Data::Object(x) => r == Ok::<Data, Data>(Data::Object(x)),
            Data::Ref(x) => if store.knows(x) {
                r matches Ok(Data::Object(o)) && store.lifts(x, o)
            } else {
                r matches Err(e) && e.reports("content not held".spec_bytes())
            },
        },
    }
}

/// Adjusts the accessibility of data as an encode requests it.
pub fn adjust(store: &Store, data: Data, accessibility: Option<bool>) -> (r: Result<Data, Data>)
    requires
        store.wf(),
    ensures
        adjusts(*store, data, accessibility, r),
{
    match accessibility {
        None => Ok(data),
        Some(true) => {
            let held: bool = match data {
                Data::Ref(x) => store.is_known(&x),
                Data::Object(_) => true,
            };
            if held {
                Ok(Data::Object(data.lift(store)))
            } else {
                Err(failure("content not held"))
            }
        },
        Some(false) => Ok(Data::Ref(data.lower())),
    }
}

/// What naming a tree of `content` with `tag` gives, from the store
/// `before` to the store `after`: the name that describes the content,
/// which is stored unless it was held; or, with nothing stored, a failure
/// where the tree is too long or an accessible tree among its elements is
/// not held.
pub open spec fn named(
    before: Store,
    content: Seq<Handle>,
    tag: bool,
    r: Result<TreeName, Data>,
    after: Store,
) -> bool {
    &&& after.wf()
    &&& after.extends(before)
    &&& after.blobs() == before.blobs()
    &&& match r {
        Ok(t) => {
            &&& content.len() <= u32::MAX
            &&& forall|i: int| 0 <= i < content.len() ==> before.grounded(#[trigger] content[i])
            &&& after.tree_at(t.name) == Some(content)
            &&& after.describes(t)
            &&& t.tag == tag
            &&& after.trees() == if before.holds_tree(content) {
                before.trees()
            } else {
                before.trees().push(content)
            }
        },
        Err(e) => {
            &&& after.trees() == before.trees()
            &&& if content.len() > u32::MAX {
                e.reports("tree too large".spec_bytes())
            } else {
                &&& e.reports("tree element not held".spec_bytes())
                &&& exists|i: int| 0 <= i < content.len() && !before.grounded(#[trigger] content[i])
            }
        },
    }
}

/// What is asked of the engine: one step of a thunk; the execution of a
/// thunk with a request for accessibility; the evaluation of a handle; the
/// evaluation of the elements of a tree; the evaluation of the elements of
/// a sequence from an index on, below a rank, with the values so far.
pub enum Goal {
    Think(Thunk),
    Run(Thunk, Option<bool>),
    Eval(Handle),
    Tree(TreeName),
    Elements(Seq<Handle>, nat, int, Seq<Handle>),
}

/// What the engine gives for a goal.
pub enum Reached {
    Step(Result<RuntimeValue, Data>),
    Data(Result<Data, Data>),
    Value(Result<Value, Data>),
    Name(Result<TreeName, Data>),
    Values(Result<Seq<Handle>, Data>),
}

/// The budget that bounds a goal: a step may use all of it, and stands
/// one above the execution that pays for it.
pub open spec fn effort(goal: Goal, budget: u64) -> int {
    match goal {
        Goal::Think(_) => budget + 1,
        _ => budget as int,
    }
}

/// How high a goal stands among those with the same budget.
pub open spec fn height(goal: Goal) -> int {
    match goal {
        Goal::Think(_) => 0int,
        Goal::Run(_, _) => 1int,
        Goal::Eval(h) => 2 * (rank(h) as int) + 2,
        Goal::Tree(t) => 2 * (rank(accessible(t)) as int) + 1,
        Goal::Elements(_, bound, _, _) => 2 * (bound as int),
    }
}

/// The elements that are left to evaluate, and one.
pub open spec fn width(goal: Goal) -> int {
    match goal {
        Goal::Elements(elems, _, i, _) => if 0 <= i < elems.len() {
            elems.len() - i + 1
        } else {
            1int
        },
        _ => 0int,
    }
}

/// Names what lies between two parts of the engine's work: a result, the
/// store and the budget at that point. It holds of all of them.
pub open spec fn via<T>(result: T, mid: Store, rest: u64) -> bool {
    true
}

/// Whether the engine, asked for `goal` on the store `before` with
/// `budget` units, gives `reached` and leaves the store `after` and `left`
/// units. The relations `thinks`, `runs`, `evals`, `evals_tree` and `maps`
/// say in words what each goal asks.
pub open spec fn holds<B: Backend>(
    backend: &B,
    before: Store,
    budget: u64,
    goal: Goal,
    reached: Reached,
    after: Store,
    left: u64,
) -> bool
    decreases effort(goal, budget), height(goal), width(goal),
{
    match (goal, reached) {
        (Goal::Think(thunk), Reached::Step(r)) => {
            &&& after.wf()
            &&& after.extends(before)
            &&& left <= budget
            &&& match thunk {
                Thunk::Identification(x) => r == Ok::<RuntimeValue, Data>(RuntimeValue::Data(x))
                    && unchanged(before, after) && left == budget,
                Thunk::Selection(q) => left == budget && exists|outcome: Outcome| #[trigger]
                    selects(backend, before, q, outcome, r, after),
                Thunk::Application(c) => {
                    &&& before.tree_at(c.name).is_none() ==> (r matches Err(x) && x.reports(
                        "content not held".spec_bytes(),
                    ))
                    &&& exists|u: Result<TreeName, Data>, mid: Store| #[trigger]
                        via(u, mid, left) && holds(
                            backend,
                            before,
                            budget,
                            Goal::Tree(c),
                            Reached::Name(u),
                            mid,
                            left,
                        ) && match u {
                            Err(x) => r == Err::<RuntimeValue, Data>(x) && after == mid,
                            Ok(c2) => exists|outcome: Outcome| #[trigger]
                                applies(backend, mid, c2, outcome, r, after),
                        }
                    &&& r is Err || exists|mid: Store, c2: TreeName, outcome: Outcome| #[trigger]
                        applied_to(backend, before, c, mid, c2, outcome, r, after)
                    &&& before.tree_at(c.name) matches Some(elems) ==> (all_settled(before, elems)
                        ==> left == budget && exists|mid: Store, c2: TreeName, outcome: Outcome|
                        unchanged(before, mid) && c2.name == c.name && #[trigger] applied_to(
                            backend,
                            before,
                            c,
                            mid,
                            c2,
                            outcome,
                            r,
                            after,
                        ))
                    &&& before.evaluated(accessible(c)) ==> {
                        &&& left == budget
                        &&& exists|outcome: Outcome| #[trigger] settles(before, outcome, r, after)
                        &&& exists|mid: Store, outcome: Outcome|
                            unchanged(before, mid) && #[trigger] applies(
                                backend,
                                mid,
                                c,
                                outcome,
                                r,
                                after,
                            )
                    }
                },
            }
        },
        (Goal::Run(thunk, accessibility), Reached::Data(r)) => {
            if budget == 0 {
                r matches Err(x) && x.reports("out of fuel".spec_bytes()) && after == before && left
                    == 0
            } else {
                exists|step: Result<RuntimeValue, Data>, mid: Store, rest: u64| #[trigger]
                    via(step, mid, rest) && holds(
                        backend,
                        before,
                        (budget - 1) as u64,
                        Goal::Think(thunk),
                        Reached::Step(step),
                        mid,
                        rest,
                    ) && rest < budget && match step {
                        Ok(RuntimeValue::Thunk(next)) => holds(
                            backend,
                            mid,
                            rest,
                            Goal::Run(next, accessibility),
                            Reached::Data(r),
                            after,
                            left,
                        ),
                        _ => proceeds(mid, step, accessibility, Progress::Done(r)) && after == mid
                            && left == rest,
                    }
            }
        },
        (Goal::Eval(h), Reached::Value(r)) => match h {
            Handle::Encode(e) => exists|a: Result<Data, Data>, mid: Store, rest: u64| #[trigger]
                via(a, mid, rest) && holds(
                    backend,
                    before,
                    budget,
                    Goal::Run(e.thunk, e.accessibility),
                    Reached::Data(a),
                    mid,
                    rest,
                ) && match a {
                    Err(x) => r == Err::<Value, Data>(x) && after == mid && left == rest,
                    Ok(d) => rest < budget && holds(
                        backend,
                        mid,
                        rest,
                        Goal::Eval(Handle::Data(d)),
                        Reached::Value(r),
                        after,
                        left,
                    ),
                },
            Handle::Data(Data::Object(Object::Tree(t))) => match r {
                Ok(Value::Data(Data::Object(Object::Tree(u)))) => holds(
                    backend,
                    before,
                    budget,
                    Goal::Tree(t),
                    Reached::Name(Ok(u)),
                    after,
                    left,
                ),
                Ok(_) => false,
                Err(x) => holds(
                    backend,
                    before,
                    budget,
                    Goal::Tree(t),
                    Reached::Name(Err(x)),
                    after,
                    left,
                ),
            },
            Handle::Data(d) => r == Ok::<Value, Data>(Value::Data(d)) && after == before && left
                == budget,
            Handle::Thunk(t) => r == Ok::<Value, Data>(Value::Thunk(t)) && after == before && left
                == budget,
        },
        (Goal::Tree(tree), Reached::Name(r)) => match before.tree_at(tree.name) {
            None => r matches Err(x) && x.reports("content not held".spec_bytes()) && after
                == before && left == budget,
            Some(elems) => exists|m: Result<Seq<Handle>, Data>, mid: Store| #[trigger]
                via(m, mid, left) && holds(
                    backend,
                    before,
                    budget,
                    Goal::Elements(elems, rank(accessible(tree)), 0, Seq::empty()),
                    Reached::Values(m),
                    mid,
                    left,
                ) && match m {
                    Err(x) => r == Err::<TreeName, Data>(x) && after == mid,
                    Ok(values) => named(mid, values, tree.tag, r, after),
                },
        },
        (Goal::Elements(elems, bound, i, done), Reached::Values(m)) => {
            if i < 0 || i >= elems.len() {
                m == Ok::<Seq<Handle>, Data>(done) && after == before && left == budget
            } else {
                exists|v: Result<Value, Data>, mid: Store, rest: u64| #[trigger]
                    via(v, mid, rest) && rank(elems[i]) < bound && holds(
                        backend,
                        before,
                        budget,
                        Goal::Eval(elems[i]),
                        Reached::Value(v),
                        mid,
                        rest,
                    ) && rest <= budget && match v {
                        Err(x) => m == Err::<Seq<Handle>, Data>(x) && after == mid && left == rest,
                        Ok(value) => holds(
                            backend,
                            mid,
                            rest,
                            Goal::Elements(elems, bound, i + 1, done.push(value.widened())),
                            Reached::Values(m),
                            after,
                            left,
                        ),
                    }
            }
        },
        _ => false,
    }
}

/// What evaluating a handle gives, from the store `before` with `budget`
/// units to the store `after` with `left` units. A thunk, a reference and an
/// accessible blob are the result as they are, and nothing changes. An
/// accessible tree gives the tree of its evaluated elements. An encode is
/// executed: the failure to do so is the result as it is, and the data
/// that it gives is evaluated in turn.
pub open spec fn evals<B: Backend>(
    backend: &B,
    before: Store,
    budget: u64,
    h: Handle,
    r: Result<Value, Data>,
    after: Store,
    left: u64,
) -> bool {
    holds(backend, before, budget, Goal::Eval(h), Reached::Value(r), after, left)
}

/// What evaluating the elements of a tree gives. Where the store does not
/// hold the tree, it is the failure "content not held" and nothing
/// changes. Else the elements are evaluated in order: the first failure is
/// the result as it is, and where there is none, the result is the name of
/// the tree of the values, with the tag of the tree.
pub open spec fn evals_tree<B: Backend>(
    backend: &B,
    before: Store,
    budget: u64,
    tree: TreeName,
    r: Result<TreeName, Data>,
    after: Store,
    left: u64,
) -> bool {
    holds(backend, before, budget, Goal::Tree(tree), Reached::Name(r), after, left)
}

/// What evaluating the elements of `elems` from index `i` on gives, with
/// the values of the elements before `i` in `done`: all the values in
/// order, or the failure of the first element that fails, behind which no
/// element is evaluated.
pub open spec fn maps<B: Backend>(
    backend: &B,
    before: Store,
    budget: u64,
    elems: Seq<Handle>,
    bound: nat,
    i: int,
    done: Seq<Handle>,
    m: Result<Seq<Handle>, Data>,
    after: Store,
    left: u64,
) -> bool {
    holds(
        backend,
        before,
        budget,
        Goal::Elements(elems, bound, i, done),
        Reached::Values(m),
        after,
        left,
    )
}

/// What one step of a thunk gives, from the store `before` with `budget`
/// units to the store `after` with `left` units. An identification is its
/// data and changes nothing. A selection is what settling gives for the
/// collaborator's answer. An application has the elements of its
/// combination evaluated: the failure to do so is the result as it is, and
/// nothing is applied; else the result is what settling gives for what the
/// collaborator hands back when it is asked to apply the combination of
/// the values. Where every element rests or is fully evaluated, the
/// collaborator is asked at no cost.
pub open spec fn thinks<B: Backend>(
    backend: &B,
    before: Store,
    budget: u64,
    thunk: Thunk,
    r: Result<RuntimeValue, Data>,
    after: Store,
    left: u64,
) -> bool {
    holds(backend, before, budget, Goal::Think(thunk), Reached::Step(r), after, left)
}

/// What executing a thunk gives, from the store `before` with `budget`
/// units to the store `after` with `left` units. Without budget it is the
/// failure "out of fuel" and nothing changes. Else one unit pays for a
/// step. Where the step gives a thunk, the result is what executing that
/// thunk gives from there. Where it gives data, the result is the data
/// adjusted as requested. Where it fails, the result is that failure.
pub open spec fn runs<B: Backend>(
    backend: &B,
    before: Store,
    budget: u64,
    thunk: Thunk,
    accessibility: Option<bool>,
    r: Result<Data, Data>,
    after: Store,
    left: u64,
) -> bool {
    holds(backend, before, budget, Goal::Run(thunk, accessibility), Reached::Data(r), after, left)
}

/// One step of the evaluation of a thunk. An identification is its data;
/// a selection is answered; an application has every element of its
/// combination evaluated and is then applied. The result may be another
/// thunk. Where an element fails to evaluate, that failure is the result
/// and nothing is applied.
pub fn think<B: Backend>(backend: &B, store: &mut Store, budget: &mut u64, thunk: Thunk) -> (r:
    Result<RuntimeValue, Data>)
    requires
        old(store).wf(),
    ensures
        final(store).wf(),
        final(store).extends(*old(store)),
        *final(budget) <= *old(budget),
        thinks(backend, *old(store), *old(budget), thunk, r, *final(store), *final(budget)),
    decreases *old(budget) + 1, 0int,
{
    match thunk {
        Thunk::Application(combination) => match eval_tree(backend, store, budget, combination) {
            Ok(evaluated) => {
                let ghost mid = *store;
                let r = apply(backend, store, evaluated);
                proof {
                    assert(via(Ok::<TreeName, Data>(evaluated), mid, *budget));
                    assert(evals_tree(
                        backend,
                        *old(store),
                        *old(budget),
                        combination,
                        Ok::<TreeName, Data>(evaluated),
                        mid,
                        *budget,
                    ));
                    let outcome = choose|o: Outcome|
                        applies(backend, mid, evaluated, o, r, *store);
                    assert(applies(backend, mid, evaluated, outcome, r, *store));
                    assert(applied_to(
                        backend,
                        *old(store),
                        combination,
                        mid,
                        evaluated,
                        outcome,
                        r,
                        *store,
                    ));
                    if unchanged(*old(store), mid) {
                        assert(settles(*old(store), outcome, r, *store));
                    }
                }
                r
            },
            Err(e) => {
                assert(via(Err::<TreeName, Data>(e), *store, *budget));
                assert(evals_tree(
                    backend,
                    *old(store),
                    *old(budget),
                    combination,
                    Err::<TreeName, Data>(e),
                    *store,
                    *budget,
                ));
                Err(e)
            },
        },
        Thunk::Selection(spec) => select(backend, store, spec),
        Thunk::Identification(x) => Ok(RuntimeValue::Data(x)),
    }
}

/// What an execution does after a step.
#[derive(Debug)]
pub enum Progress {
    /// The step gave a thunk: it is stepped next.
    Again(Thunk),
    /// The execution ends with this result.
    Done(Result<Data, Data>),
}

/// What follows on a step. A thunk is stepped again. Data ends the
/// execution, adjusted as the encode requests. A failure ends it too, and
/// is the result as it came, with no adjustment.
pub open spec fn proceeds(
    store: Store,
    step: Result<RuntimeValue, Data>,
    accessibility: Option<bool>,
    p: Progress,
) -> bool {
    match step {
        Err(x) => p == Progress::Done(Err(x)),
        Ok(RuntimeValue::Thunk(t)) => p == Progress::Again(t),
        Ok(RuntimeValue::Data(d)) => p matches Progress::Done(r) && adjusts(
            store,
            d,
            accessibility,
            r,
        ),
    }
}

/// Decides what an execution does with the result of a step.
pub fn proceed(store: &Store, step: Result<RuntimeValue, Data>, accessibility: Option<bool>) -> (p:
    Progress)
    requires
        store.wf(),
    ensures
        proceeds(*store, step, accessibility, p),
{
    match step {
        Err(x) => Progress::Done(Err(x)),
        Ok(RuntimeValue::Thunk(t)) => Progress::Again(t),
        Ok(RuntimeValue::Data(d)) => Progress::Done(adjust(store, d, accessibility)),
    }
}

/// Executes an encode: the thunk is stepped until data arrives, one unit of
/// the budget a step, and the accessibility of the data is then adjusted as
/// requested. A thunk that a step gives is stepped in turn; the failure of
/// a step is the result as it came. With the budget used up before data
/// arrives the result is a failure.
pub fn execute<B: Backend>(backend: &B, store: &mut Store, budget: &mut u64, e: Encode) -> (r:
    Result<Data, Data>)
    requires
        old(store).wf(),
    ensures
        final(store).wf(),
        final(store).extends(*old(store)),
        *final(budget) <= *old(budget),
        *old(budget) == 0 ==> (r matches Err(x) && x.reports("out of fuel".spec_bytes())),
        *old(budget) == 0 ==> unchanged(*old(store), *final(store)),
        r is Ok ==> *final(budget) < *old(budget),
        r is Ok ==> exists|d: Data| #[trigger] adjusts(*final(store), d, e.accessibility, r),
        e.thunk matches Thunk::Identification(d) ==> (*old(budget) > 0 ==> {
            &&& adjusts(*old(store), d, e.accessibility, r)
            &&& unchanged(*old(store), *final(store))
            &&& *final(budget) == *old(budget) - 1
        }),
        runs(
            backend,
            *old(store),
            *old(budget),
            e.thunk,
            e.accessibility,
            r,
            *final(store),
            *final(budget),
        ),
    decreases *old(budget), 1int,
{
    let ghost start = *store;
    let ghost fuel = *budget;
    let mut thunk: Thunk = e.thunk;
    loop
        invariant
            start == *old(store),
            fuel == *old(budget),
            store.wf(),
            store.extends(start),
            *budget <= fuel,
            e.thunk is Identification || *budget == fuel ==> unchanged(start, *store) && thunk
                == e.thunk && *budget == fuel,
            forall|r2: Result<Data, Data>, s2: Store, b2: u64| #[trigger]
                runs(backend, *store, *budget, thunk, e.accessibility, r2, s2, b2) ==> runs(
                    backend,
                    start,
                    fuel,
                    e.thunk,
                    e.accessibility,
                    r2,
                    s2,
                    b2,
                ),
        decreases *budget,
    {
        let ghost head = *store;
        let ghost had = *budget;
        let ghost stepped = thunk;
        if *budget == 0 {
            let failed = Err(failure("out of fuel"));
            assert(runs(backend, head, had, stepped, e.accessibility, failed, *store, *budget));
            return failed;
        }
        *budget = *budget - 1;
        let step = think(backend, store, budget, thunk);
        let ghost mid = *store;
        let ghost rest = *budget;
        assert(thinks(backend, head, (had - 1) as u64, stepped, step, mid, rest));
        assert(via(step, mid, rest));
        match proceed(store, step, e.accessibility) {
            Progress::Again(next) => {
                thunk = next;
                assert forall|r2: Result<Data, Data>, s2: Store, b2: u64| #[trigger]
                    runs(backend, mid, rest, next, e.accessibility, r2, s2, b2) implies runs(
                    backend,
                    start,
                    fuel,
                    e.thunk,
                    e.accessibility,
                    r2,
                    s2,
                    b2,
                ) by {
                    assert(runs(backend, head, had, stepped, e.accessibility, r2, s2, b2));
                }
            },
            Progress::Done(r) => {
                assert(runs(backend, head, had, stepped, e.accessibility, r, mid, rest));
                return r;
            },
        }
    }
}

/// Evaluates every element of a tree, in order, and names the tree of the
/// results with the tag of that tree. Where every element rests or is
/// fully evaluated already, nothing is stored and no budget is used: the
/// result points at the same tree, and is the same name if that name
/// describes the tree.
pub fn eval_tree<B: Backend>(backend: &B, store: &mut Store, budget: &mut u64, tree: TreeName) -> (r:
    Result<TreeName, Data>)
    requires
        old(store).wf(),
    ensures
        final(store).wf(),
        final(store).extends(*old(store)),
        *final(budget) <= *old(budget),
        r matches Ok(t) ==> t.tag == tree.tag && final(store).describes(t),
        r matches Ok(t) ==> final(store).evaluated(accessible(t)),
        r matches Ok(t) ==> kept_in_place(
            *old(store),
            old(store).tree_at(tree.name).unwrap(),
            final(store).tree_at(t.name).unwrap(),
        ),
        old(store).tree_at(tree.name).is_none() ==> (r matches Err(x) && x.reports(
            "content not held".spec_bytes(),
        )),
        old(store).tree_at(tree.name) matches Some(elems) ==> (all_settled(*old(store), elems) ==> {
            &&& r matches Ok(t)
            &&& t.name == tree.name
            &&& unchanged(*old(store), *final(store))
            &&& *final(budget) == *old(budget)
        }),
        old(store).evaluated(accessible(tree)) ==> r == Ok::<TreeName, Data>(tree) && unchanged(
            *old(store),
            *final(store),
        ) && *final(budget) == *old(budget),
        evals_tree(backend, *old(store), *old(budget), tree, r, *final(store), *final(budget)),
    decreases *old(budget), 2 * rank(accessible(tree)) + 1,
{
    let ghost start = *store;
    let ghost fuel = *budget;
    let elems: Vec<Handle> = match tree.load(store) {
        Some(loaded) => vstd::slice::slice_to_vec(loaded),
        None => {
            return Err(failure("content not held"));
        },
    };
    let ghost quiet = all_settled(start, elems@);
    let ghost bound = rank(accessible(tree));
    let mut out: Vec<Handle> = Vec::new();
    let mut i: usize = 0;
    while i < elems.len()
        invariant
            start == *old(store),
            fuel == *old(budget),
            start.wf(),
            store.wf(),
            store.extends(start),
            *budget <= fuel,
            i <= elems@.len(),
            out@.len() == i,
            start.tree_at(tree.name) == Some(elems@),
            quiet == all_settled(start, elems@),
            bound == rank(accessible(tree)),
            forall|j: int| 0 <= j < i ==> store.evaluated(#[trigger] out@[j]),
            forall|j: int|
                0 <= j < i && (rests(elems@[j]) || start.evaluated(elems@[j])) ==> #[trigger] out@[j]
                    == elems@[j],
            quiet ==> unchanged(start, *store) && *budget == fuel,
            forall|m2: Result<Seq<Handle>, Data>, s2: Store, b2: u64| #[trigger]
                maps(backend, *store, *budget, elems@, bound, i as int, out@, m2, s2, b2) ==> maps(
                    backend,
                    start,
                    fuel,
                    elems@,
                    bound,
                    0,
                    Seq::empty(),
                    m2,
                    s2,
                    b2,
                ),
        decreases elems@.len() - i,
    {
        let ghost before = *store;
        let ghost had = *budget;
        let ghost sofar = out@;
        proof {
            assert(rank(start.trees()[tree.name.low as int][i as int]) <= tree.name.low);
            if start.evaluated(elems@[i as int]) {
                start.lemma_evaluated_stable(before, elems@[i as int]);
            }
            if quiet {
                assert(rests(elems@[i as int]) || start.evaluated(elems@[i as int]));
            }
        }
        match eval(backend, store, budget, elems[i]) {
            Ok(v) => {
                proof {
                    assert forall|j: int| 0 <= j < i implies store.evaluated(
                        #[trigger] out@[j],
                    ) by {
                        before.lemma_evaluated_stable(*store, out@[j]);
                    }
                }
                out.push(v.relax());
                proof {
                    let now = *store;
                    let rest = *budget;
                    let next = out@;
                    assert forall|m2: Result<Seq<Handle>, Data>, s2: Store, b2: u64| #[trigger]
                        maps(backend, now, rest, elems@, bound, i + 1, next, m2, s2, b2) implies maps(
                        backend,
                        start,
                        fuel,
                        elems@,
                        bound,
                        0,
                        Seq::empty(),
                        m2,
                        s2,
                        b2,
                    ) by {
                        assert(evals(backend, before, had, elems@[i as int], Ok(v), now, rest));
                        assert(via(Ok::<Value, Data>(v), now, rest));
                        assert(next == sofar.push(v.widened()));
                        assert(maps(backend, before, had, elems@, bound, i as int, sofar, m2, s2, b2));
                    }
                }
            },
            Err(x) => {
                proof {
                    let failed = Err::<Seq<Handle>, Data>(x);
                    assert(via(Err::<Value, Data>(x), *store, *budget));
                    assert(evals(
                        backend,
                        before,
                        had,
                        elems@[i as int],
                        Err::<Value, Data>(x),
                        *store,
                        *budget,
                    ));
                    assert(maps(
                        backend,
                        before,
                        had,
                        elems@,
                        bound,
                        i as int,
                        sofar,
                        failed,
                        *store,
                        *budget,
                    ));
                    assert(maps(
                        backend,
                        start,
                        fuel,
                        elems@,
                        bound,
                        0,
                        Seq::empty(),
                        failed,
                        *store,
                        *budget,
                    ));
                }
                proof {
                    assert(via(Err::<Seq<Handle>, Data>(x), *store, *budget));
                }
                return Err(x);
            },
        }
        i += 1;
    }
    let ghost before = *store;
    let ghost mapped = out@;
    proof {
        assert forall|j: int| 0 <= j < mapped.len() implies before.grounded(
            #[trigger] mapped[j],
        ) by {
            assert(before.evaluated(mapped[j]));
        }
        if quiet {
            assert(mapped =~= elems@);
            assert(start.trees()[tree.name.low as int] == mapped);
            assert(before.trees()[tree.name.low as int] == mapped);
            assert(before.holds_tree(mapped));
            assert(mapped.len() <= u32::MAX);
        }
    }
    proof {
        let all = Ok::<Seq<Handle>, Data>(mapped);
        assert(maps(backend, before, *budget, elems@, bound, i as int, mapped, all, before, *budget));
        assert(maps(backend, start, fuel, elems@, bound, 0, Seq::empty(), all, before, *budget));
        assert(via(all, before, *budget));
    }
    match TreeName::create(store, out, tree.tag) {
        Ok(t) => {
            proof {
                assert(named(before, mapped, tree.tag, Ok::<TreeName, Data>(t), *store));
                assert forall|j: int| 0 <= j < mapped.len() implies rank(#[trigger] mapped[j])
                    < rank(accessible(t)) && store.evaluated(mapped[j]) by {
                    before.lemma_evaluated_stable(*store, mapped[j]);
                    assert(store.trees()[t.name.low as int][j] == mapped[j]);
                }
                if quiet {
                    assert(store.trees()[t.name.low as int] == mapped);
                    assert(t.name == tree.name);
                }
            }
            Ok(t)
        },
        Err(x) => {
            assert(named(before, mapped, tree.tag, Err::<TreeName, Data>(x), *store));
            Err(x)
        },
    }
}

/// Evaluates a handle to a value. An encode is executed and what it gives
/// is evaluated in turn; the elements of an accessible tree are evaluated;
/// references, accessible blobs and thunks are returned as they are. Only
/// the steps of executed encodes cost budget: a handle that is fully
/// evaluated already is returned as it is, whatever the budget.
pub fn eval<B: Backend>(backend: &B, store: &mut Store, budget: &mut u64, h: Handle) -> (r:
    Result<Value, Data>)
    requires
        old(store).wf(),
    ensures
        final(store).wf(),
        final(store).extends(*old(store)),
        *final(budget) <= *old(budget),
        r matches Ok(v) ==> final(store).evaluated(v.widened()),
        rests(h) || old(store).evaluated(h) ==> (r matches Ok(v) && v.widened() == h && unchanged(
            *old(store),
            *final(store),
        ) && *final(budget) == *old(budget)),
        h is Encode && *old(budget) == 0 ==> (r matches Err(x) && x.reports(
            "out of fuel".spec_bytes(),
        ) && unchanged(*old(store), *final(store))),
        h matches Handle::Encode(e) ==> (e.thunk matches Thunk::Identification(d) ==> (*old(budget)
            > 0 ==> exists|a: Result<Data, Data>| #[trigger]
            forced(*old(store), d, e.accessibility, a, r, *final(store), *old(budget), *final(budget)))),
        h matches Handle::Encode(e) ==> (e.thunk matches Thunk::Identification(d) ==> (*old(budget)
            > 0 && e.accessibility == Some(false) ==> r == Ok::<Value, Data>(
            Value::Data(Data::Ref(d.lowered())),
        ) && unchanged(*old(store), *final(store)) && *final(budget) == *old(budget) - 1)),
        h matches Handle::Encode(e) ==> (e.thunk matches Thunk::Identification(d) ==> (*old(budget)
            > 0 && (e.accessibility.is_none() || (e.accessibility == Some(true) && d is Object)) && (
        rests(Handle::Data(d)) || old(store).evaluated(Handle::Data(d))) ==> r == Ok::<Value, Data>(
            Value::Data(d),
        ) && unchanged(*old(store), *final(store)) && *final(budget) == *old(budget) - 1)),
        h matches Handle::Encode(e) ==> (e.thunk matches Thunk::Identification(d) ==> (*old(budget)
            > 0 && e.accessibility == Some(true) ==> (d matches Data::Ref(x) ==> (!old(store).knows(x)
            ==> (r matches Err(y) && y.reports("content not held".spec_bytes()) && unchanged(
            *old(store),
            *final(store),
        ) && *final(budget) == *old(budget) - 1))))),
        h matches Handle::Data(Data::Object(Object::Tree(t))) ==> (old(store).tree_at(
            t.name,
        ).is_none() ==> (r matches Err(x) && x.reports("content not held".spec_bytes()))),
        h matches Handle::Data(Data::Object(Object::Tree(t))) ==> (r matches Ok(v) ==> {
            &&& v matches Value::Data(Data::Object(Object::Tree(u)))
            &&& u.tag == t.tag
            &&& final(store).describes(u)
            &&& kept_in_place(
                *old(store),
                old(store).tree_at(t.name).unwrap(),
                final(store).tree_at(u.name).unwrap(),
            )
        }),
        h matches Handle::Data(Data::Object(Object::Tree(t))) ==> (old(store).tree_at(
            t.name,
        ) matches Some(elems) ==> (all_settled(*old(store), elems) ==> {
            &&& r matches Ok(Value::Data(Data::Object(Object::Tree(u))))
            &&& u.name == t.name
            &&& unchanged(*old(store), *final(store))
            &&& *final(budget) == *old(budget)
        })),
        evals(backend, *old(store), *old(budget), h, r, *final(store), *final(budget)),
    decreases *old(budget), 2 * rank(h) + 2,
{
    match h {
        Handle::Encode(e) => {
            let a = execute(backend, store, budget, e);
            let ghost mid = *store;
            let ghost rest = *budget;
            let r = match a {
                Ok(d) => {
                    proof {
                        if old(store).evaluated(Handle::Data(d)) {
                            old(store).lemma_evaluated_stable(mid, Handle::Data(d));
                        }
                    }
                    eval(backend, store, budget, Handle::Data(d))
                },
                Err(x) => Err(x),
            };
            proof {
                assert(via(a, mid, rest));
                assert(runs(
                    backend,
                    *old(store),
                    *old(budget),
                    e.thunk,
                    e.accessibility,
                    a,
                    mid,
                    rest,
                ));
                match e.thunk {
                    Thunk::Identification(d) => {
                        if *old(budget) > 0 {
                            assert(forced(
                                *old(store),
                                d,
                                e.accessibility,
                                a,
                                r,
                                *store,
                                *old(budget),
                                *budget,
                            ));
                        }
                    },
                    _ => {},
                }
            }
            r
        },
        Handle::Data(d) => match d {
            Data::Object(Object::Tree(x)) => match eval_tree(backend, store, budget, x) {
                Ok(t) => Ok(Value::Data(Data::Object(Object::Tree(t)))),
                Err(x) => Err(x),
            },
            Data::Object(Object::Blob(x)) => Ok(Value::Data(Data::Object(Object::Blob(x)))),
            Data::Ref(x) => Ok(Value::Data(Data::Ref(x))),
        },
        Handle::Thunk(thunk) => Ok(Value::Thunk(thunk)),
    }
}

/// What evaluating the encode of an identification of `data` gives, with
/// a budget of at least one unit: `adjusted` is the data with its
/// accessibility adjusted as requested, or the failure to do so. The
/// failure is the result as it is. Adjusted data that rests or is fully
/// evaluated is the result as it is. Either way the store stays as it was
/// and one unit of the budget is used.
pub open spec fn forced(
    before: Store,
    data: Data,
    accessibility: Option<bool>,
    adjusted: Result<Data, Data>,
    r: Result<Value, Data>,
    after: Store,
    budget: u64,
    left: u64,
) -> bool {
    &&& adjusts(before, data, accessibility, adjusted)
    &&& match adjusted {
        Err(x) => r == Err::<Value, Data>(x) && unchanged(before, after) && left == budget - 1,
        Ok(d) => rests(Handle::Data(d)) || before.evaluated(Handle::Data(d)) ==> r == Ok::<
            Value,
            Data,
        >(Value::Data(d)) && unchanged(before, after) && left == budget - 1,
    }
}

/// Whether `to` has an element for each element of `from`, and the
/// elements of `from` that rest or are fully evaluated in `before` stand
/// in `to` at the same index.
pub open spec fn kept_in_place(before: Store, from: Seq<Handle>, to: Seq<Handle>) -> bool {
    &&& to.len() == from.len()
    &&& forall|j: int|
        0 <= j < from.len() && (rests(from[j]) || before.evaluated(from[j])) ==> #[trigger] to[j]
            == from[j]
}

/// Whether every element rests or is fully evaluated in the store, so
/// that evaluating them asks no collaborator.
pub open spec fn all_settled(store: Store, elems: Seq<Handle>) -> bool {
    forall|j: int|
        0 <= j < elems.len() ==> rests(#[trigger] elems[j]) || store.evaluated(elems[j])
}

/// Whether evaluation leaves a handle as it is without looking at the
/// store: a reference, an accessible blob or a thunk.
pub open spec fn rests(h: Handle) -> bool {
    match h {
        Handle::Encode(_) => false,
        Handle::Data(Data::Object(Object::Tree(_))) => false,
        _ => true,
    }
}

} // verus!

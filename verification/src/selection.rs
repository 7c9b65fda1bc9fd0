//! The queries that a selection makes of a blob or a tree, answered
//! without loading anything that the answer does not need.

use vstd::prelude::*;
use vstd::string::StringSliceAdditionalSpecFns;
use crate::engine::Outcome;
use crate::names::{failure, Data, Handle, Ref, RuntimeValue};
use crate::store::Store;

verus! {

/// What a selection asks for.
#[derive(Clone, Copy, Debug)]
pub enum Query {
    /// The bytes of a blob from the first index up to the second.
    Bytes(usize, usize),
    /// One element of a tree.
    Element(usize),
    /// The elements of a tree from the first index up to the second.
    Range(usize, usize),
    /// The blob or tree cut down to nothing, which tells its kind and
    /// loads no content.
    Truncate,
}

/// Whether an outcome is the failure that reports `message`.
pub open spec fn fails_with(o: Outcome, message: Seq<u8>) -> bool {
    o matches Outcome::Failure(e) && e.reports(message)
}

/// The answer to a query. Truncation gives an empty blob for a blob and an
/// empty tree with the same tag for a tree, whether or not the store holds
/// the content. A range of bytes gives those bytes as a new blob; an
/// element gives the data or the thunk at that index; a range of elements
/// gives those elements as a new tree, tagged if the tree was and the range
/// starts at its first element. A query on content that the store does not
/// hold, an index or a range outside of the content, a query of the wrong
/// kind and the selection of an encode are failures.
pub open spec fn answers(store: Store, target: Ref, query: Query, o: Outcome) -> bool {
    match (query, target) {
        (Query::Truncate, Ref::Tree(t)) => {
            o matches Outcome::Tree(elems, tag) && elems@.len() == 0 && tag == t.tag
        },
        (Query::Truncate, Ref::Blob(_)) => {
            o matches Outcome::Blob(bytes) && bytes@.len() == 0
        },
        (Query::Bytes(from, to), Ref::Blob(b)) => match store.blob_content(b) {
            Some(content) => if from <= to <= content.len() {
                o matches Outcome::Blob(bytes) && bytes@ == content.subrange(
                    from as int,
                    to as int,
                )
            } else {
                fails_with(o, "out of range".spec_bytes())
            },
            None => fails_with(o, "content not held".spec_bytes()),
        },
        (Query::Element(i), Ref::Tree(t)) => match store.tree_at(t.name) {
            Some(elems) => if i < elems.len() {
                match elems[i as int] {
                    Handle::Data(d) => {
                        o matches Outcome::Value(v) && v == RuntimeValue::Data(d)
                    },
                    Handle::Thunk(th) => {
                        o matches Outcome::Value(v) && v == RuntimeValue::Thunk(th)
                    },
                    Handle::Encode(_) => fails_with(o, "type mismatch".spec_bytes()),
                }
            } else {
                fails_with(o, "out of range".spec_bytes())
            },
            None => fails_with(o, "content not held".spec_bytes()),
        },
        (Query::Range(from, to), Ref::Tree(t)) => match store.tree_at(t.name) {
            Some(elems) => if from <= to <= elems.len() {
                o matches Outcome::Tree(part, tag) && part@ == elems.subrange(
                    from as int,
                    to as int,
                ) && tag == (t.tag && from == 0)
            } else {
                fails_with(o, "out of range".spec_bytes())
            },
            None => fails_with(o, "content not held".spec_bytes()),
        },
        _ => fails_with(o, "type mismatch".spec_bytes()),
    }
}

/// Answers a query on what a reference names.
pub fn answer(store: &Store, target: Ref, query: Query) -> (o: Outcome)
    ensures
        answers(*store, target, query, o),
{
    match (query, target) {
        (Query::Truncate, Ref::Tree(t)) => Outcome::Tree(Vec::new(), t.tag),
        (Query::Truncate, Ref::Blob(_)) => Outcome::Blob(Vec::new()),
        (Query::Bytes(from, to), Ref::Blob(b)) => match b.load(store) {
            Some(content) => {
                if from <= to && to <= content.len() {
                    Outcome::Blob(
                        vstd::slice::slice_to_vec(
                            vstd::slice::slice_subrange(content.as_slice(), from, to),
                        ),
                    )
                } else {
                    Outcome::Failure(failure("out of range"))
                }
            },
            None => Outcome::Failure(failure("content not held")),
        },
        (Query::Element(i), Ref::Tree(t)) => match t.load(store) {
            Some(elems) => {
                if i < elems.len() {
                    match elems[i] {
                        Handle::Data(d) => Outcome::Value(RuntimeValue::Data(d)),
                        Handle::Thunk(th) => Outcome::Value(RuntimeValue::Thunk(th)),
                        Handle::Encode(_) => Outcome::Failure(failure("type mismatch")),
                    }
                } else {
                    Outcome::Failure(failure("out of range"))
                }
            },
            None => Outcome::Failure(failure("content not held")),
        },
        (Query::Range(from, to), Ref::Tree(t)) => match t.load(store) {
            Some(elems) => {
                if from <= to && to <= elems.len() {
                    Outcome::Tree(
                        vstd::slice::slice_to_vec(vstd::slice::slice_subrange(elems, from, to)),
                        t.tag && from == 0,
                    )
                } else {
                    Outcome::Failure(failure("out of range"))
                }
            },
            None => Outcome::Failure(failure("content not held")),
        },
        _ => Outcome::Failure(failure("type mismatch")),
    }
}

} // verus!

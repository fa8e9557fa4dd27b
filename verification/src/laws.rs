//! The library's stated laws, proved against the spec functions that the
//! evaluator's contracts use.

use vstd::prelude::*;
use crate::node::NodeG;
use crate::value::ValueG;
use crate::value::ErrKind;
use crate::value::entries_get;
use crate::value::entries_has;
use crate::value::err_at;
use crate::eval::def_result;
use crate::eval::eval_spec;
use crate::eval::if_arity_err;
use crate::eval::if_self_contained;
use crate::eval::index_path_spec;
use crate::eval::run_block_spec;
use crate::eval::KeyV;
use crate::imports::use_err_spec;
use crate::vm::FrameV;

verus! {

broadcast use vstd::std_specs::vec::group_vec_axioms, vstd::seq::group_seq_axioms;

/// `def` is write-once per frame: a name already bound in the innermost
/// frame always yields a name error on the next attempt to bind it there.
/// After a successful `def`, the evaluator's contract puts the name in the
/// frame, so binding the same name twice in one frame errors.
pub proof fn lemma_def_write_once(top: Seq<(Seq<char>, ValueG)>, n: NodeG)
    requires
        n.kids().len() >= 2,
        n.kids()[1] is Leaf,
        entries_has(top, n.kids()[1]->Leaf_text),
    ensures
        def_result(top, n) is Error,
        def_result(top, n)->Error_kind == ErrKind::Name,
{
}

/// Binding a name in a freshly pushed frame always succeeds, whatever the
/// outer frames bind: shadowing. A new frame is empty, and `def` consults
/// only the innermost frame.
pub proof fn lemma_def_shadowing(n: NodeG)
    requires
        n.kids().len() >= 2,
        n.kids()[1] is Leaf,
    ensures
        def_result(Seq::empty(), n) is Null,
{
}

/// A `use` importing a name absent from the target mapping always yields a
/// name error whose position matches the import node's position.
pub proof fn lemma_use_missing_name(ext: Seq<(Seq<char>, ValueG)>, on: NodeG)
    requires
        on is Leaf,
        !entries_has(ext, on->Leaf_text),
    ensures
        use_err_spec(ext, on) == Some(err_at(ErrKind::Name, on, "module item not found"@)),
        use_err_spec(ext, on)->Some_0->Error_line == on.line(),
        use_err_spec(ext, on)->Some_0->Error_col == on.col(),
{
}

/// An `if` with fewer than two children is a syntax error, and one with
/// fewer than three is a syntax error: no condition, or no consequences.
pub proof fn lemma_if_arity(n: NodeG)
    ensures
        n.kids().len() < 3 ==> if_arity_err(n) is Some && if_arity_err(n)->Some_0 is Error
            && if_arity_err(n)->Some_0->Error_kind == ErrKind::Syntax,
        n.kids().len() >= 3 ==> if_arity_err(n) is None,
{
}

/// Error short-circuiting: when the statement at `start` of a block run
/// with short-circuiting evaluates to an error value, the block's result
/// is exactly that error and its state, and no later statement is
/// evaluated: by definition, `run_block_spec` ends the block right there.
pub proof fn lemma_run_block_stops_at_error(
    fs: Seq<FrameV>,
    ext: FrameV,
    parent: NodeG,
    start: int,
    fs2: Seq<FrameV>,
    e: ValueG,
)
    requires
        0 <= start < parent.kids().len(),
        parent.kids()[start].head_str() != "if"@,
        eval_spec(fs, ext, parent.kids()[start]) == Some((fs2, e)),
        e is Error,
    ensures
        run_block_spec(fs, ext, parent, start, true) == Some((fs2, e)),
{
}

/// A statement evaluating to a non-error continues the block: the block's
/// result is that value when it was the last statement, and otherwise the
/// remaining statements decide, from the state the statement left.
pub proof fn lemma_run_block_continues(
    fs: Seq<FrameV>,
    ext: FrameV,
    parent: NodeG,
    start: int,
    fs2: Seq<FrameV>,
    v: ValueG,
)
    requires
        0 <= start < parent.kids().len(),
        parent.kids()[start].head_str() != "if"@,
        eval_spec(fs, ext, parent.kids()[start]) == Some((fs2, v)),
        !(v is Error),
    ensures
        start + 1 >= parent.kids().len() ==> run_block_spec(fs, ext, parent, start, true)
            == Some((fs2, v)),
        start + 1 < parent.kids().len() ==> run_block_spec(fs, ext, parent, start, true)
            == run_block_spec(fs2, ext, parent, start + 1, true),
{
}

/// A bare `(if cond ..)` statement followed directly by a sibling
/// `(else ..)` statement consumes it: a false condition selects the
/// sibling's tail as the alternative, and the block continues past both.
pub proof fn lemma_bare_if_consumes_sibling_else(
    fs: Seq<FrameV>,
    ext: FrameV,
    parent: NodeG,
    start: int,
    fs2: Seq<FrameV>,
    c: ValueG,
)
    requires
        0 <= start,
        start + 1 < parent.kids().len(),
        parent.kids()[start].head_str() == "if"@,
        !if_self_contained(parent.kids()[start]),
        parent.kids()[start + 1].head_str() == "else"@,
        if_arity_err(parent.kids()[start]) is None,
        eval_spec(fs, ext, parent.kids()[start].kids()[1]) == Some((fs2, c)),
        !c.truth(),
    ensures
        run_block_spec(fs, ext, parent, start, true) == (match run_block_spec(
            fs2.push(Seq::empty()),
            ext,
            parent.kids()[start + 1],
            1,
            true,
        ) {
            None => None,
            Some(q) => if q.1 is Error || start + 2 >= parent.kids().len() {
                Some((q.0.drop_last(), q.1))
            } else {
                run_block_spec(q.0.drop_last(), ext, parent, start + 2, true)
            },
        }),
{
}

/// A self-contained three-part `(if cond (do ..) (else ..))` statement
/// does not consume a following sibling `(else ..)` statement: the block
/// continues with the sibling as an ordinary statement of its own.
pub proof fn lemma_three_part_if_keeps_sibling(
    fs: Seq<FrameV>,
    ext: FrameV,
    parent: NodeG,
    start: int,
    fs2: Seq<FrameV>,
    v: ValueG,
)
    requires
        0 <= start,
        start + 1 < parent.kids().len(),
        parent.kids()[start].head_str() == "if"@,
        if_self_contained(parent.kids()[start]),
        eval_spec(fs, ext, parent.kids()[start]) == Some((fs2, v)),
        !(v is Error),
    ensures
        run_block_spec(fs, ext, parent, start, true) == run_block_spec(fs2, ext, parent, start + 1, true),
{
}

/// Module-path traversal reaches its terminal value exactly when every
/// intermediate lookup resolves to a module and every key is present.
pub open spec fn path_ok(m: ValueG, keys: Seq<KeyV>, i: int) -> bool
    decreases keys.len() - i,
{
    i >= keys.len() || (m is Module && entries_get(m->Module_entries, keys[i].0) is Some
        && path_ok(entries_get(m->Module_entries, keys[i].0)->Some_0, keys, i + 1))
}

/// The value a successful traversal resolves to.
pub open spec fn path_get(m: ValueG, keys: Seq<KeyV>, i: int) -> ValueG
    decreases keys.len() - i,
{
    if i < 0 || i >= keys.len() {
        m
    } else {
        match m {
            ValueG::Module { entries, .. } => match entries_get(entries, keys[i].0) {
                Some(v) => path_get(v, keys, i + 1),
                None => m,
            },
            _ => m,
        }
    }
}

/// Module-path indexing `(M a b)` succeeds exactly when every intermediate
/// lookup resolves to a module and the terminal lookup exists; then it
/// returns the resolved value. Otherwise it fails at the first offending
/// segment: a type error on a non-module, positioned at that key, and a
/// name error on an absent key.
pub proof fn lemma_index_path_iff(m: ValueG, keys: Seq<KeyV>, i: int)
    requires
        0 <= i,
    ensures
        path_ok(m, keys, i) ==> index_path_spec(m, keys, i) == path_get(m, keys, i),
        !path_ok(m, keys, i) ==> index_path_spec(m, keys, i) is Error && (index_path_spec(
            m,
            keys,
            i,
        )->Error_kind == ErrKind::Type || index_path_spec(m, keys, i)->Error_kind == ErrKind::Name),
    decreases keys.len() - i,
{
    if i < keys.len() {
        match m {
            ValueG::Module { entries, .. } => {
                match entries_get(entries, keys[i].0) {
                    Some(v) => {
                        lemma_index_path_iff(v, keys, i + 1);
                    },
                    None => {
                    },
                }
            },
            _ => {
            },
        }
    }
}

} // verus!


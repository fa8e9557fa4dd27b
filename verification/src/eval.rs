//! The evaluator: dispatch over syntactic forms, block sequencing with
//! error short-circuiting, conditional evaluation, name resolution, module
//! indexing, and the call protocol through which host-registered native
//! functions are invoked.

use vstd::prelude::*;
use crate::node::Node;
use crate::node::NodeG;
use crate::value::Value;
use crate::value::ValueG;
use crate::value::ErrKind;
use crate::value::ents_view;
use crate::value::entries_get;
use crate::value::entries_has;
use crate::value::entries_set_spec;
use crate::value::entries_find;
use crate::value::err_at;
use crate::value::error_at;
use crate::value::lemma_entries_get_of_find;
use crate::vm::Vm;
use crate::vm::frames_lookup;
use crate::vm::FrameV;
use crate::imports::use_err_list;
use crate::imports::use_apply_list;
use crate::imports::use_recurse;

verus! {

broadcast use vstd::std_specs::vec::group_vec_axioms, vstd::seq::group_seq_axioms;

/// The embedding host: the implementor of the native functions registered
/// into the external module tree.
pub trait Host: Sized {
    /// Invoke the native function that `fun` names, with the evaluation
    /// state and the full call node. The binding-protocol adapter collapses
    /// any native failure into an ordinary error value, so the result is a
    /// plain value like any other. The host must leave the scope stack
    /// balanced and well-formed and must not touch the external module
    /// tree, which is read-only after setup; a native that evaluates
    /// sub-expressions through this library's evaluation functions keeps
    /// exactly that.
    fn call_native(&mut self, vm: &mut Vm, fun: &Value, call: &Node) -> (r: Value)
        requires
            old(vm).wf(),
            fun@ is Function,
        ensures
            final(vm).wf(),
            final(vm).depth() == old(vm).depth(),
            final(vm).ext() == old(vm).ext(),
    ;

    /// Advisory upper bound on the cost of the native call: purely
    /// informational, on a nominal unit scale up to roughly 20000.
    fn native_cost(&self, fun: &Value, call: &Node) -> u64;
}

/// One resolved step of a module-indexing path: the key text and the
/// source position of the node it came from.
pub struct PathKey {
    pub name: String,
    pub line: u32,
    pub col: u32,
}

/// The model of a path key.
pub type KeyV = (Seq<char>, u32, u32);

impl View for PathKey {
    type V = KeyV;

    open spec fn view(&self) -> KeyV {
        (self.name@, self.line, self.col)
    }
}

/// The models of a sequence of path keys, elementwise.
pub open spec fn pkeys_view(s: Seq<PathKey>) -> Seq<KeyV>
    decreases s,
{
    if s.len() == 0 {
        Seq::empty()
    } else {
        pkeys_view(s.drop_last()).push(s.last()@)
    }
}

pub broadcast proof fn lemma_pkeys_view_len(s: Seq<PathKey>)
    ensures
        #[trigger] pkeys_view(s).len() == s.len(),
    decreases s.len(),
{
    if s.len() > 0 {
        lemma_pkeys_view_len(s.drop_last());
        assert(pkeys_view(s) == pkeys_view(s.drop_last()).push(s.last()@));
    } else {
        assert(pkeys_view(s) == Seq::<KeyV>::empty());
    }
}

pub broadcast proof fn lemma_pkeys_view_index(s: Seq<PathKey>, i: int)
    requires
        0 <= i < s.len(),
    ensures
        #[trigger] pkeys_view(s)[i] == s[i]@,
    decreases s.len(),
{
    lemma_pkeys_view_len(s);
    lemma_pkeys_view_len(s.drop_last());
    assert(pkeys_view(s) == pkeys_view(s.drop_last()).push(s.last()@));
    if i < s.len() - 1 {
        lemma_pkeys_view_index(s.drop_last(), i);
        assert(s.drop_last()[i] == s[i]);
    } else {
        assert(s.last() == s[i]);
    }
}

/// Module-path indexing: walk the module chain key by key. The traversal
/// succeeds exactly when every intermediate lookup resolves to a module
/// and every key is present; otherwise it fails at the first offending
/// segment, with a type error for a non-module and a name error for an
/// absent key, positioned at that key.
pub open spec fn index_path_spec(m: ValueG, keys: Seq<KeyV>, i: int) -> ValueG
    decreases keys.len() - i,
{
    if i < 0 || i >= keys.len() {
        m
    } else {
        match m {
            ValueG::Module { entries, .. } => match entries_get(entries, keys[i].0) {
                Some(v) => index_path_spec(v, keys, i + 1),
                None => ValueG::Error {
                    kind: ErrKind::Name,
                    line: keys[i].1,
                    col: keys[i].2,
                    message: "no such module as "@ + keys[i].0 + " here"@,
                },
            },
            _ => ValueG::Error {
                kind: ErrKind::Type,
                line: keys[i].1,
                col: keys[i].2,
                message: "attempting to module index a non-module"@,
            },
        }
    }
}

/// Walk the module chain under `m` along `keys`, returning the final
/// resolved value without invoking it further.
#[verifier::loop_isolation(false)]
pub fn index_path(m: &Value, keys: &Vec<PathKey>) -> (r: Value)
    ensures
        r@ == index_path_spec(m@, pkeys_view(keys@), 0),
{
    let ghost keysv = pkeys_view(keys@);
    proof {
        lemma_pkeys_view_len(keys@);
        assert forall|k: int| 0 <= k < keys@.len() implies keysv[k] == keys@[k]@ by {
            lemma_pkeys_view_index(keys@, k);
        }
    }
    let mut cur: &Value = m;
    let mut i: usize = 0;
    while i < keys.len()
        invariant
            i <= keys@.len(),
            index_path_spec(m@, keysv, 0) == index_path_spec(cur@, keysv, i as int),
        decreases keys@.len() - i,
    {
        let key = &keys[i];
        match cur {
            Value::Module { entries, .. } => {
                match entries_find(entries, &key.name) {
                    Some(j) => {
                        proof {
                            lemma_entries_get_of_find(entries@, key.name@, Some(j as int));
                        }
                        cur = &entries[j].1;
                        i = i + 1;
                    },
                    None => {
                        proof {
                            lemma_entries_get_of_find(entries@, key.name@, None);
                        }
                        return Value::Error {
                            kind: ErrKind::Name,
                            line: key.line,
                            col: key.col,
                            message: "no such module as ".to_owned().concat(
                                key.name.as_str(),
                            ).concat(" here"),
                        };
                    },
                }
            },
            _ => {
                return Value::Error {
                    kind: ErrKind::Type,
                    line: key.line,
                    col: key.col,
                    message: "attempting to module index a non-module".to_owned(),
                };
            },
        }
    }
    cur.dup()
}

/// Whether the head token is one of the evaluator's own forms.
pub open spec fn special_head(h: Seq<char>) -> bool {
    h == "#"@ || h == "use"@ || h == "do"@ || h == "if"@ || h == "def"@
}

/// The self-contained three-part conditional: `(if cond (do ..) (else ..))`.
pub open spec fn if_self_contained(n: NodeG) -> bool {
    n.kids().len() == 4 && n.kids()[3].head_str() == "else"@
}

/// The arity failure of a bare `(if ..)` form, if any: an `if` without a
/// condition, or one without consequences.
pub open spec fn if_arity_err(n: NodeG) -> Option<ValueG> {
    if n.kids().len() < 2 {
        Some(
            err_at(
                ErrKind::Syntax,
                n,
                "syntax error: a **if** without a condition or any consequences"@,
            ),
        )
    } else if n.kids().len() < 3 {
        Some(err_at(ErrKind::Syntax, n, "syntax error: a **if** without any consequences"@))
    } else {
        None
    }
}

/// The value `def` binds: the literal second argument when one is given,
/// else the unit value.
pub open spec fn def_bound_value(n: NodeG) -> ValueG {
    if n.kids().len() >= 3 {
        ValueG::Literal(n.kids()[2])
    } else {
        ValueG::Null
    }
}

/// What `def` returns, given the innermost frame it runs against: a syntax
/// error without a name, a name error when the frame already binds the
/// name (write-once per frame), else the unit value.
pub open spec fn def_result(top: FrameV, n: NodeG) -> ValueG {
    if n.kids().len() < 2 {
        err_at(ErrKind::Syntax, n, "syntax error: def block with no name"@)
    } else if !(n.kids()[1] is Leaf) {
        err_at(ErrKind::Syntax, n, "syntax error: def needs a plain name"@)
    } else if entries_has(top, n.kids()[1]->Leaf_text) {
        err_at(
            ErrKind::Name,
            n,
            "runtime error: there's already a variable in this scope called "@
                + n.kids()[1]->Leaf_text,
        )
    } else {
        ValueG::Null
    }
}

/// All of `kids[i..j]` are leaf tokens.
pub open spec fn all_leaves(kids: Seq<NodeG>, i: int, j: int) -> bool {
    forall|k: int| i <= k < j ==> kids[k] is Leaf
}

/// The keys that a run of leaf specifiers `kids[i..j]` denotes.
pub open spec fn leaf_keys(kids: Seq<NodeG>, i: int, j: int) -> Seq<KeyV>
    decreases j - i,
{
    if j <= i {
        Seq::empty()
    } else {
        leaf_keys(kids, i, j - 1).push(
            (kids[j - 1]->Leaf_text, kids[j - 1].line(), kids[j - 1].col()),
        )
    }
}

/// Whether the node's head token is the given word.
pub fn head_is(n: &Node, w: &str) -> (r: bool)
    requires
        w@.len() > 0,
    ensures
        r == (n@.head_str() == w@),
{
    match n.head_leaf_text() {
        Some(t) => t.eq(&String::from_str(w)),
        None => false,
    }
}

/// Whether the node is the self-contained three-part conditional.
pub fn if_self_contained_exec(n: &Node) -> (r: bool)
    ensures
        r == if_self_contained(n@),
{
    proof {
        reveal_strlit("else");
    }
    if n.kid_count() == 4 {
        head_is(n.kid(3), "else")
    } else {
        false
    }
}

/// Check the arity of a bare `(if cond consequences..)` form.
pub fn simple_if_arity(n: &Node) -> (r: Result<(), Value>)
    ensures
        match r {
            Ok(()) => if_arity_err(n@) is None,
            Err(e) => if_arity_err(n@) == Some(e@),
        },
{
    if n.kid_count() < 2 {
        Err(
            error_at(
                ErrKind::Syntax,
                n,
                "syntax error: a **if** without a condition or any consequences".to_owned(),
            ),
        )
    } else if n.kid_count() < 3 {
        Err(error_at(ErrKind::Syntax, n, "syntax error: a **if** without any consequences".to_owned()))
    } else {
        Ok(())
    }
}

/// Evaluate a `def` form: the tail names a variable, optionally followed
/// by a literal initial value. Binding is write-once per frame: a name
/// already bound in the innermost frame is a name error; otherwise the
/// name is bound there and the unit value returned.
fn eval_def(vm: &mut Vm, n: &Node) -> (r: Value)
    requires
        old(vm).wf(),
    ensures
        final(vm).wf(),
        final(vm).depth() == old(vm).depth(),
        final(vm).ext() == old(vm).ext(),
        r@ == def_result(old(vm).frames().last(), n@),
        final(vm).frames().len() == old(vm).frames().len(),
        forall|i: int| 0 <= i < old(vm).frames().len() - 1 ==> final(vm).frames()[i] == old(vm).frames()[i],
        !(r@ is Null) ==> final(vm).frames() == old(vm).frames(),
        r@ is Null ==> final(vm).frames() == old(vm).frames().update(
            old(vm).frames().len() - 1,
            entries_set_spec(old(vm).frames().last(), n@.kids()[1]->Leaf_text, def_bound_value(n@)),
        ),
        r@ is Null ==> entries_get(final(vm).frames().last(), n@.kids()[1]->Leaf_text) == Some(
            def_bound_value(n@),
        ) && (forall|o: Seq<char>| o != n@.kids()[1]->Leaf_text ==> entries_get(
            final(vm).frames().last(),
            o,
        ) == entries_get(old(vm).frames().last(), o)),
{
    if n.kid_count() < 2 {
        return error_at(ErrKind::Syntax, n, "syntax error: def block with no name".to_owned());
    }
    let namenode = n.kid(1);
    match namenode.as_leaf_text() {
        None => error_at(ErrKind::Syntax, n, "syntax error: def needs a plain name".to_owned()),
        Some(name) => {
            if vm.top_has(name) {
                error_at(
                    ErrKind::Name,
                    n,
                    "runtime error: there's already a variable in this scope called ".to_owned().concat(
                        name.as_str(),
                    ),
                )
            } else {
                let bound = if n.kid_count() >= 3 {
                    Value::Literal(n.kid(2).dup())
                } else {
                    Value::Null
                };
                let name_owned = name.clone();
                vm.bind_in_top(name_owned, bound);
                Value::Null
            }
        },
    }
}

/// Evaluate a `use` form: resolve each import specification in the tail
/// against the external tree, grafting into the innermost frame; the first
/// failure aborts and is returned, else the unit value.
#[verifier::loop_isolation(false)]
fn eval_use(vm: &mut Vm, n: &Node) -> (r: Value)
    requires
        old(vm).wf(),
    ensures
        final(vm).wf(),
        final(vm).depth() == old(vm).depth(),
        final(vm).ext() == old(vm).ext(),
        final(vm).frames().len() == old(vm).frames().len(),
        forall|i: int| 0 <= i < old(vm).frames().len() - 1 ==> final(vm).frames()[i] == old(vm).frames()[i],
        final(vm).frames() == old(vm).frames().update(
            old(vm).frames().len() - 1,
            use_apply_list(old(vm).ext(), old(vm).frames().last(), n@.kids(), 1),
        ),
        r@ == (match use_err_list(old(vm).ext(), n@.kids(), 1) {
            Some(e) => e,
            None => ValueG::Null,
        }),
{
    let ghost extv = old(vm).ext();
    let ghost kidsg = n@.kids();
    let count = n.kid_count();
    proof {
        crate::vm::lemma_frames_view_len(vm.scopes@);
        crate::vm::lemma_frames_view_index(vm.scopes@, vm.scopes@.len() - 1);
    }
    let mut top = match vm.scopes.pop() {
        Some(t) => t,
        None => unreached(),
    };
    let ghost popped = vm.scopes@;
    let ghost top0 = ents_view(top.entries@);
    proof {
        assert(top0 == old(vm).frames().last());
    }
    let mut j: usize = 1;
    while j < count
        invariant
            1 <= j,
            count == kidsg.len(),
            vm.scopes@ == popped,
            vm.external@ == old(vm).external@,
            use_err_list(extv, kidsg, 1) == use_err_list(extv, kidsg, j as int),
            use_apply_list(extv, top0, kidsg, 1) == use_apply_list(
                extv,
                ents_view(top.entries@),
                kidsg,
                j as int,
            ),
            crate::value::entries_uniq(ents_view(old(vm).scopes@.last().entries@))
                ==> crate::value::entries_uniq(ents_view(top.entries@)),
        decreases count - j,
    {
        let kid = n.kid(j);
        match use_recurse(&vm.external, &mut top.entries, kid) {
            Ok(()) => {
                j = j + 1;
            },
            Err(e) => {
                proof {
                    assert(use_err_list(extv, kidsg, j as int) == Some(e@));
                    assert(use_apply_list(extv, top0, kidsg, 1) == ents_view(top.entries@));
                }
                vm.scopes.push(top);
                proof {
                    assert(vm.scopes@.drop_last() =~= old(vm).scopes@.drop_last());
                    restore_frames_proof(old(vm).scopes@, vm.scopes@);
                    assert(crate::value::entries_uniq(old(vm).frames().last()));
                    assert forall|i: int| 0 <= i < vm.frames().len() implies
                        crate::value::entries_uniq(#[trigger] vm.frames()[i]) by {
                        if i < vm.frames().len() - 1 {
                            assert(vm.frames()[i] == old(vm).frames()[i]);
                        } else {
                            assert(vm.frames()[i] == vm.scopes@.last()@);
                        }
                    }
                    assert(vm.frames() =~= old(vm).frames().update(
                        old(vm).frames().len() - 1,
                        use_apply_list(extv, top0, kidsg, 1),
                    ));
                }
                return e;
            },
        }
    }
    proof {
        assert(use_apply_list(extv, top0, kidsg, 1) == ents_view(top.entries@));
    }
    vm.scopes.push(top);
    proof {
        assert(vm.scopes@.drop_last() =~= old(vm).scopes@.drop_last());
        restore_frames_proof(old(vm).scopes@, vm.scopes@);
        assert(crate::value::entries_uniq(old(vm).frames().last()));
        assert forall|i: int| 0 <= i < vm.frames().len() implies
            crate::value::entries_uniq(#[trigger] vm.frames()[i]) by {
            if i < vm.frames().len() - 1 {
                assert(vm.frames()[i] == old(vm).frames()[i]);
            } else {
                assert(vm.frames()[i] == vm.scopes@.last()@);
            }
        }
        assert(vm.frames() =~= old(vm).frames().update(
            old(vm).frames().len() - 1,
            use_apply_list(extv, top0, kidsg, 1),
        ));
    }
    Value::Null
}

/// Popping the innermost frame, changing only it, and pushing it back
/// leaves every outer frame as it was and keeps the stack well-formed
/// frame for frame where bindings stayed unique.
proof fn restore_frames_proof(oldsc: Seq<crate::vm::Scope>, newsc: Seq<crate::vm::Scope>)
    requires
        oldsc.len() >= 1,
        newsc.len() == oldsc.len(),
        newsc.drop_last() == oldsc.drop_last(),
    ensures
        crate::vm::frames_view(newsc).len() == oldsc.len(),
        crate::vm::frames_view(oldsc).len() == oldsc.len(),
        forall|i: int| 0 <= i < oldsc.len() - 1 ==> crate::vm::frames_view(newsc)[i]
            == crate::vm::frames_view(oldsc)[i],
        crate::vm::frames_view(newsc).last() == newsc.last()@,
        crate::vm::frames_view(oldsc).last() == oldsc.last()@,
        forall|i: int| 0 <= i < oldsc.len() - 1 ==> crate::vm::frames_view(oldsc)[i] == oldsc[i]@,
        forall|i: int| 0 <= i < oldsc.len() - 1 ==> crate::vm::frames_view(newsc)[i] == newsc[i]@,
{
    crate::vm::lemma_frames_view_len(oldsc);
    crate::vm::lemma_frames_view_len(newsc);
    assert forall|i: int| 0 <= i < oldsc.len() - 1 implies crate::vm::frames_view(newsc)[i]
        == crate::vm::frames_view(oldsc)[i] by {
        crate::vm::lemma_frames_view_index(newsc, i);
        crate::vm::lemma_frames_view_index(oldsc, i);
        assert(newsc.drop_last()[i] == newsc[i]);
        assert(oldsc.drop_last()[i] == oldsc[i]);
    }
    crate::vm::lemma_frames_view_index(newsc, newsc.len() - 1);
    crate::vm::lemma_frames_view_index(oldsc, oldsc.len() - 1);
    assert forall|i: int| 0 <= i < oldsc.len() - 1 implies crate::vm::frames_view(oldsc)[i]
        == oldsc[i]@ by {
        crate::vm::lemma_frames_view_index(oldsc, i);
    }
    assert forall|i: int| 0 <= i < oldsc.len() - 1 implies crate::vm::frames_view(newsc)[i]
        == newsc[i]@ by {
        crate::vm::lemma_frames_view_index(newsc, i);
    }
}

/// The text inside a literal value wrapping a leaf: the string form a
/// module-index key or a bound parameter must take.
pub fn literal_text(v: &Value) -> (r: Option<&String>)
    ensures
        match r {
            Some(t) => v@ is Literal && v@->Literal_0 is Leaf && t@ == v@->Literal_0->Leaf_text,
            None => !(v@ is Literal && v@->Literal_0 is Leaf),
        },
{
    match v {
        Value::Literal(n) => match n {
            Node::Leaf { text, .. } => Some(text),
            Node::Branch { .. } => None,
        },
        _ => None,
    }
}

/// Apply a resolved value to a call node: a function value goes to the
/// host, a module value performs index traversal, and every other value
/// returns itself unchanged (non-callable indexing-through).
#[verifier::loop_isolation(false)]
fn call_value<H: Host>(vm: &mut Vm, host: &mut H, f: &Value, n: &Node) -> (r: Value)
    requires
        old(vm).wf(),
    ensures
        final(vm).wf(),
        final(vm).depth() == old(vm).depth(),
        final(vm).ext() == old(vm).ext(),
        (!(f@ is Function) && !(f@ is Module)) ==> r@ == f@ && final(vm).frames() == old(vm).frames(),
        (f@ is Module && n@.kids().len() == 0) ==> r@ == f@ && final(vm).frames() == old(vm).frames(),
        (f@ is Module && n@.kids().len() > 0 && all_leaves(n@.kids(), 1, n@.kids().len() as int))
            ==> r@ == index_path_spec(f@, leaf_keys(n@.kids(), 1, n@.kids().len() as int), 0)
            && final(vm).frames() == old(vm).frames(),
        call_value_spec(old(vm).frames(), old(vm).ext(), f@, n@) matches Some(p) ==> final(vm).frames() == p.0 && r@ == p.1,
    decreases n, 0int,
{
    match f {
        Value::Function { .. } => host.call_native(vm, f, n),
        Value::Module { .. } => {
            let count = n.kid_count();
            if count == 0 {
                f.dup()
            } else {
                let ghost fs0 = old(vm).frames();
                let ghost extg = old(vm).ext();
                let ghost ng = n@;
                let ghost kidsg = n@.kids();
                proof {
                    assert(pkeys_view(Seq::<PathKey>::empty()) =~= Seq::<KeyV>::empty());
                }
                let mut keys: Vec<PathKey> = Vec::new();
                let mut j: usize = 1;
                while j < count
                    invariant
                        1 <= j <= count,
                        count == kidsg.len(),
                        vm.wf(),
                        vm.depth() == old(vm).depth(),
                        vm.ext() == old(vm).ext(),
                        all_leaves(kidsg, 1, count as int) ==> pkeys_view(keys@) == leaf_keys(
                            kidsg,
                            1,
                            j as int,
                        ) && vm.frames() == old(vm).frames(),
                        keys_spec(fs0, extg, ng, 1, Seq::empty()) is Some ==> keys_spec(
                            fs0,
                            extg,
                            ng,
                            1,
                            Seq::empty(),
                        ) == keys_spec(vm.frames(), extg, ng, j as int, pkeys_view(keys@)),
                    decreases count - j,
                {
                    let kid = n.kid(j);
                    let ghost prekeys = pkeys_view(keys@);
                    let ghost preseq = keys@;
                    match kid.as_leaf_text() {
                        Some(t) => {
                            let k = PathKey { name: t.clone(), line: kid.line(), col: kid.col() };
                            let ghost kv = k@;
                            keys.push(k);
                            proof {
                                assert(keys@.drop_last() =~= preseq);
                                assert(pkeys_view(keys@) == pkeys_view(keys@.drop_last()).push(
                                    keys@.last()@,
                                ));
                                assert(pkeys_view(keys@) == prekeys.push(kv));
                                if all_leaves(kidsg, 1, count as int) {
                                    assert(leaf_keys(kidsg, 1, j as int + 1) == leaf_keys(
                                        kidsg,
                                        1,
                                        j as int,
                                    ).push((kidsg[j as int]->Leaf_text, kidsg[j as int].line(),
                                        kidsg[j as int].col())));
                                    assert(kv == (kidsg[j as int]->Leaf_text, kidsg[
                                        j as int
                                    ].line(), kidsg[j as int].col()));
                                }
                                assert(keys_spec(vm.frames(), extg, ng, j as int, prekeys)
                                    == keys_spec(vm.frames(), extg, ng, j as int + 1,
                                    prekeys.push(kv)));
                            }
                        },
                        None => {
                            proof {
                                assert(!(kidsg[j as int] is Leaf));
                                assert(!all_leaves(kidsg, 1, count as int));
                            }
                            let ghost cur0 = vm.frames();
                            let rr = eval(vm, host, kid);
                            let ghost rv = rr@;
                            match literal_text(&rr) {
                                Some(t) => {
                                    let k = PathKey {
                                        name: t.clone(),
                                        line: kid.line(),
                                        col: kid.col(),
                                    };
                                    let ghost kv = k@;
                                    keys.push(k);
                                    proof {
                                        assert(keys@.drop_last() =~= preseq);
                                        assert(pkeys_view(keys@) == pkeys_view(
                                            keys@.drop_last(),
                                        ).push(keys@.last()@));
                                        assert(pkeys_view(keys@) == prekeys.push(kv));
                                        if keys_spec(fs0, extg, ng, 1, Seq::empty()) is Some {
                                            assert(keys_spec(cur0, extg, ng, j as int, prekeys)
                                                is Some);
                                            assert(eval_spec(cur0, extg, kidsg[j as int])
                                                is Some);
                                            assert(keys_spec(cur0, extg, ng, j as int, prekeys)
                                                == keys_spec(vm.frames(), extg, ng, j as int + 1,
                                                prekeys.push(kv)));
                                        }
                                    }
                                },
                                None => {
                                    proof {
                                        if keys_spec(fs0, extg, ng, 1, Seq::empty()) is Some {
                                            assert(keys_spec(cur0, extg, ng, j as int, prekeys)
                                                is Some);
                                            assert(eval_spec(cur0, extg, kidsg[j as int])
                                                is Some);
                                        }
                                    }
                                    return error_at(
                                        ErrKind::Type,
                                        kid,
                                        "runtime error: the result of this evaluation was not a string".to_owned(),
                                    );
                                },
                            }
                        },
                    }
                    j = j + 1;
                }
                proof {
                    if keys_spec(fs0, extg, ng, 1, Seq::empty()) is Some {
                        assert(keys_spec(vm.frames(), extg, ng, j as int, pkeys_view(keys@))
                            == Some((vm.frames(), Result::<Seq<KeyV>, ValueG>::Ok(pkeys_view(
                            keys@,
                        )))));
                    }
                }
                index_path(f, &keys)
            }
        },
        _ => f.dup(),
    }
}

/// The evaluator's keywords are pairwise distinct non-empty tokens.
proof fn lemma_special_heads_distinct()
    ensures
        "#"@.len() == 1,
        "use"@.len() == 3,
        "do"@.len() == 2,
        "if"@.len() == 2,
        "def"@.len() == 3,
        "else"@.len() == 4,
        "#"@ != "use"@,
        "#"@ != "do"@,
        "#"@ != "if"@,
        "#"@ != "def"@,
        "use"@ != "do"@,
        "use"@ != "if"@,
        "use"@ != "def"@,
        "do"@ != "if"@,
        "do"@ != "def"@,
        "if"@ != "def"@,
        "else"@ != "#"@,
        "else"@ != "use"@,
        "else"@ != "do"@,
        "else"@ != "if"@,
        "else"@ != "def"@,
{
    reveal_strlit("#");
    reveal_strlit("use");
    reveal_strlit("do");
    reveal_strlit("if");
    reveal_strlit("def");
    reveal_strlit("else");
    assert("use"@[0] == 'u' && "def"@[0] == 'd');
    assert("do"@[0] == 'd' && "if"@[0] == 'i');
}

/// A node whose call position is a plain token: a leaf, or a branch whose
/// first child is a leaf.
pub open spec fn head_leafish(n: NodeG) -> bool {
    n is Leaf || (n.kids().len() > 0 && n.kids()[0] is Leaf)
}

/// The message of the error an unresolved name produces.
pub open spec fn unresolved_msg(h: Seq<char>) -> Seq<char> {
    "There's no function called **"@ + h + "** in scope"@
}

/// The evaluator's semantics on the host-free fragment: what one node
/// evaluates to, and the scope stack it leaves, starting from the frames
/// `fs` and the external tree `ext`. `None` means the host decides from
/// here on: the evaluation reached a native function call, whose result
/// this library does not model.
pub open spec fn eval_spec(fs: Seq<FrameV>, ext: FrameV, n: NodeG) -> Option<(Seq<FrameV>, ValueG)>
    decreases n, 3int, 0int,
{
    let h = n.head_str();
    if h == "#"@ {
        Some((fs, ValueG::Null))
    } else if h == "use"@ {
        let fs2 = fs.update(fs.len() - 1, use_apply_list(ext, fs.last(), n.kids(), 1));
        match use_err_list(ext, n.kids(), 1) {
            Some(e) => Some((fs2, e)),
            None => Some((fs2, ValueG::Null)),
        }
    } else if h == "do"@ {
        match run_block_spec(fs.push(Seq::empty()), ext, n, 1, true) {
            None => None,
            Some(q) => Some((q.0.drop_last(), q.1)),
        }
    } else if h == "if"@ {
        if if_self_contained(n) {
            match eval_spec(fs, ext, n.kids()[1]) {
                None => None,
                Some(p) => {
                    if p.1.truth() {
                        match run_block_spec(p.0.push(Seq::empty()), ext, n.kids()[2], 1, true) {
                            None => None,
                            Some(q) => Some((q.0.drop_last(), q.1)),
                        }
                    } else {
                        match run_block_spec(p.0.push(Seq::empty()), ext, n.kids()[3], 1, true) {
                            None => None,
                            Some(q) => Some((q.0.drop_last(), q.1)),
                        }
                    }
                },
            }
        } else {
            match if_arity_err(n) {
                Some(e) => Some((fs, e)),
                None => match eval_spec(fs, ext, n.kids()[1]) {
                    None => None,
                    Some(p) => {
                        if p.1.truth() {
                            match run_block_spec(p.0.push(Seq::empty()), ext, n, 2, true) {
                                None => None,
                                Some(q) => Some((q.0.drop_last(), q.1)),
                            }
                        } else {
                            Some((p.0, ValueG::Null))
                        }
                    },
                },
            }
        }
    } else if h == "def"@ {
        let r = def_result(fs.last(), n);
        if r is Null {
            Some(
                (
                    fs.update(
                        fs.len() - 1,
                        entries_set_spec(fs.last(), n.kids()[1]->Leaf_text, def_bound_value(n)),
                    ),
                    ValueG::Null,
                ),
            )
        } else {
            Some((fs, r))
        }
    } else {
        invoke_spec(fs, ext, n)
    }
}

/// The semantics of treating a node as a call: resolve the head through
/// the frames and apply the resolved value, or evaluate a compound head
/// first.
pub open spec fn invoke_spec(fs: Seq<FrameV>, ext: FrameV, n: NodeG) -> Option<
    (Seq<FrameV>, ValueG),
>
    decreases n, 2int, 0int,
{
    if head_leafish(n) {
        match frames_lookup(fs, n.head_str()) {
            None => Some((fs, err_at(ErrKind::Name, n, unresolved_msg(n.head_str())))),
            Some(f) => call_value_spec(fs, ext, f, n),
        }
    } else if n.kids().len() > 0 {
        match eval_spec(fs, ext, n.kids()[0]) {
            None => None,
            Some(p) => call_value_spec(p.0, ext, p.1, n),
        }
    } else {
        Some((fs, err_at(ErrKind::Syntax, n, "A leaf wood was invoked as a function??"@)))
    }
}

/// The semantics of applying a value to a call node: a native function is
/// the host's (None); a module is index traversal over the resolved keys;
/// every other value returns itself.
pub open spec fn call_value_spec(fs: Seq<FrameV>, ext: FrameV, f: ValueG, n: NodeG) -> Option<
    (Seq<FrameV>, ValueG),
>
    decreases n, 1int, 0int,
{
    match f {
        ValueG::Function { .. } => None,
        ValueG::Module { .. } => {
            if n.kids().len() == 0 {
                Some((fs, f))
            } else {
                match keys_spec(fs, ext, n, 1, Seq::empty()) {
                    None => None,
                    Some(p) => match p.1 {
                        Ok(keys) => Some((p.0, index_path_spec(f, keys, 0))),
                        Err(e) => Some((p.0, e)),
                    },
                }
            }
        },
        _ => Some((fs, f)),
    }
}

/// The semantics of resolving the key specifiers `n.kids()[j..]` of a
/// module-indexing call: a leaf is its own key; a sub-expression must
/// evaluate to a literal wrapping a leaf, else the resolution stops with a
/// type error at that key node.
pub open spec fn keys_spec(
    fs: Seq<FrameV>,
    ext: FrameV,
    n: NodeG,
    j: int,
    acc: Seq<KeyV>,
) -> Option<(Seq<FrameV>, Result<Seq<KeyV>, ValueG>)>
    decreases n, 0int, n.kids().len() - j,
{
    if j < 1 || j >= n.kids().len() {
        Some((fs, Ok(acc)))
    } else {
        let kid = n.kids()[j];
        if kid is Leaf {
            keys_spec(fs, ext, n, j + 1, acc.push((kid->Leaf_text, kid.line(), kid.col())))
        } else {
            match eval_spec(fs, ext, kid) {
                None => None,
                Some(p) => {
                    if p.1 is Literal && p.1->Literal_0 is Leaf {
                        keys_spec(
                            p.0,
                            ext,
                            n,
                            j + 1,
                            acc.push((p.1->Literal_0->Leaf_text, kid.line(), kid.col())),
                        )
                    } else {
                        Some(
                            (
                                p.0,
                                Err(
                                    err_at(
                                        ErrKind::Type,
                                        kid,
                                        "runtime error: the result of this evaluation was not a string"@,
                                    ),
                                ),
                            ),
                        )
                    }
                },
            }
        }
    }
}

/// The semantics of running the statements `parent.kids()[start..]`: an
/// empty block is a syntax error; a bare `(if ..)` statement consumes a
/// directly following sibling `(else ..)` statement, the self-contained
/// three-part form does not; with short-circuiting, the first statement
/// whose result is an error ends the block with that error, and no later
/// statement is evaluated; otherwise the last statement's result remains.
pub open spec fn run_block_spec(
    fs: Seq<FrameV>,
    ext: FrameV,
    parent: NodeG,
    start: int,
    except_errors: bool,
) -> Option<(Seq<FrameV>, ValueG)>
    decreases parent, 0int, parent.kids().len() - start,
{
    if start < 0 || start >= parent.kids().len() {
        Some((fs, err_at(ErrKind::Syntax, parent, "syntax error: empty block"@)))
    } else {
        let stmt = parent.kids()[start];
        let sib = stmt.head_str() == "if"@ && !if_self_contained(stmt) && start + 1
            < parent.kids().len() && parent.kids()[start + 1].head_str() == "else"@;
        let step: Option<(Seq<FrameV>, ValueG, int)> = if sib {
            match if_arity_err(stmt) {
                Some(e) => Some((fs, e, start + 1)),
                None => match eval_spec(fs, ext, stmt.kids()[1]) {
                    None => None,
                    Some(p) => {
                        if p.1.truth() {
                            match run_block_spec(p.0.push(Seq::empty()), ext, stmt, 2, true) {
                                None => None,
                                Some(q) => Some((q.0.drop_last(), q.1, start + 2)),
                            }
                        } else {
                            match run_block_spec(
                                p.0.push(Seq::empty()),
                                ext,
                                parent.kids()[start + 1],
                                1,
                                true,
                            ) {
                                None => None,
                                Some(q) => Some((q.0.drop_last(), q.1, start + 2)),
                            }
                        }
                    },
                },
            }
        } else {
            match eval_spec(fs, ext, stmt) {
                None => None,
                Some(p) => Some((p.0, p.1, start + 1)),
            }
        };
        match step {
            None => None,
            Some(t) => {
                if except_errors && t.1 is Error {
                    Some((t.0, t.1))
                } else if t.2 >= parent.kids().len() {
                    Some((t.0, t.1))
                } else {
                    run_block_spec(t.0, ext, parent, t.2, except_errors)
                }
            },
        }
    }
}

/// Resolve the call node's head through the scope stack, innermost frame
/// first, and apply the resolved value to the node; an unresolved head is
/// a name error. A compound head (itself a branch) is evaluated first to
/// obtain the callable.
fn invoke<H: Host>(vm: &mut Vm, host: &mut H, n: &Node) -> (r: Value)
    requires
        old(vm).wf(),
    ensures
        final(vm).wf(),
        final(vm).depth() == old(vm).depth(),
        final(vm).ext() == old(vm).ext(),
        (!(n@ is Leaf) && n@.kids().len() == 0) ==> r@ == err_at(
            ErrKind::Syntax,
            n@,
            "A leaf wood was invoked as a function??"@,
        ) && final(vm).frames() == old(vm).frames(),
        (head_leafish(n@) && frames_lookup(old(vm).frames(), n@.head_str()) is None) ==> r@
            == err_at(ErrKind::Name, n@, unresolved_msg(n@.head_str())) && final(vm).frames()
            == old(vm).frames(),
        (head_leafish(n@) && frames_lookup(old(vm).frames(), n@.head_str()) is Some && !(
        frames_lookup(old(vm).frames(), n@.head_str())->Some_0 is Function) && !(frames_lookup(
            old(vm).frames(),
            n@.head_str(),
        )->Some_0 is Module)) ==> r@ == frames_lookup(old(vm).frames(), n@.head_str())->Some_0
            && final(vm).frames() == old(vm).frames(),
        (head_leafish(n@) && frames_lookup(old(vm).frames(), n@.head_str()) is Some
            && frames_lookup(old(vm).frames(), n@.head_str())->Some_0 is Module && n@ is Leaf)
            ==> r@ == frames_lookup(old(vm).frames(), n@.head_str())->Some_0 && final(vm).frames()
            == old(vm).frames(),
        (head_leafish(n@) && frames_lookup(old(vm).frames(), n@.head_str()) is Some
            && frames_lookup(old(vm).frames(), n@.head_str())->Some_0 is Module && !(n@ is Leaf)
            && all_leaves(n@.kids(), 1, n@.kids().len() as int)) ==> r@ == index_path_spec(
            frames_lookup(old(vm).frames(), n@.head_str())->Some_0,
            leaf_keys(n@.kids(), 1, n@.kids().len() as int),
            0,
        ) && final(vm).frames() == old(vm).frames(),
        invoke_spec(old(vm).frames(), old(vm).ext(), n@) matches Some(p) ==> final(vm).frames()
            == p.0 && r@ == p.1,
    decreases n, 1int,
{
    match n.head_leaf_text() {
        Some(name) => {
            match vm.lookup(name) {
                Some(f) => call_value(vm, host, &f, n),
                None => error_at(
                    ErrKind::Name,
                    n,
                    "There's no function called **".to_owned().concat(name.as_str()).concat(
                        "** in scope",
                    ),
                ),
            }
        },
        None => {
            if n.kid_count() > 0 {
                let ghost cur0 = vm.frames();
                let f = eval(vm, host, n.kid(0));
                proof {
                    if invoke_spec(cur0, old(vm).ext(), n@) is Some {
                        assert(eval_spec(cur0, old(vm).ext(), n@.kids()[0]) is Some);
                    }
                }
                call_value(vm, host, &f, n)
            } else {
                error_at(ErrKind::Syntax, n, "A leaf wood was invoked as a function??".to_owned())
            }
        },
    }
}

/// Evaluate one node. Dispatch is on the head token: `#` is a comment,
/// `use` imports, `do` runs a block in a fresh scope, `if` evaluates a
/// conditional, `def` binds a name write-once in the innermost frame, and
/// anything else is a call resolved through the scope stack.
#[verifier::rlimit(60)]
pub fn eval<H: Host>(vm: &mut Vm, host: &mut H, n: &Node) -> (r: Value)
    requires
        old(vm).wf(),
    ensures
        final(vm).wf(),
        final(vm).depth() == old(vm).depth(),
        final(vm).ext() == old(vm).ext(),
        n@.head_str() == "#"@ ==> r@ is Null && final(vm).frames() == old(vm).frames(),
        n@.head_str() == "use"@ ==> r@ == (match use_err_list(old(vm).ext(), n@.kids(), 1) {
            Some(e) => e,
            None => ValueG::Null,
        }) && final(vm).frames().len() == old(vm).frames().len() && (forall|i: int|
            0 <= i < old(vm).frames().len() - 1 ==> final(vm).frames()[i] == old(vm).frames()[i]),
        (n@.head_str() == "do"@ && n@.kids().len() <= 1) ==> r@ == err_at(
            ErrKind::Syntax,
            n@,
            "syntax error: empty block"@,
        ),
        (n@.head_str() == "if"@ && !if_self_contained(n@) && if_arity_err(n@) is Some) ==> r@
            == if_arity_err(n@)->Some_0 && final(vm).frames() == old(vm).frames(),
        n@.head_str() == "def"@ ==> r@ == def_result(old(vm).frames().last(), n@) && final(vm).frames().len() == old(vm).frames().len() && (forall|i: int|
            0 <= i < old(vm).frames().len() - 1 ==> final(vm).frames()[i] == old(vm).frames()[i])
            && (!(r@ is Null) ==> final(vm).frames() == old(vm).frames()) && (r@ is Null
            ==> entries_get(final(vm).frames().last(), n@.kids()[1]->Leaf_text) == Some(
            def_bound_value(n@),
        ) && (forall|o: Seq<char>| o != n@.kids()[1]->Leaf_text ==> entries_get(
            final(vm).frames().last(),
            o,
        ) == entries_get(old(vm).frames().last(), o))),
        (!special_head(n@.head_str()) && head_leafish(n@) && frames_lookup(
            old(vm).frames(),
            n@.head_str(),
        ) is None) ==> r@ == err_at(ErrKind::Name, n@, unresolved_msg(n@.head_str())) && final(vm).frames() == old(vm).frames(),
        (!special_head(n@.head_str()) && head_leafish(n@) && frames_lookup(
            old(vm).frames(),
            n@.head_str(),
        ) is Some && !(frames_lookup(old(vm).frames(), n@.head_str())->Some_0 is Function) && !(
        frames_lookup(old(vm).frames(), n@.head_str())->Some_0 is Module)) ==> r@ == frames_lookup(
            old(vm).frames(),
            n@.head_str(),
        )->Some_0 && final(vm).frames() == old(vm).frames(),
        (!special_head(n@.head_str()) && head_leafish(n@) && frames_lookup(
            old(vm).frames(),
            n@.head_str(),
        ) is Some && frames_lookup(old(vm).frames(), n@.head_str())->Some_0 is Module && n@
            is Leaf) ==> r@ == frames_lookup(old(vm).frames(), n@.head_str())->Some_0 && final(vm).frames() == old(vm).frames(),
        (!special_head(n@.head_str()) && head_leafish(n@) && frames_lookup(
            old(vm).frames(),
            n@.head_str(),
        ) is Some && frames_lookup(old(vm).frames(), n@.head_str())->Some_0 is Module && !(n@
            is Leaf) && all_leaves(n@.kids(), 1, n@.kids().len() as int)) ==> r@ == index_path_spec(
            frames_lookup(old(vm).frames(), n@.head_str())->Some_0,
            leaf_keys(n@.kids(), 1, n@.kids().len() as int),
            0,
        ) && final(vm).frames() == old(vm).frames(),
        eval_spec(old(vm).frames(), old(vm).ext(), n@) matches Some(p) ==> final(vm).frames()
            == p.0 && r@ == p.1,
    decreases n, 2int,
{
    proof {
        lemma_special_heads_distinct();
    }
    if head_is(n, "#") {
        Value::Null
    } else if head_is(n, "use") {
        eval_use(vm, n)
    } else if head_is(n, "do") {
        vm.push_scope();
        let rr = run_block(vm, host, n, 1, true);
        proof {
            if eval_spec(old(vm).frames(), old(vm).ext(), n@) is Some {
                assert(run_block_spec(old(vm).frames().push(Seq::empty()), old(vm).ext(), n@, 1,
                    true) is Some);
            }
        }
        vm.pop_scope();
        rr
    } else if head_is(n, "if") {
        if if_self_contained_exec(n) {
            let c = eval(vm, host, n.kid(1));
            proof {
                if eval_spec(old(vm).frames(), old(vm).ext(), n@) is Some {
                    assert(eval_spec(old(vm).frames(), old(vm).ext(), n@.kids()[1]) is Some);
                }
            }
            if c.test_truth() {
                let ghost mid = vm.frames();
                vm.push_scope();
                let rr = run_block(vm, host, n.kid(2), 1, true);
                proof {
                    if eval_spec(old(vm).frames(), old(vm).ext(), n@) is Some {
                        assert(run_block_spec(mid.push(Seq::empty()), old(vm).ext(),
                            n@.kids()[2], 1, true) is Some);
                    }
                }
                vm.pop_scope();
                rr
            } else {
                let ghost mid = vm.frames();
                vm.push_scope();
                let rr = run_block(vm, host, n.kid(3), 1, true);
                proof {
                    if eval_spec(old(vm).frames(), old(vm).ext(), n@) is Some {
                        assert(run_block_spec(mid.push(Seq::empty()), old(vm).ext(),
                            n@.kids()[3], 1, true) is Some);
                    }
                }
                vm.pop_scope();
                rr
            }
        } else {
            match simple_if_arity(n) {
                Err(e) => e,
                Ok(()) => {
                    let c = eval(vm, host, n.kid(1));
                    proof {
                        if eval_spec(old(vm).frames(), old(vm).ext(), n@) is Some {
                            assert(eval_spec(old(vm).frames(), old(vm).ext(), n@.kids()[1])
                                is Some);
                        }
                    }
                    if c.test_truth() {
                        let ghost mid = vm.frames();
                        vm.push_scope();
                        let rr = run_block(vm, host, n, 2, true);
                        proof {
                            if eval_spec(old(vm).frames(), old(vm).ext(), n@) is Some {
                                assert(run_block_spec(mid.push(Seq::empty()), old(vm).ext(), n@,
                                    2, true) is Some);
                            }
                        }
                        vm.pop_scope();
                        rr
                    } else {
                        Value::Null
                    }
                },
            }
        }
    } else if head_is(n, "def") {
        eval_def(vm, n)
    } else {
        invoke(vm, host, n)
    }
}

/// Run the statements `parent.kids()[start..]` in sequence, per
/// `run_block_spec`: an empty block is a syntax error; a bare
/// `(if cond ..)` statement consumes a directly following sibling
/// `(else ..)` statement as its alternative, while the self-contained
/// three-part form does not; with error short-circuiting enabled, the
/// first statement whose result is an error value stops the block, that
/// error is the block's result, and no later statement is evaluated;
/// otherwise only the last statement's result is retained.
#[verifier::loop_isolation(false)]
#[verifier::rlimit(100)]
pub fn run_block<H: Host>(
    vm: &mut Vm,
    host: &mut H,
    parent: &Node,
    start: usize,
    except_errors: bool,
) -> (r: Value)
    requires
        old(vm).wf(),
    ensures
        final(vm).wf(),
        final(vm).depth() == old(vm).depth(),
        final(vm).ext() == old(vm).ext(),
        start >= parent@.kids().len() ==> r@ == err_at(
            ErrKind::Syntax,
            parent@,
            "syntax error: empty block"@,
        ) && final(vm).frames() == old(vm).frames(),
        run_block_spec(old(vm).frames(), old(vm).ext(), parent@, start as int, except_errors)
            matches Some(p) ==> final(vm).frames() == p.0 && r@ == p.1,
    decreases parent, 0int,
{
    proof {
        lemma_special_heads_distinct();
    }
    let ghost fs0 = old(vm).frames();
    let ghost extg = old(vm).ext();
    let ghost pg = parent@;
    let count = parent.kid_count();
    if start >= count {
        return error_at(ErrKind::Syntax, parent, "syntax error: empty block".to_owned());
    }
    let mut i: usize = start;
    while i < count
        invariant
            start <= i < count,
            vm.wf(),
            vm.depth() == old(vm).depth(),
            vm.ext() == old(vm).ext(),
            run_block_spec(fs0, extg, pg, start as int, except_errors) is Some ==> run_block_spec(
                fs0,
                extg,
                pg,
                start as int,
                except_errors,
            ) == run_block_spec(vm.frames(), extg, pg, i as int, except_errors),
        decreases count - i,
    {
        let ghost cur0 = vm.frames();
        let stmt = parent.kid(i);
        let has_sibling_else = i + 1 < count && head_is(parent.kid(i + 1), "else");
        let sib_form = head_is(stmt, "if") && !if_self_contained_exec(stmt) && has_sibling_else;
        let (r, next): (Value, usize) = if sib_form {
            match simple_if_arity(stmt) {
                Err(e) => (e, i + 1),
                Ok(()) => {
                    let c = eval(vm, host, stmt.kid(1));
                    proof {
                        if run_block_spec(fs0, extg, pg, start as int, except_errors) is Some {
                            assert(eval_spec(cur0, extg, pg.kids()[i as int].kids()[1]) is Some);
                        }
                    }
                    if c.test_truth() {
                        let ghost mid = vm.frames();
                        vm.push_scope();
                        let rr = run_block(vm, host, stmt, 2, true);
                        proof {
                            if run_block_spec(fs0, extg, pg, start as int, except_errors)
                                is Some {
                                assert(run_block_spec(mid.push(Seq::empty()), extg, pg.kids()[
                                    i as int
                                ], 2, true) is Some);
                            }
                        }
                        vm.pop_scope();
                        (rr, i + 2)
                    } else {
                        let ghost mid = vm.frames();
                        vm.push_scope();
                        let rr = run_block(vm, host, parent.kid(i + 1), 1, true);
                        proof {
                            if run_block_spec(fs0, extg, pg, start as int, except_errors)
                                is Some {
                                assert(run_block_spec(mid.push(Seq::empty()), extg, pg.kids()[
                                    i as int + 1
                                ], 1, true) is Some);
                            }
                        }
                        vm.pop_scope();
                        (rr, i + 2)
                    }
                },
            }
        } else {
            let rr = eval(vm, host, stmt);
            proof {
                if run_block_spec(fs0, extg, pg, start as int, except_errors) is Some {
                    assert(eval_spec(cur0, extg, pg.kids()[i as int]) is Some);
                }
            }
            (rr, i + 1)
        };
        if except_errors && r.is_error() {
            return r;
        }
        if next >= count {
            return r;
        }
        i = next;
    }
    unreached()
}

/// Evaluate the top-level statement sequence of a program node with error
/// short-circuiting enabled, returning the final value.
pub fn run_program<H: Host>(vm: &mut Vm, host: &mut H, program: &Node) -> (r: Value)
    requires
        old(vm).wf(),
    ensures
        final(vm).wf(),
        final(vm).depth() == old(vm).depth(),
        final(vm).ext() == old(vm).ext(),
        program@.kids().len() == 0 ==> r@ == err_at(
            ErrKind::Syntax,
            program@,
            "syntax error: empty block"@,
        ),
        run_block_spec(old(vm).frames(), old(vm).ext(), program@, 0, true) matches Some(p)
            ==> final(vm).frames() == p.0 && r@ == p.1,
{
    run_block(vm, host, program, 0, true)
}

/// The first index in the call node's tail whose child's head token is
/// `name`, if any: where the keyed sub-expression for a declared
/// parameter sits.
pub open spec fn seek_spec(call: NodeG, name: Seq<char>, j: int) -> Option<int>
    decreases call.kids().len() - j,
{
    if j < 1 || j >= call.kids().len() {
        None
    } else if call.kids()[j].head_str() == name {
        Some(j)
    } else {
        seek_spec(call, name, j + 1)
    }
}

proof fn lemma_seek_spec_found(call: NodeG, name: Seq<char>, i: int, j: int)
    requires
        1 <= i <= j < call.kids().len(),
        call.kids()[j].head_str() == name,
        forall|k: int| i <= k < j ==> call.kids()[k].head_str() != name,
    ensures
        seek_spec(call, name, i) == Some(j),
    decreases j - i,
{
    if i < j {
        lemma_seek_spec_found(call, name, i + 1, j);
    }
}

proof fn lemma_seek_spec_none(call: NodeG, name: Seq<char>, i: int)
    requires
        1 <= i,
        forall|k: int| i <= k < call.kids().len() ==> call.kids()[k].head_str() != name,
    ensures
        seek_spec(call, name, i) is None,
    decreases call.kids().len() - i,
{
    if i < call.kids().len() {
        lemma_seek_spec_none(call, name, i + 1);
    }
}

/// Find the keyed sub-expression `(name value)` within the call node's
/// tail: the first child whose head token is `name`.
#[verifier::loop_isolation(false)]
pub fn seek_keyed(call: &Node, name: &String) -> (r: Option<usize>)
    requires
        name@.len() > 0,
    ensures
        match r {
            Some(j) => 1 <= j < call@.kids().len() && call@.kids()[j as int].head_str() == name@
                && forall|k: int| 1 <= k < j ==> call@.kids()[k].head_str() != name@,
            None => forall|k: int| 1 <= k < call@.kids().len() ==> call@.kids()[k].head_str()
                != name@,
        },
        r matches Some(j) ==> seek_spec(call@, name@, 1) == Some(j as int),
        r is None ==> seek_spec(call@, name@, 1) is None,
{
    let count = call.kid_count();
    if count == 0 {
        proof {
            lemma_seek_spec_none(call@, name@, 1);
        }
        return None;
    }
    let mut j: usize = 1;
    while j < count
        invariant
            1 <= j <= count,
            forall|k: int| 1 <= k < j ==> call@.kids()[k].head_str() != name@,
        decreases count - j,
    {
        let kid = call.kid(j);
        let mut matched = false;
        match kid.head_leaf_text() {
            Some(t) => {
                if t.eq(name) {
                    matched = true;
                }
            },
            None => {},
        }
        if matched {
            proof {
                lemma_seek_spec_found(call@, name@, 1, j as int);
            }
            return Some(j);
        }
        j = j + 1;
    }
    proof {
        lemma_seek_spec_none(call@, name@, 1);
    }
    None
}

/// Declarative parameter binding: locate the keyed sub-expression for the
/// declared parameter within the call node, evaluate it, and hand the
/// resulting value to the native body; an absent parameter or an error
/// result aborts the binding. Conversion to a native type is the caller's
/// remaining step (see `literal_text`).
pub fn bind_param<H: Host>(vm: &mut Vm, host: &mut H, call: &Node, name: &String) -> (r: Result<
    Value,
    Value,
>)
    requires
        old(vm).wf(),
        name@.len() > 0,
    ensures
        final(vm).wf(),
        final(vm).depth() == old(vm).depth(),
        final(vm).ext() == old(vm).ext(),
        seek_spec(call@, name@, 1) is None ==> r is Err && r->Err_0@ == err_at(
            ErrKind::Param,
            call@,
            "the parameter wasn't passed"@,
        ) && final(vm).frames() == old(vm).frames(),
        (seek_spec(call@, name@, 1) is Some && call@.kids()[seek_spec(
            call@,
            name@,
            1,
        )->Some_0].kids().len() < 2) ==> r is Err && r->Err_0@ == err_at(
            ErrKind::Param,
            call@.kids()[seek_spec(call@, name@, 1)->Some_0],
            "the parameter wasn't passed"@,
        ) && final(vm).frames() == old(vm).frames(),
        (seek_spec(call@, name@, 1) is Some && call@.kids()[seek_spec(
            call@,
            name@,
            1,
        )->Some_0].kids().len() >= 2 && eval_spec(
            old(vm).frames(),
            old(vm).ext(),
            call@.kids()[seek_spec(call@, name@, 1)->Some_0].kids()[1],
        ) is Some) ==> final(vm).frames() == eval_spec(
            old(vm).frames(),
            old(vm).ext(),
            call@.kids()[seek_spec(call@, name@, 1)->Some_0].kids()[1],
        )->Some_0.0 && (eval_spec(
            old(vm).frames(),
            old(vm).ext(),
            call@.kids()[seek_spec(call@, name@, 1)->Some_0].kids()[1],
        )->Some_0.1 is Error ==> r is Err && r->Err_0@ == eval_spec(
            old(vm).frames(),
            old(vm).ext(),
            call@.kids()[seek_spec(call@, name@, 1)->Some_0].kids()[1],
        )->Some_0.1) && (!(eval_spec(
            old(vm).frames(),
            old(vm).ext(),
            call@.kids()[seek_spec(call@, name@, 1)->Some_0].kids()[1],
        )->Some_0.1 is Error) ==> r is Ok && r->Ok_0@ == eval_spec(
            old(vm).frames(),
            old(vm).ext(),
            call@.kids()[seek_spec(call@, name@, 1)->Some_0].kids()[1],
        )->Some_0.1),
        r is Err ==> r->Err_0@ is Error,
        r is Ok ==> !(r->Ok_0@ is Error),
{
    match seek_keyed(call, name) {
        None => Err(error_at(ErrKind::Param, call, "the parameter wasn't passed".to_owned())),
        Some(j) => {
            let kv = call.kid(j);
            if kv.kid_count() < 2 {
                Err(error_at(ErrKind::Param, kv, "the parameter wasn't passed".to_owned()))
            } else {
                let v = eval(vm, host, kv.kid(1));
                if v.is_error() {
                    Err(v)
                } else {
                    Ok(v)
                }
            }
        },
    }
}

/// Convert a bound value to the native string type: the text of a literal
/// wrapping a leaf. Any other value fails the conversion with a type
/// error positioned at the given node, per the binding protocol.
pub fn convert_text(v: &Value, at: &Node) -> (r: Result<String, Value>)
    ensures
        (v@ is Literal && v@->Literal_0 is Leaf) ==> r is Ok && r->Ok_0@
            == v@->Literal_0->Leaf_text,
        !(v@ is Literal && v@->Literal_0 is Leaf) ==> r is Err && r->Err_0@ == err_at(
            ErrKind::Type,
            at@,
            "runtime error: the parameter value cannot convert to a string"@,
        ),
{
    match literal_text(v) {
        Some(t) => Ok(t.clone()),
        None => Err(
            error_at(
                ErrKind::Type,
                at,
                "runtime error: the parameter value cannot convert to a string".to_owned(),
            ),
        ),
    }
}

/// The advisory cost upper bound of applying `v` to the call node: the
/// host's estimate for a native function, the child count for a module
/// traversal, and zero for the data values.
pub fn cost_upper_bound<H: Host>(host: &H, v: &Value, n: &Node) -> (r: u64)
    ensures
        (v@ is Null || v@ is Error || v@ is Literal) ==> r == 0,
        v@ is Module ==> r == n@.kids().len(),
{
    match v {
        Value::Function { .. } => host.native_cost(v, n),
        Value::Module { .. } => n.kid_count() as u64,
        _ => 0,
    }
}

} // verus!

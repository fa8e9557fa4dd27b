//! The value/object model: the polymorphic result type every evaluation
//! produces. Errors are ordinary values (`Value::Error`), detected solely by
//! classification; there is no separate exception channel. All built-in
//! variants are immutable after construction.

use vstd::prelude::*;
use crate::node::Node;
use crate::node::NodeG;

verus! {

broadcast use vstd::std_specs::vec::group_vec_axioms, vstd::seq::group_seq_axioms;

/// The error taxonomy: malformed syntax, an unresolved name, a wrongly
/// typed value, or a missing call-site parameter.
#[derive(Clone, Copy, PartialEq, Eq, Structural, Debug)]
pub enum ErrKind {
    Syntax,
    Name,
    Type,
    Param,
}

/// Mathematical model of a runtime value.
pub enum ValueG {
    Null,
    Error { kind: ErrKind, line: u32, col: u32, message: Seq<char> },
    Literal(NodeG),
    Function { name: Seq<char>, fun_id: u64 },
    Module { name: Seq<char>, entries: Seq<(Seq<char>, ValueG)> },
}

/// A first-class runtime value: the unit value, an error carrying a source
/// position and message, a literal node for passthrough/data use, a handle
/// to a host-registered native function, or a module mapping names to
/// values (possibly nested).
pub enum Value {
    Null,
    Error { kind: ErrKind, line: u32, col: u32, message: String },
    Literal(Node),
    Function { name: String, fun_id: u64 },
    Module { name: String, entries: Vec<(String, Value)> },
}

/// The model of a list of named entries, as a module or a scope frame
/// holds them, elementwise.
pub open spec fn ents_view(es: Seq<(String, Value)>) -> Seq<(Seq<char>, ValueG)>
    decreases es,
{
    if es.len() == 0 {
        Seq::empty()
    } else {
        ents_view(es.drop_last()).push((es.last().0@, es.last().1@))
    }
}

pub broadcast proof fn lemma_ents_view_len(es: Seq<(String, Value)>)
    ensures
        #[trigger] ents_view(es).len() == es.len(),
    decreases es.len(),
{
    if es.len() > 0 {
        lemma_ents_view_len(es.drop_last());
        assert(ents_view(es) == ents_view(es.drop_last()).push((es.last().0@, es.last().1@)));
    } else {
        assert(ents_view(es) == Seq::<(Seq<char>, ValueG)>::empty());
    }
}

pub broadcast proof fn lemma_ents_view_index(es: Seq<(String, Value)>, i: int)
    requires
        0 <= i < es.len(),
    ensures
        #[trigger] ents_view(es)[i] == (es[i].0@, es[i].1@),
    decreases es.len(),
{
    lemma_ents_view_len(es);
    lemma_ents_view_len(es.drop_last());
    assert(ents_view(es) == ents_view(es.drop_last()).push((es.last().0@, es.last().1@)));
    if i < es.len() - 1 {
        lemma_ents_view_index(es.drop_last(), i);
        assert(es.drop_last()[i] == es[i]);
    } else {
        assert(es.last() == es[i]);
    }
}

impl View for Value {
    type V = ValueG;

    open spec fn view(&self) -> ValueG
        decreases self,
    {
        match self {
            Value::Null => ValueG::Null,
            Value::Error { kind, line, col, message } => ValueG::Error {
                kind: *kind,
                line: *line,
                col: *col,
                message: message@,
            },
            Value::Literal(n) => ValueG::Literal(n@),
            Value::Function { name, fun_id } => ValueG::Function {
                name: name@,
                fun_id: *fun_id,
            },
            Value::Module { name, entries } => ValueG::Module {
                name: name@,
                entries: ents_view(entries@),
            },
        }
    }
}

/// First-match lookup among named entries: the value under `name`, or
/// `None` when the name is absent.
pub open spec fn entries_get(es: Seq<(Seq<char>, ValueG)>, name: Seq<char>) -> Option<ValueG>
    decreases es.len(),
{
    if es.len() == 0 {
        None
    } else if es[0].0 == name {
        Some(es[0].1)
    } else {
        entries_get(es.drop_first(), name)
    }
}

/// Whether `name` is bound among the entries.
pub open spec fn entries_has(es: Seq<(Seq<char>, ValueG)>, name: Seq<char>) -> bool {
    entries_get(es, name) is Some
}

/// No name is bound twice: the invariant `def` maintains within a frame.
pub open spec fn entries_uniq(es: Seq<(Seq<char>, ValueG)>) -> bool {
    forall|i: int, j: int| 0 <= i < j < es.len() ==> es[i].0 != es[j].0
}

/// Binding in the entry-list model: replace the first entry under `name`,
/// or append a new one.
pub open spec fn entries_set_spec(
    es: Seq<(Seq<char>, ValueG)>,
    name: Seq<char>,
    v: ValueG,
) -> Seq<(Seq<char>, ValueG)>
    decreases es.len(),
{
    if es.len() == 0 {
        seq![(name, v)]
    } else if es[0].0 == name {
        seq![(name, v)] + es.drop_first()
    } else {
        seq![es[0]] + entries_set_spec(es.drop_first(), name, v)
    }
}

/// When the first entry under `name` sits at `i`, binding updates exactly
/// that entry.
proof fn lemma_entries_set_spec_at(
    es: Seq<(Seq<char>, ValueG)>,
    name: Seq<char>,
    v: ValueG,
    i: int,
)
    requires
        0 <= i < es.len(),
        es[i].0 == name,
        forall|j: int| 0 <= j < i ==> es[j].0 != name,
    ensures
        entries_set_spec(es, name, v) == es.update(i, (name, v)),
    decreases i,
{
    if i == 0 {
        assert(seq![(name, v)] + es.drop_first() =~= es.update(0, (name, v)));
    } else {
        lemma_entries_set_spec_at(es.drop_first(), name, v, i - 1);
        assert(es.drop_first().update(i - 1, (name, v)) =~= es.update(i, (name, v)).drop_first());
        assert(seq![es[0]] + es.update(i, (name, v)).drop_first() =~= es.update(i, (name, v)));
    }
}

/// When no entry carries `name`, binding appends.
proof fn lemma_entries_set_spec_none(es: Seq<(Seq<char>, ValueG)>, name: Seq<char>, v: ValueG)
    requires
        forall|j: int| 0 <= j < es.len() ==> es[j].0 != name,
    ensures
        entries_set_spec(es, name, v) == es.push((name, v)),
    decreases es.len(),
{
    if es.len() == 0 {
        assert(seq![(name, v)] =~= es.push((name, v)));
    } else {
        lemma_entries_set_spec_none(es.drop_first(), name, v);
        assert(es.drop_first().push((name, v)) =~= es.push((name, v)).drop_first());
        assert(es.push((name, v))[0] == es[0]);
        assert(seq![es[0]] + es.push((name, v)).drop_first() =~= es.push((name, v)));
    }
}

/// A name present at index `i` and nowhere earlier is what `entries_get`
/// returns.
pub proof fn lemma_entries_get_at(es: Seq<(Seq<char>, ValueG)>, name: Seq<char>, i: int)
    requires
        0 <= i < es.len(),
        es[i].0 == name,
        forall|j: int| 0 <= j < i ==> es[j].0 != name,
    ensures
        entries_get(es, name) == Some(es[i].1),
    decreases i,
{
    if i > 0 {
        lemma_entries_get_at(es.drop_first(), name, i - 1);
    }
}

/// A name present at no index is absent.
pub proof fn lemma_entries_get_none(es: Seq<(Seq<char>, ValueG)>, name: Seq<char>)
    requires
        forall|j: int| 0 <= j < es.len() ==> es[j].0 != name,
    ensures
        entries_get(es, name) is None,
    decreases es.len(),
{
    if es.len() > 0 {
        lemma_entries_get_none(es.drop_first(), name);
    }
}

/// A name `entries_get` misses is one no entry carries.
pub proof fn lemma_entries_get_none_rev(es: Seq<(Seq<char>, ValueG)>, name: Seq<char>)
    requires
        !entries_has(es, name),
    ensures
        forall|j: int| 0 <= j < es.len() ==> es[j].0 != name,
    decreases es.len(),
{
    if es.len() > 0 {
        lemma_entries_get_none_rev(es.drop_first(), name);
        assert forall|j: int| 0 <= j < es.len() implies es[j].0 != name by {
            if j > 0 {
                assert(es.drop_first()[j - 1] == es[j]);
            }
        }
    }
}

/// Index of the first entry named `name`, if any.
pub fn entries_find(es: &Vec<(String, Value)>, name: &String) -> (r: Option<usize>)
    ensures
        match r {
            Some(i) => i < es@.len() && es@[i as int].0@ == name@ && forall|j: int|
                0 <= j < i ==> es@[j].0@ != name@,
            None => forall|j: int| 0 <= j < es@.len() ==> es@[j].0@ != name@,
        },
{
    let mut i: usize = 0;
    while i < es.len()
        invariant
            i <= es@.len(),
            forall|j: int| 0 <= j < i ==> es@[j].0@ != name@,
        decreases es@.len() - i,
    {
        if es[i].0.eq(name) {
            return Some(i);
        }
        i = i + 1;
    }
    None
}

/// Lookups in the entry-list model are first-match lookups over the list.
pub proof fn lemma_entries_get_of_find(es: Seq<(String, Value)>, name: Seq<char>, r: Option<int>)
    requires
        match r {
            Some(i) => 0 <= i < es.len() && es[i].0@ == name && forall|j: int|
                0 <= j < i ==> es[j].0@ != name,
            None => forall|j: int| 0 <= j < es.len() ==> es[j].0@ != name,
        },
    ensures
        match r {
            Some(i) => entries_get(ents_view(es), name) == Some(es[i].1@),
            None => entries_get(ents_view(es), name) is None,
        },
{
    lemma_ents_view_len(es);
    assert forall|j: int| 0 <= j < es.len() implies ents_view(es)[j] == (es[j].0@, es[j].1@) by {
        lemma_ents_view_index(es, j);
    }
    match r {
        Some(i) => {
            lemma_entries_get_at(ents_view(es), name, i);
        },
        None => {
            lemma_entries_get_none(ents_view(es), name);
        },
    }
}

/// The value bound to `name` among the entries, as `entries_get` gives it.
pub fn entries_lookup(es: &Vec<(String, Value)>, name: &String) -> (r: Option<Value>)
    ensures
        match r {
            Some(v) => entries_get(ents_view(es@), name@) == Some(v@),
            None => entries_get(ents_view(es@), name@) is None,
        },
{
    match entries_find(es, name) {
        Some(i) => {
            let v = es[i].1.dup();
            proof {
                lemma_entries_get_of_find(es@, name@, Some(i as int));
            }
            Some(v)
        },
        None => {
            proof {
                lemma_entries_get_of_find(es@, name@, None);
            }
            None
        },
    }
}

/// Bind `name` to `v`, replacing an existing binding or appending a new
/// one. Every other binding keeps its value, and key uniqueness is kept.
pub fn entries_set(es: &mut Vec<(String, Value)>, name: String, v: Value)
    ensures
        ents_view(final(es)@) == entries_set_spec(ents_view(old(es)@), name@, v@),
        entries_get(ents_view(final(es)@), name@) == Some(v@),
        forall|other: Seq<char>| other != name@ ==> entries_get(ents_view(final(es)@), other)
            == entries_get(ents_view(old(es)@), other),
        entries_uniq(ents_view(old(es)@)) ==> entries_uniq(ents_view(final(es)@)),
{
    let ghost olds = ents_view(es@);
    let ghost gname = name@;
    let ghost gv = v@;
    proof {
        lemma_ents_view_len(es@);
        assert forall|j: int| 0 <= j < es@.len() implies olds[j] == (es@[j].0@, es@[j].1@) by {
            lemma_ents_view_index(es@, j);
        }
    }
    match entries_find(es, &name) {
        Some(i) => {
            es.set(i, (name, v));
            proof {
                let news = ents_view(es@);
                lemma_ents_view_len(es@);
                assert forall|j: int| 0 <= j < es@.len() implies news[j] == (es@[j].0@, es@[j].1@)
                    by {
                    lemma_ents_view_index(es@, j);
                }
                assert(news =~= olds.update(i as int, (gname, gv)));
                lemma_entries_set_spec_at(olds, gname, gv, i as int);
                lemma_entries_get_at(news, gname, i as int);
                assert forall|other: Seq<char>| other != gname implies entries_get(news, other)
                    == entries_get(olds, other) by {
                    lemma_entries_get_update_other(olds, i as int, (gname, gv), other);
                }
                assert(forall|k: int| 0 <= k < news.len() ==> news[k].0 == olds[k].0);
            }
        },
        None => {
            es.push((name, v));
            proof {
                let news = ents_view(es@);
                lemma_ents_view_len(es@);
                assert forall|j: int| 0 <= j < es@.len() implies news[j] == (es@[j].0@, es@[j].1@)
                    by {
                    lemma_ents_view_index(es@, j);
                }
                assert(news =~= olds.push((gname, gv)));
                lemma_entries_set_spec_none(olds, gname, gv);
                lemma_entries_get_at(news, gname, olds.len() as int);
                assert forall|other: Seq<char>| other != gname implies entries_get(news, other)
                    == entries_get(olds, other) by {
                    lemma_entries_get_push_other(olds, (gname, gv), other);
                }
                if entries_uniq(olds) {
                    assert forall|a: int, b: int| 0 <= a < b < news.len() implies news[a].0
                        != news[b].0 by {
                        if b == olds.len() as int {
                            lemma_entries_get_none(olds, gname);
                            assert(!entries_has(olds, gname));
                            lemma_entries_get_none_rev(olds, gname);
                        }
                    }
                }
            }
        },
    }
}

/// Updating one entry leaves lookups of every other name unchanged.
proof fn lemma_entries_get_update_other(
    es: Seq<(Seq<char>, ValueG)>,
    i: int,
    p: (Seq<char>, ValueG),
    other: Seq<char>,
)
    requires
        0 <= i < es.len(),
        es[i].0 == p.0,
        other != p.0,
    ensures
        entries_get(es.update(i, p), other) == entries_get(es, other),
    decreases es.len(),
{
    if es.len() > 0 {
        if i == 0 {
            assert(es.update(i, p).drop_first() =~= es.drop_first());
        } else {
            assert(es.update(i, p).drop_first() =~= es.drop_first().update(i - 1, p));
            if es[0].0 != other {
                lemma_entries_get_update_other(es.drop_first(), i - 1, p, other);
            }
        }
    }
}

/// Appending an entry leaves lookups of every other name unchanged.
proof fn lemma_entries_get_push_other(
    es: Seq<(Seq<char>, ValueG)>,
    p: (Seq<char>, ValueG),
    other: Seq<char>,
)
    requires
        other != p.0,
    ensures
        entries_get(es.push(p), other) == entries_get(es, other),
    decreases es.len(),
{
    if es.len() == 0 {
        assert(es.push(p)[0] == p);
        assert(es.push(p).drop_first() =~= Seq::<(Seq<char>, ValueG)>::empty());
    } else {
        assert(es.push(p)[0] == es[0]);
        assert(es.push(p).drop_first() =~= es.drop_first().push(p));
        if es[0].0 != other {
            lemma_entries_get_push_other(es.drop_first(), p, other);
        }
    }
}

impl ValueG {
    /// The truth test: a literal is true exactly when its content is
    /// non-empty (a leaf's text, a branch's children); every other variant
    /// is false.
    pub open spec fn truth(self) -> bool {
        match self {
            ValueG::Literal(n) => n.content_len() > 0,
            _ => false,
        }
    }
}

impl Value {
    /// Success/failure classification: the sole error-detection mechanism.
    pub fn is_error(&self) -> (r: bool)
        ensures
            r == (self@ is Error),
    {
        match self {
            Value::Error { .. } => true,
            _ => false,
        }
    }

    /// The truth test used by `if`.
    pub fn test_truth(&self) -> (r: bool)
        ensures
            r == self@.truth(),
    {
        match self {
            Value::Literal(n) => match n {
                Node::Leaf { text, .. } => !text.as_str().is_empty(),
                Node::Branch { kids, .. } => {
                    proof {
                        crate::node::lemma_kids_view_len(kids@);
                    }
                    kids.len() != 0
                },
            },
            _ => false,
        }
    }

    /// A structurally equal copy of this value. Built-in values are
    /// immutable, so shared and copied values cannot be told apart.
    #[verifier::loop_isolation(false)]
    pub fn dup(&self) -> (r: Value)
        ensures
            r@ == self@,
        decreases self,
    {
        match self {
            Value::Null => Value::Null,
            Value::Error { kind, line, col, message } => Value::Error {
                kind: *kind,
                line: *line,
                col: *col,
                message: message.clone(),
            },
            Value::Literal(n) => Value::Literal(n.dup()),
            Value::Function { name, fun_id } => Value::Function {
                name: name.clone(),
                fun_id: *fun_id,
            },
            Value::Module { name, entries } => {
                let mut out: Vec<(String, Value)> = Vec::new();
                let mut i: usize = 0;
                while i < entries.len()
                    invariant
                        i <= entries.len(),
                        out@.len() == i,
                        forall|j: int| 0 <= j < i ==> out@[j].0@ == entries@[j].0@
                            && out@[j].1@ == entries@[j].1@,
                    decreases entries.len() - i,
                {
                    let k = entries[i].0.clone();
                    let v = entries[i].1.dup();
                    out.push((k, v));
                    i = i + 1;
                }
                let r = Value::Module { name: name.clone(), entries: out };
                proof {
                    lemma_ents_view_len(out@);
                    lemma_ents_view_len(entries@);
                    assert forall|j: int| 0 <= j < entries@.len() implies ents_view(out@)[j]
                        == ents_view(entries@)[j] by {
                        lemma_ents_view_index(out@, j);
                        lemma_ents_view_index(entries@, j);
                    }
                    assert(ents_view(out@) =~= ents_view(entries@));
                }
                r
            },
        }
    }
}

/// The model of an error positioned at a node.
pub open spec fn err_at(kind: ErrKind, n: NodeG, message: Seq<char>) -> ValueG {
    ValueG::Error { kind, line: n.line(), col: n.col(), message }
}

/// An error value positioned at the given node, as every failure the
/// evaluator reports is.
pub fn error_at(kind: ErrKind, node: &Node, message: String) -> (r: Value)
    ensures
        r@ == err_at(kind, node@, message@),
{
    Value::Error { kind, line: node.line(), col: node.col(), message }
}

} // verus!

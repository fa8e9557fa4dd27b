//! `use` import resolution: a recursive walk over the import specification
//! against the nested module mappings of the external tree. A leaf imports
//! one name by grafting the referenced value into the current namespace; a
//! branch names a module and recursively imports from its contents.

use vstd::prelude::*;
use crate::node::Node;
use crate::node::NodeG;
use crate::node::lemma_kids_view_len;
use crate::node::lemma_kids_view_index;
use crate::value::Value;
use crate::value::ValueG;
use crate::value::ErrKind;
use crate::value::ents_view;
use crate::value::entries_get;
use crate::value::entries_has;
use crate::value::entries_uniq;
use crate::value::entries_lookup;
use crate::value::entries_set;
use crate::value::entries_set_spec;
use crate::value::err_at;
use crate::value::error_at;
use crate::vm::FrameV;

verus! {

broadcast use vstd::std_specs::vec::group_vec_axioms, vstd::seq::group_seq_axioms;

/// The first failure that resolving the import specification `on` against
/// the mapping `ext` produces, if any: an absent name is a name error at
/// the import node's position, a degenerate branch a syntax error, and a
/// non-module import source a type error.
pub open spec fn use_err_spec(ext: FrameV, on: NodeG) -> Option<ValueG>
    decreases on, 0int,
{
    match on {
        NodeG::Leaf { text, .. } => {
            if entries_has(ext, text) {
                None
            } else {
                Some(err_at(ErrKind::Name, on, "module item not found"@))
            }
        },
        NodeG::Branch { kids, .. } => {
            if kids.len() == 0 {
                Some(err_at(ErrKind::Syntax, on, "syntax error: empty branch in use"@))
            } else if kids.len() == 1 {
                Some(
                    err_at(
                        ErrKind::Syntax,
                        on,
                        "syntax error: this use branch doesn't import anything. Try removing the parens"@,
                    ),
                )
            } else if !(kids[0] is Leaf) {
                Some(
                    err_at(
                        ErrKind::Syntax,
                        kids[0],
                        "this should be the name of the module being imported from"@,
                    ),
                )
            } else {
                match entries_get(ext, kids[0]->Leaf_text) {
                    None => Some(err_at(ErrKind::Name, kids[0], "no such module"@)),
                    Some(m) => match m {
                        ValueG::Module { entries, .. } => use_err_list(entries, kids, 1),
                        _ => Some(
                            err_at(ErrKind::Type, kids[0], "cannot import from a non-module"@),
                        ),
                    },
                }
            }
        },
    }
}

/// The first failure among the import specifications `kids[i..]`, if any.
pub open spec fn use_err_list(ext: FrameV, kids: Seq<NodeG>, i: int) -> Option<ValueG>
    decreases kids, kids.len() - i,
{
    if i < 0 || i >= kids.len() {
        None
    } else {
        match use_err_spec(ext, kids[i]) {
            Some(e) => Some(e),
            None => use_err_list(ext, kids, i + 1),
        }
    }
}

/// The namespace after resolving the import specification `on` against
/// the mapping `ext`: each successfully imported name is bound to the
/// referenced value; resolution stops at the first failure, leaving the
/// grafts made before it and nothing else.
pub open spec fn use_apply_spec(ext: FrameV, ns: FrameV, on: NodeG) -> FrameV
    decreases on, 0int,
{
    match on {
        NodeG::Leaf { text, .. } => match entries_get(ext, text) {
            Some(v) => entries_set_spec(ns, text, v),
            None => ns,
        },
        NodeG::Branch { kids, .. } => {
            if kids.len() <= 1 {
                ns
            } else if !(kids[0] is Leaf) {
                ns
            } else {
                match entries_get(ext, kids[0]->Leaf_text) {
                    Some(m) => match m {
                        ValueG::Module { entries, .. } => use_apply_list(entries, ns, kids, 1),
                        _ => ns,
                    },
                    None => ns,
                }
            }
        },
    }
}

/// The namespace after resolving the import specifications `kids[i..]` in
/// order, stopping at the first failure.
pub open spec fn use_apply_list(ext: FrameV, ns: FrameV, kids: Seq<NodeG>, i: int) -> FrameV
    decreases kids, kids.len() - i,
{
    if i < 0 || i >= kids.len() {
        ns
    } else {
        let ns2 = use_apply_spec(ext, ns, kids[i]);
        if use_err_spec(ext, kids[i]) is Some {
            ns2
        } else {
            use_apply_list(ext, ns2, kids, i + 1)
        }
    }
}

/// Resolve one import specification `on` against the mapping `ext`,
/// grafting each imported value into the namespace `ns` (the same value,
/// not a copy at the model level). The result is exactly the first failure
/// `use_err_spec` names, and a leaf import binds the referenced value.
#[verifier::loop_isolation(false)]
pub fn use_recurse(ext: &Vec<(String, Value)>, ns: &mut Vec<(String, Value)>, on: &Node) -> (r:
    Result<(), Value>)
    ensures
        entries_uniq(ents_view(old(ns)@)) ==> entries_uniq(ents_view(final(ns)@)),
        match r {
            Ok(()) => use_err_spec(ents_view(ext@), on@) is None,
            Err(e) => use_err_spec(ents_view(ext@), on@) == Some(e@),
        },
        ents_view(final(ns)@) == use_apply_spec(ents_view(ext@), ents_view(old(ns)@), on@),
    decreases on,
{
    match on {
        Node::Leaf { text, .. } => {
            match entries_lookup(ext, text) {
                Some(v) => {
                    entries_set(ns, text.clone(), v);
                    Ok(())
                },
                None => Err(error_at(ErrKind::Name, on, "module item not found".to_owned())),
            }
        },
        Node::Branch { kids, .. } => {
            proof {
                lemma_kids_view_len(kids@);
            }
            if kids.len() == 0 {
                return Err(
                    error_at(ErrKind::Syntax, on, "syntax error: empty branch in use".to_owned()),
                );
            }
            if kids.len() == 1 {
                return Err(
                    error_at(
                        ErrKind::Syntax,
                        on,
                        "syntax error: this use branch doesn't import anything. Try removing the parens".to_owned(),
                    ),
                );
            }
            proof {
                lemma_kids_view_index(kids@, 0);
            }
            let head = &kids[0];
            match head.as_leaf_text() {
                None => Err(
                    error_at(
                        ErrKind::Syntax,
                        head,
                        "this should be the name of the module being imported from".to_owned(),
                    ),
                ),
                Some(mod_name) => {
                    match entries_lookup(ext, mod_name) {
                        None => Err(error_at(ErrKind::Name, head, "no such module".to_owned())),
                        Some(m) => {
                            let ghost mg = m@;
                            match m {
                                Value::Module { entries: sub, .. } => {
                                    let ghost extv = ents_view(ext@);
                                    let ghost subv = ents_view(sub@);
                                    let ghost kidsg = on@.kids();
                                    let ghost ns0 = ents_view(ns@);
                                    proof {
                                        assert(mg is Module);
                                        assert(mg->Module_entries == subv);
                                        assert forall|k: int| 0 <= k < kids@.len() implies kidsg[k]
                                            == kids@[k]@ by {
                                            lemma_kids_view_index(kids@, k);
                                        }
                                    }
                                    let mut j: usize = 1;
                                    while j < kids.len()
                                        invariant
                                            1 <= j <= kids@.len(),
                                            kids@.len() == kidsg.len(),
                                            forall|k: int| 0 <= k < kids@.len()
                                                ==> kidsg[k] == kids@[k]@,
                                            use_err_list(subv, kidsg, 1) == use_err_list(
                                                subv,
                                                kidsg,
                                                j as int,
                                            ),
                                            use_apply_list(subv, ns0, kidsg, 1) == use_apply_list(
                                                subv,
                                                ents_view(ns@),
                                                kidsg,
                                                j as int,
                                            ),
                                            subv == ents_view(sub@),
                                            entries_uniq(ents_view(old(ns)@)) ==> entries_uniq(
                                                ents_view(ns@),
                                            ),
                                        decreases kids@.len() - j,
                                    {
                                        proof {
                                            lemma_kids_view_index(kids@, j as int);
                                        }
                                        match use_recurse(&sub, ns, &kids[j]) {
                                            Ok(()) => {
                                                proof {
                                                    assert(use_err_spec(subv, kidsg[j as int])
                                                        is None);
                                                }
                                                j = j + 1;
                                            },
                                            Err(e) => {
                                                proof {
                                                    assert(use_err_list(subv, kidsg, j as int)
                                                        == Some(e@));
                                                    assert(use_err_spec(extv, on@) == use_err_list(
                                                        subv,
                                                        kidsg,
                                                        1,
                                                    ));
                                                }
                                                return Err(e);
                                            },
                                        }
                                    }
                                    Ok(())
                                },
                                _ => Err(
                                    error_at(
                                        ErrKind::Type,
                                        head,
                                        "cannot import from a non-module".to_owned(),
                                    ),
                                ),
                            }
                        },
                    }
                },
            }
        },
    }
}

} // verus!

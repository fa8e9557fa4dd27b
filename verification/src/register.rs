//! Host-function registration: installing a native callable at a dotted
//! path in the external module tree, auto-creating intermediate modules.
//! This runs at setup time, before evaluation; its failures are setup-time
//! errors, not runtime error values.

use vstd::prelude::*;
use crate::value::Value;
use crate::value::ValueG;
use crate::value::ents_view;
use crate::value::entries_get;
use crate::value::entries_uniq;
use crate::value::entries_lookup;
use crate::value::entries_set;
use crate::vm::FrameV;

verus! {

broadcast use vstd::std_specs::vec::group_vec_axioms, vstd::seq::group_seq_axioms;

/// A setup-time registration failure: an empty path, or a path that runs
/// through an existing entry that is not a module.
#[derive(Clone, Copy, PartialEq, Eq, Structural, Debug)]
pub enum SetupError {
    EmptyPath,
    NotAModule,
}

/// Lookup along a dotted path from `i`: each prefix segment must resolve
/// to a module, and the result is what the final segment is bound to.
pub open spec fn tree_get_path(es: FrameV, path: Seq<String>, i: int) -> Option<ValueG>
    decreases path.len() - i,
{
    if i < 0 || i >= path.len() {
        None
    } else if i == path.len() - 1 {
        entries_get(es, path[i]@)
    } else {
        match entries_get(es, path[i]@) {
            Some(m) => match m {
                ValueG::Module { entries, .. } => tree_get_path(entries, path, i + 1),
                _ => None,
            },
            None => None,
        }
    }
}

/// Whether the path from segment `i` runs only through modules or absent
/// entries: exactly the condition under which registration succeeds, the
/// final segment being overwritten whatever it held.
pub open spec fn path_clear(es: FrameV, path: Seq<String>, i: int) -> bool
    decreases path.len() - i,
{
    if i < 0 || i >= path.len() - 1 {
        true
    } else {
        match entries_get(es, path[i]@) {
            None => true,
            Some(m) => m is Module && path_clear(m->Module_entries, path, i + 1),
        }
    }
}

/// Install the function at `path[i..]` under the entries `es`, creating
/// empty modules for absent prefix segments. On failure nothing changes.
fn register_rec(es: &mut Vec<(String, Value)>, path: &Vec<String>, i: usize, fun_id: u64) -> (r:
    Result<(), SetupError>)
    requires
        i < path@.len(),
    ensures
        r is Ok <==> path_clear(ents_view(old(es)@), path@, i as int),
        r is Ok ==> tree_get_path(ents_view(final(es)@), path@, i as int) == Some(
            ValueG::Function { name: path@.last()@, fun_id },
        ),
        r is Ok ==> forall|o: Seq<char>| o != path@[i as int]@ ==> entries_get(
            ents_view(final(es)@),
            o,
        ) == entries_get(ents_view(old(es)@), o),
        entries_uniq(ents_view(old(es)@)) ==> entries_uniq(ents_view(final(es)@)),
        r is Err ==> final(es)@ == old(es)@ && r->Err_0 == SetupError::NotAModule,
    decreases path@.len() - i,
{
    let name = path[i].clone();
    if i == path.len() - 1 {
        let f = Value::Function { name: path[i].clone(), fun_id };
        entries_set(es, name, f);
        Ok(())
    } else {
        match entries_lookup(es, &path[i]) {
            Some(found) => {
                let ghost mg = found@;
                match found {
                    Value::Module { name: mname, entries: mut sub } => {
                        let rr = register_rec(&mut sub, path, i + 1, fun_id);
                        match rr {
                            Ok(()) => {
                                let m = Value::Module { name: mname, entries: sub };
                                entries_set(es, name, m);
                                Ok(())
                            },
                            Err(e) => Err(e),
                        }
                    },
                    _ => Err(SetupError::NotAModule),
                }
            },
            None => {
                let mut sub: Vec<(String, Value)> = Vec::new();
                let rr = register_rec(&mut sub, path, i + 1, fun_id);
                match rr {
                    Ok(()) => {
                        let m = Value::Module { name: path[i].clone(), entries: sub };
                        entries_set(es, name, m);
                        Ok(())
                    },
                    Err(e) => Err(e),
                }
            },
        }
    }
}

/// Register a native callable under a dotted path in the external tree:
/// each prefix segment resolves to a module, auto-created when absent; the
/// final segment is bound to a function value carrying the host's function
/// id. An empty path is refused, and a path through a non-module entry is
/// refused with nothing changed.
pub fn register_function(
    external: &mut Vec<(String, Value)>,
    path: &Vec<String>,
    fun_id: u64,
) -> (r: Result<(), SetupError>)
    ensures
        (r == Result::<(), SetupError>::Err(SetupError::EmptyPath)) <==> path@.len() == 0,
        r is Ok <==> path@.len() >= 1 && path_clear(ents_view(old(external)@), path@, 0),
        r is Ok ==> tree_get_path(ents_view(final(external)@), path@, 0) == Some(
            ValueG::Function { name: path@.last()@, fun_id },
        ),
        path@.len() >= 1 ==> forall|o: Seq<char>| o != path@[0]@ ==> entries_get(
            ents_view(final(external)@),
            o,
        ) == entries_get(ents_view(old(external)@), o),
        entries_uniq(ents_view(old(external)@)) ==> entries_uniq(ents_view(final(external)@)),
        r is Err ==> final(external)@ == old(external)@,
{
    if path.len() == 0 {
        Err(SetupError::EmptyPath)
    } else {
        match register_rec(external, path, 0, fun_id) {
            Ok(()) => Ok(()),
            Err(e) => Err(e),
        }
    }
}

} // verus!

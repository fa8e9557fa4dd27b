//! The evaluation state: a stack of lexical scope frames, innermost last,
//! and the external host-module tree, populated once at startup by host
//! registration and read-only thereafter.

use vstd::prelude::*;
use crate::value::Value;
use crate::value::ValueG;
use crate::value::ents_view;
use crate::value::entries_get;
use crate::value::entries_has;
use crate::value::entries_uniq;
use crate::value::entries_find;
use crate::value::entries_lookup;
use crate::value::entries_set;
use crate::value::entries_set_spec;
use crate::value::lemma_ents_view_len;
use crate::value::lemma_entries_get_of_find;

verus! {

broadcast use vstd::std_specs::vec::group_vec_axioms, vstd::seq::group_seq_axioms;

/// The model of one scope frame: its name-to-value bindings, in binding
/// order.
pub type FrameV = Seq<(Seq<char>, ValueG)>;

/// One block's local namespace: a mapping from name to value with unique
/// keys within the frame.
pub struct Scope {
    pub entries: Vec<(String, Value)>,
}

impl View for Scope {
    type V = FrameV;

    open spec fn view(&self) -> FrameV {
        ents_view(self.entries@)
    }
}

/// The models of a stack of frames, elementwise, innermost last.
pub open spec fn frames_view(s: Seq<Scope>) -> Seq<FrameV>
    decreases s,
{
    if s.len() == 0 {
        Seq::empty()
    } else {
        frames_view(s.drop_last()).push(s.last()@)
    }
}

pub broadcast proof fn lemma_frames_view_len(s: Seq<Scope>)
    ensures
        #[trigger] frames_view(s).len() == s.len(),
    decreases s.len(),
{
    if s.len() > 0 {
        lemma_frames_view_len(s.drop_last());
        assert(frames_view(s) == frames_view(s.drop_last()).push(s.last()@));
    } else {
        assert(frames_view(s) == Seq::<FrameV>::empty());
    }
}

pub broadcast proof fn lemma_frames_view_index(s: Seq<Scope>, i: int)
    requires
        0 <= i < s.len(),
    ensures
        #[trigger] frames_view(s)[i] == s[i]@,
    decreases s.len(),
{
    lemma_frames_view_len(s);
    lemma_frames_view_len(s.drop_last());
    assert(frames_view(s) == frames_view(s.drop_last()).push(s.last()@));
    if i < s.len() - 1 {
        lemma_frames_view_index(s.drop_last(), i);
        assert(s.drop_last()[i] == s[i]);
    } else {
        assert(s.last() == s[i]);
    }
}

/// Name resolution over a scope stack: innermost frame first, first match
/// wins; `None` when no frame binds the name.
pub open spec fn frames_lookup(fs: Seq<FrameV>, name: Seq<char>) -> Option<ValueG>
    decreases fs.len(),
{
    if fs.len() == 0 {
        None
    } else {
        match entries_get(fs.last(), name) {
            Some(v) => Some(v),
            None => frames_lookup(fs.drop_last(), name),
        }
    }
}

/// The evaluation state of one program: the scope stack and the external
/// module tree `use` resolves against.
pub struct Vm {
    pub scopes: Vec<Scope>,
    pub external: Vec<(String, Value)>,
}

impl Vm {
    /// The model of the scope stack, innermost frame last.
    pub open spec fn frames(self) -> Seq<FrameV> {
        frames_view(self.scopes@)
    }

    /// The model of the external module tree's root entries.
    pub open spec fn ext(self) -> FrameV {
        ents_view(self.external@)
    }

    /// The number of open scope frames.
    pub open spec fn depth(self) -> nat {
        self.scopes@.len()
    }

    /// Well-formed state: the stack is non-empty whenever evaluation runs,
    /// and no frame binds a name twice.
    pub open spec fn wf(self) -> bool {
        &&& self.depth() >= 1
        &&& forall|i: int| 0 <= i < self.frames().len() ==> entries_uniq(#[trigger] self.frames()[i])
    }

    /// A fresh state over a host-populated external tree, with one empty
    /// root frame open.
    pub fn new(external: Vec<(String, Value)>) -> (r: Vm)
        ensures
            r.wf(),
            r.depth() == 1,
            r.frames()[0] == Seq::<(Seq<char>, ValueG)>::empty(),
            r.ext() == ents_view(external@),
    {
        let mut scopes: Vec<Scope> = Vec::new();
        scopes.push(Scope { entries: Vec::new() });
        let r = Vm { scopes, external };
        proof {
            lemma_frames_view_len(r.scopes@);
            lemma_frames_view_index(r.scopes@, 0);
            lemma_ents_view_len(r.scopes@[0].entries@);
            assert(r.frames()[0] =~= Seq::<(Seq<char>, ValueG)>::empty());
        }
        r
    }

    /// Open a fresh, empty innermost frame (block entry).
    pub fn push_scope(&mut self)
        requires
            old(self).wf(),
        ensures
            final(self).wf(),
            final(self).frames() == old(self).frames().push(
                Seq::<(Seq<char>, ValueG)>::empty(),
            ),
            final(self).depth() == old(self).depth() + 1,
            final(self).ext() == old(self).ext(),
    {
        self.scopes.push(Scope { entries: Vec::new() });
        proof {
            lemma_frames_view_len(self.scopes@);
            lemma_frames_view_len(old(self).scopes@);
            assert(self.scopes@.drop_last() =~= old(self).scopes@);
            assert(frames_view(self.scopes@) == frames_view(self.scopes@.drop_last()).push(
                self.scopes@.last()@,
            ));
            lemma_ents_view_len(self.scopes@.last().entries@);
            assert(self.scopes@.last()@ =~= Seq::<(Seq<char>, ValueG)>::empty());
            assert forall|i: int| 0 <= i < self.frames().len() implies entries_uniq(
                #[trigger] self.frames()[i],
            ) by {
                lemma_frames_view_index(self.scopes@, i);
                if i < old(self).scopes@.len() {
                    lemma_frames_view_index(old(self).scopes@, i);
                    assert(old(self).frames()[i] == old(self).scopes@[i]@);
                }
            }
        }
    }

    /// Close the innermost frame (block exit, strictly LIFO).
    pub fn pop_scope(&mut self)
        requires
            old(self).wf(),
            old(self).depth() >= 2,
        ensures
            final(self).wf(),
            final(self).frames() == old(self).frames().drop_last(),
            final(self).depth() == old(self).depth() - 1,
            final(self).ext() == old(self).ext(),
    {
        let _ = self.scopes.pop();
        proof {
            lemma_frames_view_len(self.scopes@);
            lemma_frames_view_len(old(self).scopes@);
            assert(self.scopes@ =~= old(self).scopes@.drop_last());
            assert(frames_view(old(self).scopes@) == frames_view(
                old(self).scopes@.drop_last(),
            ).push(old(self).scopes@.last()@));
            assert(final(self).frames() =~= old(self).frames().drop_last());
            assert forall|i: int| 0 <= i < self.frames().len() implies entries_uniq(
                #[trigger] self.frames()[i],
            ) by {
                assert(self.frames()[i] == old(self).frames().drop_last()[i]);
                assert(old(self).frames()[i] == old(self).frames().drop_last()[i]);
            }
        }
    }

    /// Whether the innermost frame already binds `name`: what `def` checks.
    pub fn top_has(&self, name: &String) -> (r: bool)
        requires
            self.wf(),
        ensures
            r == entries_has(self.frames().last(), name@),
    {
        proof {
            lemma_frames_view_len(self.scopes@);
            lemma_frames_view_index(self.scopes@, self.scopes@.len() - 1);
        }
        let top = &self.scopes[self.scopes.len() - 1];
        let found = entries_find(&top.entries, name);
        proof {
            match found {
                Some(i) => {
                    lemma_entries_get_of_find(top.entries@, name@, Some(i as int));
                },
                None => {
                    lemma_entries_get_of_find(top.entries@, name@, None);
                },
            }
        }
        found.is_some()
    }

    /// Bind `name` to `v` in the innermost frame, replacing an existing
    /// binding; outer frames are untouched.
    pub fn bind_in_top(&mut self, name: String, v: Value)
        requires
            old(self).wf(),
        ensures
            final(self).wf(),
            final(self).depth() == old(self).depth(),
            final(self).ext() == old(self).ext(),
            final(self).frames() == old(self).frames().update(
                old(self).frames().len() - 1,
                entries_set_spec(old(self).frames().last(), name@, v@),
            ),
            final(self).frames().len() == old(self).frames().len(),
            forall|i: int| 0 <= i < old(self).frames().len() - 1 ==> final(self).frames()[i]
                == old(self).frames()[i],
            entries_get(final(self).frames().last(), name@) == Some(v@),
            forall|other: Seq<char>| other != name@ ==> entries_get(
                final(self).frames().last(),
                other,
            ) == entries_get(old(self).frames().last(), other),
    {
        proof {
            lemma_frames_view_len(self.scopes@);
            lemma_frames_view_index(self.scopes@, self.scopes@.len() - 1);
        }
        let mut top = match self.scopes.pop() {
            Some(t) => t,
            None => unreached(),
        };
        entries_set(&mut top.entries, name, v);
        self.scopes.push(top);
        proof {
            let oldsc = old(self).scopes@;
            let newsc = self.scopes@;
            lemma_frames_view_len(newsc);
            lemma_frames_view_len(oldsc);
            assert(newsc.drop_last() =~= oldsc.drop_last());
            assert(frames_view(newsc) == frames_view(newsc.drop_last()).push(newsc.last()@));
            assert(frames_view(oldsc) == frames_view(oldsc.drop_last()).push(oldsc.last()@));
            assert forall|i: int| 0 <= i < old(self).frames().len() - 1 implies
                final(self).frames()[i] == old(self).frames()[i] by {
                lemma_frames_view_index(newsc, i);
                lemma_frames_view_index(oldsc, i);
                assert(newsc[i] == oldsc[i]);
            }
            assert(final(self).frames().last() == newsc.last()@);
            assert(old(self).frames().last() == oldsc.last()@);
            assert(final(self).frames() =~= old(self).frames().update(
                old(self).frames().len() - 1,
                entries_set_spec(old(self).frames().last(), name@, v@),
            ));
            assert forall|i: int| 0 <= i < self.frames().len() implies entries_uniq(
                #[trigger] self.frames()[i],
            ) by {
                lemma_frames_view_index(newsc, i);
                lemma_frames_view_index(oldsc, i);
                if i < self.frames().len() - 1 {
                    assert(old(self).frames()[i] == oldsc[i]@);
                }
            }
        }
    }

    /// Resolve `name` through the scope stack, innermost frame first; the
    /// first frame containing the name wins.
    pub fn lookup(&self, name: &String) -> (r: Option<Value>)
        requires
            self.wf(),
        ensures
            match r {
                Some(v) => frames_lookup(self.frames(), name@) == Some(v@),
                None => frames_lookup(self.frames(), name@) is None,
            },
    {
        proof {
            lemma_frames_view_len(self.scopes@);
            assert(self.frames() =~= self.frames().take(self.scopes@.len() as int));
        }
        let mut j: usize = self.scopes.len();
        while j > 0
        invariant
            self.wf(),
            j <= self.scopes@.len(),
            frames_lookup(self.frames(), name@) == frames_lookup(
                self.frames().take(j as int),
                name@,
            ),
        decreases j,
        {
            j = j - 1;
            let found = entries_lookup(&self.scopes[j].entries, name);
            proof {
                lemma_frames_view_len(self.scopes@);
                lemma_frames_view_index(self.scopes@, j as int);
                let pre = self.frames().take(j as int + 1);
                assert(pre.last() == self.frames()[j as int]);
                assert(pre.drop_last() =~= self.frames().take(j as int));
                assert(frames_lookup(pre, name@) == (match entries_get(pre.last(), name@) {
                    Some(v) => Some(v),
                    None => frames_lookup(pre.drop_last(), name@),
                }));
            }
            match found {
                Some(v) => {
                    return Some(v);
                },
                None => {
                },
            }
        }
        proof {
            assert(self.frames().take(0) =~= Seq::<FrameV>::empty());
        }
        None
    }
}

} // verus!

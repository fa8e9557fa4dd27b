//! The syntax tree the evaluator consumes: an immutable tree element with
//! a head token, ordered children, and a source position (line, column).
//! The tree is produced by an external parser; the evaluator never mutates
//! nodes.

use vstd::prelude::*;

verus! {

broadcast use vstd::std_specs::vec::group_vec_axioms, vstd::seq::group_seq_axioms;

/// Mathematical model of a syntax-tree node.
pub enum NodeG {
    Leaf { text: Seq<char>, line: u32, col: u32 },
    Branch { kids: Seq<NodeG>, line: u32, col: u32 },
}

/// A syntax-tree node: either a leaf token or a branch of child nodes,
/// each carrying the source position it was parsed at.
pub enum Node {
    Leaf { text: String, line: u32, col: u32 },
    Branch { kids: Vec<Node>, line: u32, col: u32 },
}

/// The models of a sequence of nodes, elementwise.
pub open spec fn kids_view(s: Seq<Node>) -> Seq<NodeG>
    decreases s,
{
    if s.len() == 0 {
        Seq::empty()
    } else {
        kids_view(s.drop_last()).push(s.last()@)
    }
}

pub broadcast proof fn lemma_kids_view_len(s: Seq<Node>)
    ensures
        #[trigger] kids_view(s).len() == s.len(),
    decreases s.len(),
{
    if s.len() > 0 {
        lemma_kids_view_len(s.drop_last());
        assert(kids_view(s) == kids_view(s.drop_last()).push(s.last()@));
    } else {
        assert(kids_view(s) == Seq::<NodeG>::empty());
    }
}

pub broadcast proof fn lemma_kids_view_index(s: Seq<Node>, i: int)
    requires
        0 <= i < s.len(),
    ensures
        #[trigger] kids_view(s)[i] == s[i]@,
    decreases s.len(),
{
    lemma_kids_view_len(s);
    lemma_kids_view_len(s.drop_last());
    assert(kids_view(s) == kids_view(s.drop_last()).push(s.last()@));
    if i < s.len() - 1 {
        lemma_kids_view_index(s.drop_last(), i);
        assert(kids_view(s)[i] == kids_view(s.drop_last())[i]);
        assert(s.drop_last()[i] == s[i]);
    } else {
        assert(s.last() == s[i]);
    }
}

impl View for Node {
    type V = NodeG;

    open spec fn view(&self) -> NodeG
        decreases self,
    {
        match self {
            Node::Leaf { text, line, col } => NodeG::Leaf {
                text: text@,
                line: *line,
                col: *col,
            },
            Node::Branch { kids, line, col } => NodeG::Branch {
                kids: kids_view(kids@),
                line: *line,
                col: *col,
            },
        }
    }
}

impl NodeG {
    /// The head token of a node: a leaf's own text; for a branch, the text
    /// of its first child when that child is a leaf, else the empty string.
    pub open spec fn head_str(self) -> Seq<char> {
        match self {
            NodeG::Leaf { text, .. } => text,
            NodeG::Branch { kids, .. } => {
                if kids.len() > 0 {
                    match kids[0] {
                        NodeG::Leaf { text, .. } => text,
                        NodeG::Branch { .. } => Seq::empty(),
                    }
                } else {
                    Seq::empty()
                }
            },
        }
    }

    pub open spec fn line(self) -> u32 {
        match self {
            NodeG::Leaf { line, .. } => line,
            NodeG::Branch { line, .. } => line,
        }
    }

    pub open spec fn col(self) -> u32 {
        match self {
            NodeG::Leaf { col, .. } => col,
            NodeG::Branch { col, .. } => col,
        }
    }

    /// The children of a branch; a leaf has none.
    pub open spec fn kids(self) -> Seq<NodeG> {
        match self {
            NodeG::Leaf { .. } => Seq::empty(),
            NodeG::Branch { kids, .. } => kids,
        }
    }

    /// Number of elements a node holds: a branch's child count, a leaf's
    /// character count. "Non-empty content" is the truth test of a literal.
    pub open spec fn content_len(self) -> nat {
        match self {
            NodeG::Leaf { text, .. } => text.len(),
            NodeG::Branch { kids, .. } => kids.len(),
        }
    }
}

impl Node {
    /// Source line of this node.
    pub fn line(&self) -> (r: u32)
        ensures
            r == self@.line(),
    {
        match self {
            Node::Leaf { line, .. } => *line,
            Node::Branch { line, .. } => *line,
        }
    }

    /// Source column of this node.
    pub fn col(&self) -> (r: u32)
        ensures
            r == self@.col(),
    {
        match self {
            Node::Leaf { col, .. } => *col,
            Node::Branch { col, .. } => *col,
        }
    }

    /// Build a leaf node.
    pub fn leaf(text: String, line: u32, col: u32) -> (r: Node)
        ensures
            r@ == (NodeG::Leaf { text: text@, line, col }),
    {
        Node::Leaf { text, line, col }
    }

    /// Build a branch node.
    pub fn branch(kids: Vec<Node>, line: u32, col: u32) -> (r: Node)
        ensures
            r@ is Branch,
            r@.kids().len() == kids@.len(),
            forall|i: int| 0 <= i < kids@.len() ==> r@.kids()[i] == kids@[i]@,
            r@.line() == line,
            r@.col() == col,
    {
        proof {
            lemma_kids_view_len(kids@);
            assert forall|i: int| 0 <= i < kids@.len() implies kids_view(kids@)[i] == kids@[i]@ by {
                lemma_kids_view_index(kids@, i);
            }
        }
        Node::Branch { kids, line, col }
    }

    /// The head token text, or None for a branch whose first child is
    /// itself a branch (a compound head) or an empty branch.
    pub fn head_leaf_text(&self) -> (r: Option<&String>)
        ensures
            match r {
                Some(t) => t@ == self@.head_str() && (self@ is Leaf || (self@.kids().len() > 0
                    && self@.kids()[0] is Leaf)),
                None => !(self@ is Leaf) && (self@.kids().len() == 0
                    || !(self@.kids()[0] is Leaf)),
            },
    {
        match self {
            Node::Leaf { text, .. } => Some(text),
            Node::Branch { kids, .. } => {
                proof {
                    lemma_kids_view_len(kids@);
                    if kids@.len() > 0 {
                        lemma_kids_view_index(kids@, 0);
                    }
                }
                if kids.len() > 0 {
                    match &kids[0] {
                        Node::Leaf { text, .. } => Some(text),
                        Node::Branch { .. } => None,
                    }
                } else {
                    None
                }
            },
        }
    }

    /// Number of children of a branch; 0 for a leaf.
    pub fn kid_count(&self) -> (r: usize)
        ensures
            r == self@.kids().len(),
    {
        match self {
            Node::Leaf { .. } => 0,
            Node::Branch { kids, .. } => {
                proof {
                    lemma_kids_view_len(kids@);
                }
                kids.len()
            },
        }
    }

    /// The i-th child of a branch.
    pub fn kid(&self, i: usize) -> (r: &Node)
        requires
            i < self@.kids().len(),
        ensures
            r@ == self@.kids()[i as int],
            self@ is Branch,
            *r == self->Branch_kids[i as int],
            decreases_to!(*self => *r),
    {
        match self {
            Node::Leaf { .. } => unreached(),
            Node::Branch { kids, .. } => {
                proof {
                    lemma_kids_view_len(kids@);
                    lemma_kids_view_index(kids@, i as int);
                }
                &kids[i]
            },
        }
    }

    /// The text of this node when it is a leaf token.
    pub fn as_leaf_text(&self) -> (r: Option<&String>)
        ensures
            match r {
                Some(t) => self@ is Leaf && t@ == self@->Leaf_text,
                None => !(self@ is Leaf),
            },
    {
        match self {
            Node::Leaf { text, .. } => Some(text),
            Node::Branch { .. } => None,
        }
    }

    /// A structurally equal copy of this node.
    #[verifier::loop_isolation(false)]
    pub fn dup(&self) -> (r: Node)
        ensures
            r@ == self@,
        decreases self,
    {
        match self {
            Node::Leaf { text, line, col } => Node::Leaf {
                text: text.clone(),
                line: *line,
                col: *col,
            },
            Node::Branch { kids, line, col } => {
                let mut out: Vec<Node> = Vec::new();
                let mut i: usize = 0;
                while i < kids.len()
                    invariant
                        i <= kids.len(),
                        out@.len() == i,
                        forall|j: int| 0 <= j < i ==> out@[j]@ == kids@[j]@,
                    decreases kids.len() - i,
                {
                    let k = kids[i].dup();
                    out.push(k);
                    i = i + 1;
                }
                let r = Node::Branch { kids: out, line: *line, col: *col };
                proof {
                    lemma_kids_view_len(out@);
                    lemma_kids_view_len(kids@);
                    assert forall|j: int| 0 <= j < kids@.len() implies kids_view(out@)[j]
                        == kids_view(kids@)[j] by {
                        lemma_kids_view_index(out@, j);
                        lemma_kids_view_index(kids@, j);
                    }
                    assert(kids_view(out@) =~= kids_view(kids@));
                }
                r
            },
        }
    }
}

} // verus!

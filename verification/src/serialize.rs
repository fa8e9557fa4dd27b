//! Serialization of values back into the tree notation: the program result
//! is the serialized form of the final value. A literal value serializes to
//! exactly the node it wraps, so literal content round-trips to its
//! original textual form.

use vstd::prelude::*;
use crate::node::Node;
use crate::node::NodeG;
use crate::node::kids_view;
use crate::node::lemma_kids_view_len;
use crate::node::lemma_kids_view_index;
use crate::value::Value;
use crate::value::ValueG;
use crate::value::ErrKind;

verus! {

broadcast use vstd::std_specs::vec::group_vec_axioms, vstd::seq::group_seq_axioms;

/// The printed name of an error kind.
pub open spec fn kind_str(k: ErrKind) -> Seq<char> {
    match k {
        ErrKind::Syntax => "SyntaxError"@,
        ErrKind::Name => "NameError"@,
        ErrKind::Type => "TypeError"@,
        ErrKind::Param => "ParamError"@,
    }
}

/// The decimal digit character for `d < 10`.
pub open spec fn dec_digit(d: nat) -> char {
    if d == 0 {
        '0'
    } else if d == 1 {
        '1'
    } else if d == 2 {
        '2'
    } else if d == 3 {
        '3'
    } else if d == 4 {
        '4'
    } else if d == 5 {
        '5'
    } else if d == 6 {
        '6'
    } else if d == 7 {
        '7'
    } else if d == 8 {
        '8'
    } else {
        '9'
    }
}

/// The decimal notation of a natural number, most significant digit first.
pub open spec fn dec_str(n: nat) -> Seq<char>
    decreases n,
{
    if n < 10 {
        seq![dec_digit(n)]
    } else {
        dec_str(n / 10).push(dec_digit(n % 10))
    }
}

/// The tree form of a value: the unit value prints as `null`, an error as
/// a record of its kind, position and message, a literal as the node it
/// wraps, and a callable or module as a tagged name. Nodes synthesized
/// here carry the null position (0, 0).
pub open spec fn serialize_spec(v: ValueG) -> NodeG {
    match v {
        ValueG::Null => NodeG::Leaf { text: "null"@, line: 0, col: 0 },
        ValueG::Error { kind, line, col, message } => NodeG::Branch {
            kids: seq![
                NodeG::Leaf { text: "Error"@, line: 0, col: 0 },
                NodeG::Branch {
                    kids: seq![
                        NodeG::Leaf { text: "kind"@, line: 0, col: 0 },
                        NodeG::Leaf { text: kind_str(kind), line: 0, col: 0 },
                    ],
                    line: 0,
                    col: 0,
                },
                NodeG::Branch {
                    kids: seq![
                        NodeG::Leaf { text: "line"@, line: 0, col: 0 },
                        NodeG::Leaf { text: dec_str(line as nat), line: 0, col: 0 },
                    ],
                    line: 0,
                    col: 0,
                },
                NodeG::Branch {
                    kids: seq![
                        NodeG::Leaf { text: "column"@, line: 0, col: 0 },
                        NodeG::Leaf { text: dec_str(col as nat), line: 0, col: 0 },
                    ],
                    line: 0,
                    col: 0,
                },
                NodeG::Branch {
                    kids: seq![
                        NodeG::Leaf { text: "message"@, line: 0, col: 0 },
                        NodeG::Leaf { text: message, line: 0, col: 0 },
                    ],
                    line: 0,
                    col: 0,
                },
            ],
            line: 0,
            col: 0,
        },
        ValueG::Literal(n) => n,
        ValueG::Function { name, .. } => NodeG::Leaf { text: "function:"@ + name, line: 0, col: 0 },
        ValueG::Module { name, .. } => NodeG::Leaf { text: "module:"@ + name, line: 0, col: 0 },
    }
}

/// The decimal digit string for `d < 10`.
fn digit_str(d: u32) -> (r: &'static str)
    requires
        d < 10,
    ensures
        r@ == seq![dec_digit(d as nat)],
{
    if d == 0 {
        proof {
            reveal_strlit("0");
            assert("0"@ =~= seq![dec_digit(0)]);
        }
        "0"
    } else if d == 1 {
        proof {
            reveal_strlit("1");
            assert("1"@ =~= seq![dec_digit(1)]);
        }
        "1"
    } else if d == 2 {
        proof {
            reveal_strlit("2");
            assert("2"@ =~= seq![dec_digit(2)]);
        }
        "2"
    } else if d == 3 {
        proof {
            reveal_strlit("3");
            assert("3"@ =~= seq![dec_digit(3)]);
        }
        "3"
    } else if d == 4 {
        proof {
            reveal_strlit("4");
            assert("4"@ =~= seq![dec_digit(4)]);
        }
        "4"
    } else if d == 5 {
        proof {
            reveal_strlit("5");
            assert("5"@ =~= seq![dec_digit(5)]);
        }
        "5"
    } else if d == 6 {
        proof {
            reveal_strlit("6");
            assert("6"@ =~= seq![dec_digit(6)]);
        }
        "6"
    } else if d == 7 {
        proof {
            reveal_strlit("7");
            assert("7"@ =~= seq![dec_digit(7)]);
        }
        "7"
    } else if d == 8 {
        proof {
            reveal_strlit("8");
            assert("8"@ =~= seq![dec_digit(8)]);
        }
        "8"
    } else {
        proof {
            reveal_strlit("9");
            assert("9"@ =~= seq![dec_digit(9)]);
        }
        "9"
    }
}

/// Render a number in decimal notation.
pub fn u32_str(x: u32) -> (r: String)
    ensures
        r@ == dec_str(x as nat),
    decreases x,
{
    let d = x % 10;
    let rest = x / 10;
    if rest == 0 {
        digit_str(d).to_owned()
    } else {
        let mut s = u32_str(rest);
        s.append(digit_str(d));
        s
    }
}

/// The printed name of an error kind.
pub fn kind_str_exec(k: ErrKind) -> (r: String)
    ensures
        r@ == kind_str(k),
{
    match k {
        ErrKind::Syntax => "SyntaxError".to_owned(),
        ErrKind::Name => "NameError".to_owned(),
        ErrKind::Type => "TypeError".to_owned(),
        ErrKind::Param => "ParamError".to_owned(),
    }
}

/// Serialize a value to its tree form, per `serialize_spec`.
pub fn serialize(v: &Value) -> (r: Node)
    ensures
        r@ == serialize_spec(v@),
{
    match v {
        Value::Null => Node::Leaf { text: "null".to_owned(), line: 0, col: 0 },
        Value::Error { kind, line, col, message } => {
            let mut kids: Vec<Node> = Vec::new();
            kids.push(Node::Leaf { text: "Error".to_owned(), line: 0, col: 0 });
            kids.push(pair_branch("kind".to_owned(), kind_str_exec(*kind)));
            kids.push(pair_branch("line".to_owned(), u32_str(*line)));
            kids.push(pair_branch("column".to_owned(), u32_str(*col)));
            kids.push(pair_branch("message".to_owned(), message.clone()));
            let r = Node::Branch { kids, line: 0, col: 0 };
            proof {
                let expect = serialize_spec(v@);
                lemma_kids_view_len(r->Branch_kids@);
                assert forall|i: int| 0 <= i < 5 implies kids_view(r->Branch_kids@)[i]
                    == r->Branch_kids@[i]@ by {
                    lemma_kids_view_index(r->Branch_kids@, i);
                }
                assert(r@.kids() =~= expect->Branch_kids);
            }
            r
        },
        Value::Literal(n) => n.dup(),
        Value::Function { name, .. } => Node::Leaf {
            text: "function:".to_owned().concat(name.as_str()),
            line: 0,
            col: 0,
        },
        Value::Module { name, .. } => Node::Leaf {
            text: "module:".to_owned().concat(name.as_str()),
            line: 0,
            col: 0,
        },
    }
}

/// A two-element branch `(key value)` at the null position.
fn pair_branch(key: String, val: String) -> (r: Node)
    ensures
        r@ == (NodeG::Branch {
            kids: seq![
                NodeG::Leaf { text: key@, line: 0, col: 0 },
                NodeG::Leaf { text: val@, line: 0, col: 0 },
            ],
            line: 0,
            col: 0,
        }),
{
    let mut kids: Vec<Node> = Vec::new();
    kids.push(Node::Leaf { text: key, line: 0, col: 0 });
    kids.push(Node::Leaf { text: val, line: 0, col: 0 });
    let r = Node::Branch { kids, line: 0, col: 0 };
    proof {
        lemma_kids_view_len(r->Branch_kids@);
        assert forall|i: int| 0 <= i < 2 implies kids_view(r->Branch_kids@)[i]
            == r->Branch_kids@[i]@ by {
            lemma_kids_view_index(r->Branch_kids@, i);
        }
        assert(r@.kids() =~= seq![
            NodeG::Leaf { text: key@, line: 0, col: 0 },
            NodeG::Leaf { text: val@, line: 0, col: 0 },
        ]);
    }
    r
}

/// A literal value serializes back to exactly the node it wraps: for any
/// node evaluated through as literal content, the serialized result is the
/// original tree, hence the original textual form.
pub proof fn lemma_literal_roundtrip(n: NodeG)
    ensures
        serialize_spec(ValueG::Literal(n)) == n,
{
}

} // verus!

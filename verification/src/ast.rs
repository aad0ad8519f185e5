//! The syntax tree of a program, and its value as a mathematical tree.
use vstd::prelude::*;

use crate::error::Loc;

verus! {

/// A node of the syntax tree: a literal, an identifier, a type name or a
/// parenthesised list. A float literal is held as the bit pattern of its
/// IEEE-754 double (`f64::to_bits`).
#[derive(Debug)]
pub enum Expr {
    Int(i64, Loc),
    Float(u64, Loc),
    Bool(bool, Loc),
    Str(String, Loc),
    Id(String, Loc),
    TypeName(String, Loc),
    List(Vec<Expr>, Loc),
}

/// A syntax tree as a mathematical value: strings are character sequences
/// and the items of a list a sequence of trees.
pub enum Node {
    Int(i64, Loc),
    Float(u64, Loc),
    Bool(bool, Loc),
    Str(Seq<char>, Loc),
    Id(Seq<char>, Loc),
    TypeName(Seq<char>, Loc),
    List(Seq<Node>, Loc),
}

/// The mathematical value of a syntax tree.
pub open spec fn node_of(e: Expr) -> Node
    decreases e,
{
    match e {
        Expr::Int(n, l) => Node::Int(n, l),
        Expr::Float(b, l) => Node::Float(b, l),
        Expr::Bool(b, l) => Node::Bool(b, l),
        Expr::Str(s, l) => Node::Str(s@, l),
        Expr::Id(s, l) => Node::Id(s@, l),
        Expr::TypeName(s, l) => Node::TypeName(s@, l),
        Expr::List(v, l) => Node::List(nodes_of(v@), l),
    }
}

/// The mathematical values of a sequence of syntax trees.
pub open spec fn nodes_of(s: Seq<Expr>) -> Seq<Node>
    decreases s,
{
    if s.len() == 0 {
        Seq::empty()
    } else {
        nodes_of(s.drop_last()).push(node_of(s.last()))
    }
}

impl View for Expr {
    type V = Node;

    open spec fn view(&self) -> Node {
        node_of(*self)
    }
}

/// `nodes_of` maps each tree to its value, position by position.
pub proof fn lemma_nodes_of(s: Seq<Expr>)
    ensures
        nodes_of(s).len() == s.len(),
        forall|i: int| 0 <= i < s.len() ==> #[trigger] nodes_of(s)[i] == node_of(s[i]),
    decreases s.len(),
{
    if s.len() > 0 {
        lemma_nodes_of(s.drop_last());
    }
}

/// The source position of a node.
pub open spec fn loc_of(e: Node) -> Loc {
    match e {
        Node::Int(_, l) => l,
        Node::Float(_, l) => l,
        Node::Bool(_, l) => l,
        Node::Str(_, l) => l,
        Node::Id(_, l) => l,
        Node::TypeName(_, l) => l,
        Node::List(_, l) => l,
    }
}

impl Expr {
    /// The source position of this node.
    pub fn loc(&self) -> (l: &Loc)
        ensures
            *l == loc_of(self@),
    {
        match self {
            Expr::Int(_, l) => l,
            Expr::Float(_, l) => l,
            Expr::Bool(_, l) => l,
            Expr::Str(_, l) => l,
            Expr::Id(_, l) => l,
            Expr::TypeName(_, l) => l,
            Expr::List(_, l) => l,
        }
    }

    /// A deep copy of this node.
    pub fn duplicate(&self) -> (r: Expr)
        ensures
            r@ == self@,
        decreases self,
    {
        match self {
            Expr::Int(n, l) => Expr::Int(*n, *l),
            Expr::Float(b, l) => Expr::Float(*b, *l),
            Expr::Bool(b, l) => Expr::Bool(*b, *l),
            Expr::Str(s, l) => Expr::Str(s.clone(), *l),
            Expr::Id(s, l) => Expr::Id(s.clone(), *l),
            Expr::TypeName(s, l) => Expr::TypeName(s.clone(), *l),
            Expr::List(items, l) => {
                let out = duplicate_all(items);
                Expr::List(out, *l)
            },
        }
    }
}

/// A deep copy of a sequence of nodes.
pub fn duplicate_all(items: &Vec<Expr>) -> (out: Vec<Expr>)
    ensures
        nodes_of(out@) == nodes_of(items@),
    decreases items,
{
    let mut out: Vec<Expr> = Vec::new();
    let mut i: usize = 0;
    proof {
        lemma_nodes_of(items@);
    }
    while i < items.len()
        invariant
            i <= items@.len(),
            out@.len() == i,
            forall|j: int| 0 <= j < i ==> #[trigger] node_of(out@[j]) == node_of(items@[j]),
        decreases items@.len() - i,
    {
        proof {
            assert(decreases_to!(*items => items[i as int]));
        }
        let e = items[i].duplicate();
        out.push(e);
        i = i + 1;
    }
    proof {
        lemma_nodes_of(out@);
        assert(nodes_of(out@) =~= nodes_of(items@));
    }
    out
}

} // verus!

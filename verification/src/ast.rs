//! The document tree that the parser builds and the analyzer walks.

use vstd::prelude::*;

verus! {

/// A node of the document tree.
#[derive(Debug, PartialEq, Eq)]
pub enum AST {
    Program { parts: Vec<AST> },
    Comment(String),
    Head { title: String },
    Text(String),
    Paragraph { items: Vec<AST> },
    Bold(String),
    Italics(String),
    List { items: Vec<AST> },
    ListItem { items: Vec<AST> },
    Audio(String),
    Video(String),
    Newline,
    VarDefine { name: String, value: String },
    VarUse(String),
}

/// The mathematical value of a tree: strings are character sequences and
/// children are sequences of values, in source order.
pub enum Node {
    Program(Seq<Node>),
    Comment(Seq<char>),
    Head(Seq<char>),
    Text(Seq<char>),
    Paragraph(Seq<Node>),
    Bold(Seq<char>),
    Italics(Seq<char>),
    List(Seq<Node>),
    ListItem(Seq<Node>),
    Audio(Seq<char>),
    Video(Seq<char>),
    Newline,
    VarDefine(Seq<char>, Seq<char>),
    VarUse(Seq<char>),
}

/// The value of one tree.
pub open spec fn node_of(tree: AST) -> Node
    decreases tree,
{
    match tree {
        AST::Program { parts } => Node::Program(nodes_of(parts@)),
        AST::Comment(text) => Node::Comment(text@),
        AST::Head { title } => Node::Head(title@),
        AST::Text(word) => Node::Text(word@),
        AST::Paragraph { items } => Node::Paragraph(nodes_of(items@)),
        AST::Bold(text) => Node::Bold(text@),
        AST::Italics(text) => Node::Italics(text@),
        AST::List { items } => Node::List(nodes_of(items@)),
        AST::ListItem { items } => Node::ListItem(nodes_of(items@)),
        AST::Audio(url) => Node::Audio(url@),
        AST::Video(url) => Node::Video(url@),
        AST::Newline => Node::Newline,
        AST::VarDefine { name, value } => Node::VarDefine(name@, value@),
        AST::VarUse(name) => Node::VarUse(name@),
    }
}

/// The values of a run of trees, one for one.
pub open spec fn nodes_of(trees: Seq<AST>) -> Seq<Node>
    decreases trees,
{
    Seq::new(trees.len(), |i: int| if 0 <= i < trees.len() { node_of(trees[i]) } else { arbitrary() })
}

impl View for AST {
    type V = Node;

    open spec fn view(&self) -> Node {
        node_of(*self)
    }
}

impl Clone for AST {
    fn clone(&self) -> (copy: Self)
        ensures
            copy@ == self@,
        decreases *self,
    {
        match self {
            AST::Program { parts } => AST::Program { parts: copy_all(parts) },
            AST::Comment(text) => AST::Comment(text.clone()),
            AST::Head { title } => AST::Head { title: title.clone() },
            AST::Text(word) => AST::Text(word.clone()),
            AST::Paragraph { items } => AST::Paragraph { items: copy_all(items) },
            AST::Bold(text) => AST::Bold(text.clone()),
            AST::Italics(text) => AST::Italics(text.clone()),
            AST::List { items } => AST::List { items: copy_all(items) },
            AST::ListItem { items } => AST::ListItem { items: copy_all(items) },
            AST::Audio(url) => AST::Audio(url.clone()),
            AST::Video(url) => AST::Video(url.clone()),
            AST::Newline => AST::Newline,
            AST::VarDefine { name, value } => AST::VarDefine {
                name: name.clone(),
                value: value.clone(),
            },
            AST::VarUse(name) => AST::VarUse(name.clone()),
        }
    }
}

/// A copy of a run of trees.
fn copy_all(trees: &Vec<AST>) -> (copy: Vec<AST>)
    ensures
        nodes_of(copy@) == nodes_of(trees@),
    decreases *trees,
{
    let mut copy: Vec<AST> = Vec::new();
    let mut i: usize = 0;
    while i < trees.len()
        invariant
            i <= trees.len(),
            nodes_of(copy@) == nodes_of(trees@).take(i as int),
        decreases trees.len() - i,
    {
        let tree = trees[i].clone();
        assert(nodes_of(copy@.push(tree)) =~= nodes_of(copy@).push(tree@));
        assert(nodes_of(trees@).take(i + 1) =~= nodes_of(trees@).take(i as int).push(
            trees[i as int]@,
        ));
        copy.push(tree);
        i = i + 1;
    }
    assert(nodes_of(trees@).take(trees.len() as int) =~= nodes_of(trees@));
    copy
}

} // verus!

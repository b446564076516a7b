use vstd::prelude::*;

verus! {

/// A syntax tree for an arithmetic expression. Each node owns its children;
/// a leaf carries a numeric literal as normalized text.
#[derive(Debug, PartialEq)]
pub enum Node {
    NumberNode(String),
    AddNode(Box<Node>, Box<Node>),
    SubtractNode(Box<Node>, Box<Node>),
    MultiplyNode(Box<Node>, Box<Node>),
    DivideNode(Box<Node>, Box<Node>),
    PlusNode(Box<Node>),
    MinusNode(Box<Node>),
}

/// The mathematical value of a [`Node`]: the same tree, with the literal
/// text abstracted to a sequence of characters.
pub enum NodeModel {
    NumberNode(Seq<char>),
    AddNode(Box<NodeModel>, Box<NodeModel>),
    SubtractNode(Box<NodeModel>, Box<NodeModel>),
    MultiplyNode(Box<NodeModel>, Box<NodeModel>),
    DivideNode(Box<NodeModel>, Box<NodeModel>),
    PlusNode(Box<NodeModel>),
    MinusNode(Box<NodeModel>),
}

impl Node {
    /// The mathematical value of this tree.
    pub open spec fn model(self) -> NodeModel
        decreases self,
    {
        match self {
            Node::NumberNode(s) => NodeModel::NumberNode(s@),
            Node::AddNode(a, b) => NodeModel::AddNode(Box::new(a.model()), Box::new(b.model())),
            Node::SubtractNode(a, b) => NodeModel::SubtractNode(
                Box::new(a.model()),
                Box::new(b.model()),
            ),
            Node::MultiplyNode(a, b) => NodeModel::MultiplyNode(
                Box::new(a.model()),
                Box::new(b.model()),
            ),
            Node::DivideNode(a, b) => NodeModel::DivideNode(
                Box::new(a.model()),
                Box::new(b.model()),
            ),
            Node::PlusNode(a) => NodeModel::PlusNode(Box::new(a.model())),
            Node::MinusNode(a) => NodeModel::MinusNode(Box::new(a.model())),
        }
    }
}

impl View for Node {
    type V = NodeModel;

    open spec fn view(&self) -> NodeModel {
        self.model()
    }
}

} // verus!

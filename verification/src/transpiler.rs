use vstd::prelude::*;
use vstd::string::*;

use crate::nodes::{Node, NodeModel};

verus! {

/// Whether the text holds a decimal point.
pub open spec fn has_point(t: Seq<char>) -> bool {
    exists|k: int| 0 <= k < t.len() && t[k] == '.'
}

/// How one tree is rendered as host-language arithmetic: fully
/// parenthesized infix for the binary forms, a parenthesized sign for the
/// unary ones, and the literal's own text for a leaf, given a trailing `.0`
/// where it holds no decimal point, so that the rendered constant is
/// unmistakably a floating-point literal.
pub open spec fn render(n: NodeModel) -> Seq<char>
    decreases n,
{
    match n {
        NodeModel::NumberNode(t) => if has_point(t) {
            t
        } else {
            t + ".0"@
        },
        NodeModel::AddNode(a, b) => "("@ + render(*a) + " + "@ + render(*b) + ")"@,
        NodeModel::SubtractNode(a, b) => "("@ + render(*a) + " - "@ + render(*b) + ")"@,
        NodeModel::MultiplyNode(a, b) => "("@ + render(*a) + " * "@ + render(*b) + ")"@,
        NodeModel::DivideNode(a, b) => "("@ + render(*a) + " / "@ + render(*b) + ")"@,
        NodeModel::PlusNode(a) => "(+"@ + render(*a) + ")"@,
        NodeModel::MinusNode(a) => "(-"@ + render(*a) + ")"@,
    }
}

/// The whole generated program: a C translation unit whose entry point
/// prints the rendered expression's value and a newline, then ends
/// normally.
pub open spec fn program_text(n: NodeModel) -> Seq<char> {
    "#include <stdio.h>\n\nint main(void) {\n  printf(\"%lf\\n\", "@ + render(n)
        + ");\n  return 0;\n}\n"@
}

/// Every rendered expression holds a decimal point: a leaf is rendered with
/// one, and every composite form keeps its first operand's text.
pub proof fn lemma_render_has_point(n: NodeModel)
    ensures
        has_point(render(n)),
    decreases n,
{
    match n {
        NodeModel::NumberNode(t) => {
            if !has_point(t) {
                reveal_strlit(".0");
                assert(render(n)[t.len() as int] == '.');
            }
        },
        NodeModel::AddNode(a, b) => {
            lemma_render_has_point(*a);
            reveal_strlit("(");
            let k = choose|k: int| 0 <= k < render(*a).len() && render(*a)[k] == '.';
            assert(render(n)[1 + k] == '.');
        },
        NodeModel::SubtractNode(a, b) => {
            lemma_render_has_point(*a);
            reveal_strlit("(");
            let k = choose|k: int| 0 <= k < render(*a).len() && render(*a)[k] == '.';
            assert(render(n)[1 + k] == '.');
        },
        NodeModel::MultiplyNode(a, b) => {
            lemma_render_has_point(*a);
            reveal_strlit("(");
            let k = choose|k: int| 0 <= k < render(*a).len() && render(*a)[k] == '.';
            assert(render(n)[1 + k] == '.');
        },
        NodeModel::DivideNode(a, b) => {
            lemma_render_has_point(*a);
            reveal_strlit("(");
            let k = choose|k: int| 0 <= k < render(*a).len() && render(*a)[k] == '.';
            assert(render(n)[1 + k] == '.');
        },
        NodeModel::PlusNode(a) => {
            lemma_render_has_point(*a);
            reveal_strlit("(+");
            let k = choose|k: int| 0 <= k < render(*a).len() && render(*a)[k] == '.';
            assert(render(n)[2 + k] == '.');
        },
        NodeModel::MinusNode(a) => {
            lemma_render_has_point(*a);
            reveal_strlit("(-");
            let k = choose|k: int| 0 <= k < render(*a).len() && render(*a)[k] == '.';
            assert(render(n)[2 + k] == '.');
        },
    }
}

/// Renders one tree as host-language arithmetic.
fn gen(node: Box<Node>) -> (r: String)
    ensures
        r@ == render(node@),
    decreases node,
{
    let ghost m = node@;
    match *node {
        Node::NumberNode(s) => {
            let n = s.as_str().unicode_len();
            let mut k: usize = 0;
            let mut found = false;
            while k < n
                invariant
                    n == s@.len(),
                    k <= n,
                    found <==> (exists|t: int| 0 <= t < k && s@[t] == '.'),
                decreases n - k,
            {
                if s.as_str().get_char(k) == '.' {
                    found = true;
                }
                k = k + 1;
            }
            if found {
                s
            } else {
                let mut r = s;
                r.append(".0");
                r
            }
        },
        Node::AddNode(a, b) => {
            let left = gen(a);
            let right = gen(b);
            let mut r = String::from_str("(");
            r.append(left.as_str());
            r.append(" + ");
            r.append(right.as_str());
            r.append(")");
            proof {
                assert(r@ =~= render(m));
            }
            r
        },
        Node::SubtractNode(a, b) => {
            let left = gen(a);
            let right = gen(b);
            let mut r = String::from_str("(");
            r.append(left.as_str());
            r.append(" - ");
            r.append(right.as_str());
            r.append(")");
            proof {
                assert(r@ =~= render(m));
            }
            r
        },
        Node::MultiplyNode(a, b) => {
            let left = gen(a);
            let right = gen(b);
            let mut r = String::from_str("(");
            r.append(left.as_str());
            r.append(" * ");
            r.append(right.as_str());
            r.append(")");
            proof {
                assert(r@ =~= render(m));
            }
            r
        },
        Node::DivideNode(a, b) => {
            let left = gen(a);
            let right = gen(b);
            let mut r = String::from_str("(");
            r.append(left.as_str());
            r.append(" / ");
            r.append(right.as_str());
            r.append(")");
            proof {
                assert(r@ =~= render(m));
            }
            r
        },
        Node::PlusNode(a) => {
            let inner = gen(a);
            let mut r = String::from_str("(+");
            r.append(inner.as_str());
            r.append(")");
            proof {
                assert(r@ =~= render(m));
            }
            r
        },
        Node::MinusNode(a) => {
            let inner = gen(a);
            let mut r = String::from_str("(-");
            r.append(inner.as_str());
            r.append(")");
            proof {
                assert(r@ =~= render(m));
            }
            r
        },
    }
}

/// Renders the tree as the text of a complete standalone C program that
/// prints the expression's value, followed by a newline.
pub fn transpile(node: Box<Node>) -> (r: String)
    ensures
        r@ == program_text(node@),
{
    let ghost m = node@;
    let mut start = String::from_str(
        "#include <stdio.h>\n\nint main(void) {\n  printf(\"%lf\\n\", ",
    );
    let body = gen(node);
    start.append(body.as_str());
    start.append(");\n  return 0;\n}\n");
    proof {
        assert(start@ =~= program_text(m));
    }
    start
}

} // verus!

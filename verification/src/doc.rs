//! The document tree of one markdown file, and title extraction: the page
//! title is the textual content of the first top-level heading of depth 1.
//! Node kinds the title scan never reads are collapsed into `Other`, whose
//! textual content is empty — text inside lists, images and the like is
//! deliberately dropped, exactly as the content scan defines it.
use vstd::prelude::*;

verus! {

/// One node of a parsed markdown document. Only the kinds that title
/// extraction distinguishes are kept; everything else is `Other`.
pub enum DocNode {
    Text(String),
    InlineCode(String),
    InlineMath(String),
    Link(Vec<DocNode>),
    Paragraph(Vec<DocNode>),
    Emphasis(Vec<DocNode>),
    Strong(Vec<DocNode>),
    Heading(u8, Vec<DocNode>),
    Other,
}

/// The textual content of one node: text runs verbatim, container spans
/// recursively, anything else (headings included) contributes nothing.
pub open spec fn node_text(n: DocNode) -> Seq<char>
    decreases n, 0nat,
{
    match n {
        DocNode::Text(v) => v@,
        DocNode::InlineCode(v) => v@,
        DocNode::InlineMath(v) => v@,
        DocNode::Link(cs) => nodes_text_from(cs@, 0),
        DocNode::Paragraph(cs) => nodes_text_from(cs@, 0),
        DocNode::Emphasis(cs) => nodes_text_from(cs@, 0),
        DocNode::Strong(cs) => nodes_text_from(cs@, 0),
        DocNode::Heading(_, _) => Seq::empty(),
        DocNode::Other => Seq::empty(),
    }
}

/// The concatenated textual content of `s[i ..]`.
pub open spec fn nodes_text_from(s: Seq<DocNode>, i: int) -> Seq<char>
    decreases s, s.len() - i
    when 0 <= i <= s.len()
{
    if i >= s.len() {
        Seq::empty()
    } else {
        node_text(s[i]) + nodes_text_from(s, i + 1)
    }
}

/// The textual content of a whole node list.
pub open spec fn nodes_text(s: Seq<DocNode>) -> Seq<char> {
    nodes_text_from(s, 0)
}

/// The children of the first heading of depth 1 among `s[i ..]`, if any.
/// Headings of other depths are passed over, and never looked into.
pub open spec fn first_h1_children(s: Seq<DocNode>, i: int) -> Option<Seq<DocNode>>
    decreases s.len() - i
    when 0 <= i <= s.len()
{
    if i >= s.len() {
        None
    } else {
        match s[i] {
            DocNode::Heading(depth, cs) => if depth == 1 {
                Some(cs@)
            } else {
                first_h1_children(s, i + 1)
            },
            _ => first_h1_children(s, i + 1),
        }
    }
}

/// The page title of a document with the given top-level nodes: the textual
/// content of the first depth-1 heading, or nothing when there is none.
pub open spec fn title_of(s: Seq<DocNode>) -> Option<Seq<char>> {
    match first_h1_children(s, 0) {
        Some(cs) => Some(nodes_text(cs)),
        None => None,
    }
}

impl DocNode {
    /// The textual content of this node, as `node_text` defines it.
    pub fn get_string_contents(&self) -> (r: String)
        ensures
            r@ == node_text(*self),
        decreases *self, 0nat,
    {
        match self {
            DocNode::Text(v) => v.clone(),
            DocNode::InlineCode(v) => v.clone(),
            DocNode::InlineMath(v) => v.clone(),
            DocNode::Link(cs) => get_nodes_string_contents(cs),
            DocNode::Paragraph(cs) => get_nodes_string_contents(cs),
            DocNode::Emphasis(cs) => get_nodes_string_contents(cs),
            DocNode::Strong(cs) => get_nodes_string_contents(cs),
            DocNode::Heading(_, _) => String::new(),
            DocNode::Other => String::new(),
        }
    }
}

/// The concatenated textual content of a node list.
pub fn get_nodes_string_contents(cs: &Vec<DocNode>) -> (r: String)
    ensures
        r@ == nodes_text(cs@),
    decreases cs@, cs@.len(),
{
    let mut r = String::new();
    let mut i: usize = 0;
    proof {
        assert(r@ + nodes_text_from(cs@, 0) =~= nodes_text_from(cs@, 0));
    }
    while i < cs.len()
        invariant
            i <= cs@.len(),
            r@ + nodes_text_from(cs@, i as int) == nodes_text_from(cs@, 0),
        decreases cs@.len() - i,
    {
        let ghost prev = r@;
        let piece = cs[i].get_string_contents();
        r.append(piece.as_str());
        proof {
            assert(r@ + nodes_text_from(cs@, i + 1) =~= prev + nodes_text_from(cs@, i as int));
        }
        i = i + 1;
    }
    proof {
        assert(r@ + nodes_text_from(cs@, cs@.len() as int) =~= r@);
    }
    r
}

/// The page title of a document with the given top-level nodes.
pub fn extract_title(nodes: &Vec<DocNode>) -> (r: Option<String>)
    ensures
        match r {
            Some(t) => title_of(nodes@) == Some(t@),
            None => title_of(nodes@) is None,
        },
{
    let mut i: usize = 0;
    while i < nodes.len()
        invariant
            i <= nodes@.len(),
            first_h1_children(nodes@, i as int) == first_h1_children(nodes@, 0),
        decreases nodes@.len() - i,
    {
        match &nodes[i] {
            DocNode::Heading(depth, cs) => {
                if *depth == 1 {
                    return Some(get_nodes_string_contents(cs));
                }
            },
            _ => {},
        }
        i = i + 1;
    }
    None
}

} // verus!

//! The two calls into the `markdown` crate: parsing a document into its
//! tree, and rendering markdown text to an HTML fragment. Both results are
//! functions of the input text alone; they are given names here, and the
//! rest of the library is verified against those names.
use vstd::prelude::*;

use crate::doc::DocNode;
use markdown::mdast::Node as MdastNode;

verus! {

/// The top-level nodes of the tree that the `markdown` crate parses the
/// given text into, mapped onto this library's document tree.
pub uninterp spec fn ast_of(s: Seq<char>) -> Seq<DocNode>;

/// The HTML fragment that the `markdown` crate renders the given text to.
pub uninterp spec fn html_of(s: Seq<char>) -> Seq<char>;

#[verifier::external_type_specification]
#[verifier::external_body]
pub struct ExMdastNode(markdown::mdast::Node);

/// Maps one node of the outside tree onto the library's document tree;
/// node kinds the title scan never reads become `Other`.
#[verifier::external_body]
fn node_from_mdast(n: &markdown::mdast::Node) -> DocNode {
    match n {
        MdastNode::Text(e) => DocNode::Text(e.value.clone()),
        MdastNode::InlineCode(e) => DocNode::InlineCode(e.value.clone()),
        MdastNode::InlineMath(e) => DocNode::InlineMath(e.value.clone()),
        MdastNode::Link(e) => DocNode::Link(nodes_from_mdast(&e.children)),
        MdastNode::Paragraph(e) => DocNode::Paragraph(nodes_from_mdast(&e.children)),
        MdastNode::Emphasis(e) => DocNode::Emphasis(nodes_from_mdast(&e.children)),
        MdastNode::Strong(e) => DocNode::Strong(nodes_from_mdast(&e.children)),
        MdastNode::Heading(e) => DocNode::Heading(e.depth, nodes_from_mdast(&e.children)),
        _ => DocNode::Other,
    }
}

/// Maps a list of outside nodes, in order.
#[verifier::external_body]
fn nodes_from_mdast(v: &Vec<markdown::mdast::Node>) -> Vec<DocNode> {
    v.iter().map(node_from_mdast).collect()
}

/// Relies on `markdown::to_mdast`, which is documented never to fail with
/// the default (CommonMark) parse options; the tree's top-level nodes are
/// handed back as this library's document tree, named `ast_of`.
#[verifier::external_body]
pub fn parse_markdown(source: &str) -> (r: Vec<DocNode>)
    ensures
        r@ == ast_of(source@),
{
    let root = markdown::to_mdast(source, &markdown::ParseOptions::default()).unwrap();
    match root.children() {
        Some(children) => children.iter().map(node_from_mdast).collect(),
        None => Vec::new(),
    }
}

/// Relies on `markdown::to_html`: CommonMark rendering of the given text,
/// named `html_of`.
#[verifier::external_body]
pub fn render_html(markdown_text: &str) -> (r: String)
    ensures
        r@ == html_of(markdown_text@),
{
    markdown::to_html(markdown_text)
}

} // verus!

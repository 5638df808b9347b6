//! Reading an HTML text into the document model. The HTML parser itself is
//! an outside collaborator; its output is named, validated, and everything
//! after it is verified.

use vstd::prelude::*;

use crate::dom::{spec_wf, Dom, DomNode, DomView, NodeData};

verus! {

/// The node list that parsing an HTML text produces: a function of the text
/// alone.
pub uninterp spec fn parsed_nodes(html: Seq<char>) -> DomView;

/// Relies on `select::document::Document::from(&str)`: parses the HTML into
/// nodes in document order, each with its parent link and its element data
/// or text.
#[verifier::external_body]
fn parse_html_nodes(html: &str) -> (r: Vec<DomNode>)
    ensures
        r@.map_values(|n: DomNode| n@) == parsed_nodes(html@),
{
    let doc = select::document::Document::from(html);
    doc.nodes.iter().map(|raw| DomNode {
        parent: raw.parent,
        data: match &raw.data {
            select::node::Data::Element(name, attrs) => NodeData::Element {
                tag: name.local.as_ref().chars().collect(),
                attrs: attrs.iter().map(
                    |(k, v)| (k.local.as_ref().chars().collect(), v.as_ref().chars().collect()),
                ).collect(),
            },
            select::node::Data::Text(t) => NodeData::Text(t.as_ref().chars().collect()),
            select::node::Data::Comment(_) => NodeData::Other,
        },
    }).collect()
}

/// Parses an HTML text into a document. `None` when the parser's node list
/// is not a well-formed forest (a parent link that does not point to an
/// earlier node), which a reader treats as an unreadable document.
pub fn read_document(html: &str) -> (r: Option<Dom>)
    ensures
        r is Some <==> spec_wf(parsed_nodes(html@)),
        r matches Some(dom) ==> dom@ == parsed_nodes(html@),
{
    let nodes = parse_html_nodes(html);
    Dom::new(nodes)
}

} // verus!

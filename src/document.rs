//! A parsed HTML document, seen as the sequence of its nodes in document
//! order. Parsing and node access are done by the `select` crate.

use select::document::Document;
use select::predicate::Name;
use vstd::prelude::*;
use vstd::utf8::encode_utf8;

verus! {

#[verifier::external_type_specification]
#[verifier::external_body]
pub struct ExDocument(Document);

/// What the library reads of one node: its element's local name (none for
/// text, comments and the like), its attributes by local name (the first of
/// each name), and its text content: the text of all its descendants, in
/// order.
pub type NodeModel = (Option<Seq<char>>, Map<Seq<char>, Seq<char>>, Seq<char>);

/// The nodes that a document holds, in document order.
pub uninterp spec fn nodes_of(d: Document) -> Seq<NodeModel>;

/// Whether the document is a proper tree: the parent, sibling and child links
/// of every node name nodes of the document, and following first-child and
/// next-sibling links never leads back to a node already passed.
pub uninterp spec fn well_linked(d: Document) -> bool;

/// The nodes of the document that the HTML parser builds from `html`.
pub uninterp spec fn parsed_nodes(html: Seq<char>) -> Seq<NodeModel>;

/// Whether the UTF-8 encoding of `html` is short enough for the parser's
/// string buffers, which hold at most `u32::MAX` bytes.
pub open spec fn fits_parser(html: Seq<char>) -> bool {
    encode_utf8(html).len() <= u32::MAX
}

pub open spec fn tag_of(n: NodeModel) -> Option<Seq<char>> {
    n.0
}

pub open spec fn attrs_of(n: NodeModel) -> Map<Seq<char>, Seq<char>> {
    n.1
}

pub open spec fn text_of(n: NodeModel) -> Seq<char> {
    n.2
}

/// The positions of the elements named `tag`, in document order.
pub open spec fn tagged_indices(nodes: Seq<NodeModel>, tag: Seq<char>) -> Seq<int>
    decreases nodes.len(),
{
    if nodes.len() == 0 {
        Seq::empty()
    } else {
        let rest = tagged_indices(nodes.drop_last(), tag);
        if tag_of(nodes.last()) == Some(tag) {
            rest.push(nodes.len() - 1)
        } else {
            rest
        }
    }
}

pub proof fn lemma_tagged_indices_in_bounds(nodes: Seq<NodeModel>, tag: Seq<char>)
    ensures
        forall|k: int|
            0 <= k < tagged_indices(nodes, tag).len() ==> 0 <= #[trigger] tagged_indices(
                nodes,
                tag,
            )[k] < nodes.len(),
    decreases nodes.len(),
{
    if nodes.len() > 0 {
        lemma_tagged_indices_in_bounds(nodes.drop_last(), tag);
        let rest = tagged_indices(nodes.drop_last(), tag);
        assert forall|k: int| 0 <= k < rest.len() + 1 implies 0 <= #[trigger] rest.push(
            nodes.len() - 1,
        )[k] < nodes.len() by {
            if k < rest.len() {
                assert(rest.push(nodes.len() - 1)[k] == rest[k]);
            }
        }
    }
}

/// The positions of the elements named `tag` rise strictly, and every such
/// element is among them.
pub proof fn lemma_tagged_indices_increasing(nodes: Seq<NodeModel>, tag: Seq<char>)
    ensures
        forall|j: int, k: int|
            0 <= j < k < tagged_indices(nodes, tag).len() ==> tagged_indices(nodes, tag)[j]
                < tagged_indices(nodes, tag)[k],
        forall|i: int|
            0 <= i < nodes.len() && tag_of(nodes[i]) == Some(tag) ==> exists|k: int|
                0 <= k < tagged_indices(nodes, tag).len() && tagged_indices(nodes, tag)[k] == i,
    decreases nodes.len(),
{
    if nodes.len() > 0 {
        let prefix = nodes.drop_last();
        let rest = tagged_indices(prefix, tag);
        let last = nodes.len() - 1;
        lemma_tagged_indices_increasing(prefix, tag);
        lemma_tagged_indices_in_bounds(prefix, tag);
        let all = tagged_indices(nodes, tag);
        assert forall|k: int| 0 <= k < rest.len() implies #[trigger] all[k] == rest[k] by {
            if tag_of(nodes.last()) == Some(tag) {
                assert(rest.push(last)[k] == rest[k]);
            }
        }
        assert forall|i: int|
            0 <= i < nodes.len() && tag_of(nodes[i]) == Some(tag) implies exists|k: int|
                0 <= k < all.len() && all[k] == i by {
            if i < last {
                assert(tag_of(prefix[i]) == Some(tag));
                let k = choose|k: int| 0 <= k < rest.len() && rest[k] == i;
                assert(all[k] == i);
            } else {
                assert(all[rest.len() as int] == i);
            }
        }
    }
}

/// Relies on `Document::from(&str)`: parses `html` with a tolerant HTML
/// parser, which fails on no markup and builds a tree; the nodes depend on
/// `html` alone. The text is first copied into a buffer that asserts its
/// length is at most `u32::MAX` bytes.
#[verifier::external_body]
pub(crate) fn parse_document(html: &str) -> (d: Document)
    requires
        fits_parser(html@),
    ensures
        nodes_of(d) == parsed_nodes(html@),
        well_linked(d),
{
    Document::from(html)
}

/// Relies on `Document::find` with the `Name` predicate: the positions of the
/// nodes whose element name is `tag`, in document order.
#[verifier::external_body]
pub(crate) fn find_by_name(d: &Document, tag: &str) -> (r: Vec<usize>)
    ensures
        r@.len() == tagged_indices(nodes_of(*d), tag@).len(),
        forall|k: int|
            0 <= k < r@.len() ==> #[trigger] r@[k] as int == tagged_indices(nodes_of(*d), tag@)[k],
{
    d.find(Name(tag)).map(|n| n.index()).collect()
}

/// Relies on `Document::nth`, which gives the node at any position below the
/// node count, and `Node::text`: the text content of that node. `Node::text`
/// follows child and sibling links, so the document must be a proper tree.
#[verifier::external_body]
pub(crate) fn node_text(d: &Document, i: usize) -> (r: String)
    requires
        well_linked(*d),
        i < nodes_of(*d).len(),
    ensures
        r@ == text_of(nodes_of(*d)[i as int]),
{
    d.nth(i).unwrap().text()
}

/// Relies on `Document::nth`, as above, and `Node::attr`: the value of the
/// first attribute whose local name is `name`, if the node has one.
#[verifier::external_body]
pub(crate) fn node_attr(d: &Document, i: usize, name: &str) -> (r: Option<String>)
    requires
        i < nodes_of(*d).len(),
    ensures
        r is Some <==> attrs_of(nodes_of(*d)[i as int]).contains_key(name@),
        r matches Some(v) ==> v@ == attrs_of(nodes_of(*d)[i as int])[name@],
{
    d.nth(i).unwrap().attr(name).map(|v| v.to_string())
}

} // verus!

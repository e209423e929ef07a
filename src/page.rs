//! A page: its address, its parsed document once fetched, and extraction of
//! paragraph text and image sources from it.

use crate::cleaner::{cleaned, text_cleaner};
use crate::document::{
    attrs_of, find_by_name, fits_parser, well_linked, lemma_tagged_indices_increasing, lemma_tagged_indices_in_bounds, node_attr, node_text, nodes_of,
    parse_document, parsed_nodes, tag_of, tagged_indices, text_of, NodeModel,
};
use select::document::Document;
use vstd::prelude::*;

verus! {

/// The texts of a page's paragraphs.
#[derive(Debug, Clone)]
pub struct Ptags {
    pub text: Option<Vec<String>>,
}

impl Ptags {
    pub fn new() -> (r: Self)
        ensures
            r.text is None,
    {
        Ptags { text: None }
    }
}

impl Default for Ptags {
    fn default() -> (r: Self)
        ensures
            r.text is None,
    {
        Ptags::new()
    }
}

/// What is extracted from a page.
pub struct HtmlData {
    pub p_tags: Ptags,
}

/// A fetch that failed: a bad address, a failed connection, a timeout or a
/// transport error. `message` describes it.
#[derive(Debug, Clone)]
pub struct FetchError {
    pub message: String,
}

/// The error type of extraction. Extraction never fails: the contracts of
/// `PageContextTrait` rule it out.
#[derive(Debug, Clone)]
pub struct ExtractError {
    pub message: String,
}

/// The views of a sequence of strings.
pub open spec fn views(v: Seq<String>) -> Seq<Seq<char>> {
    v.map_values(|s: String| s@)
}

pub open spec fn paragraph_tag() -> Seq<char> {
    seq!['p']
}

pub open spec fn image_tag() -> Seq<char> {
    seq!['i', 'm', 'g']
}

pub open spec fn source_attr() -> Seq<char> {
    seq!['s', 'r', 'c']
}

/// The texts of the paragraph elements among `nodes`, in document order.
pub open spec fn paragraph_texts(nodes: Seq<NodeModel>) -> Seq<Seq<char>> {
    tagged_indices(nodes, paragraph_tag()).map_values(|i: int| text_of(nodes[i]))
}

/// The `src` attribute of each image element among `nodes`, in document
/// order, where it has one.
pub open spec fn image_src_attrs(nodes: Seq<NodeModel>) -> Seq<Option<Seq<char>>> {
    tagged_indices(nodes, image_tag()).map_values(
        |i: int|
            if attrs_of(nodes[i]).contains_key(source_attr()) {
                Some(attrs_of(nodes[i])[source_attr()])
            } else {
                None
            },
    )
}

/// The values that are present, in order.
pub open spec fn present(s: Seq<Option<Seq<char>>>) -> Seq<Seq<char>>
    decreases s.len(),
{
    if s.len() == 0 {
        Seq::empty()
    } else {
        let rest = present(s.drop_last());
        match s.last() {
            Some(v) => rest.push(v),
            None => rest,
        }
    }
}

/// The sources of the image elements among `nodes` that have one.
pub open spec fn image_sources(nodes: Seq<NodeModel>) -> Seq<Seq<char>> {
    present(image_src_attrs(nodes))
}

/// Extraction of paragraph text and image sources from a page.
pub trait PageContextTrait {
    /// The texts of the page's paragraphs, in document order.
    spec fn paragraph_view(&self) -> Seq<Seq<char>>;

    /// The sources of the page's images, in document order.
    spec fn image_view(&self) -> Seq<Seq<char>>;

    /// The page's document, if it has one, is a tree that can be walked.
    spec fn well_formed(&self) -> bool;

    fn extract_p_tags(&self) -> (r: Result<Option<Ptags>, ExtractError>)
        requires
            self.well_formed(),
        ensures
            r matches Ok(Some(p)) && p.text matches Some(t) && views(t@) == self.paragraph_view(),
    ;

    fn extract_image_links(&self) -> (r: Result<Option<Vec<String>>, ExtractError>)
        requires
            self.well_formed(),
        ensures
            r matches Ok(Some(v)) && views(v@) == self.image_view(),
    ;
}

/// A page to fetch, and its document once fetched and parsed.
pub struct PageContext {
    pub url: String,
    pub doc: Option<Document>,
    pub image_links: Option<Vec<String>>,
}

impl PageContext {
    /// A page at `url`, not fetched yet.
    pub fn new(url: &str) -> (r: Self)
        ensures
            r.url@ == url@,
            r.doc is None,
            r.image_links is None,
            r.well_formed(),
    {
        PageContext { url: url.to_owned(), doc: None, image_links: None }
    }

    /// Takes the outcome of fetching the page: a body is parsed and becomes
    /// the page's document; after an error the page stays as it was. A body
    /// must fit the parser's buffers.
    pub fn set_html_doc(&mut self, fetched: Result<String, FetchError>)
        requires
            fetched matches Ok(body) ==> fits_parser(body@),
        ensures
            old(self).well_formed() ==> final(self).well_formed(),
            final(self).url == old(self).url,
            final(self).image_links == old(self).image_links,
            match fetched {
                Ok(body) => final(self).doc matches Some(d) && nodes_of(d) == parsed_nodes(body@)
                    && well_linked(d),
                Err(_) => final(self).doc == old(self).doc,
            },
    {
        match fetched {
            Ok(body) => {
                let doc = parse_document(body.as_str());
                self.doc = Some(doc);
            },
            Err(_) => {},
        }
    }
}

impl PageContextTrait for PageContext {
    open spec fn paragraph_view(&self) -> Seq<Seq<char>> {
        match self.doc {
            Some(d) => paragraph_texts(nodes_of(d)),
            None => Seq::empty(),
        }
    }

    open spec fn image_view(&self) -> Seq<Seq<char>> {
        match self.doc {
            Some(d) => image_sources(nodes_of(d)),
            None => Seq::empty(),
        }
    }

    open spec fn well_formed(&self) -> bool {
        self.doc matches Some(d) ==> well_linked(d)
    }

    fn extract_p_tags(&self) -> (r: Result<Option<Ptags>, ExtractError>) {
        let mut p_tag_text: Vec<String> = Vec::new();
        match &self.doc {
            Some(doc) => {
                let idx = find_by_name(doc, "p");
                let ghost nodes = nodes_of(*doc);
                let ghost ti = tagged_indices(nodes, paragraph_tag());
                proof {
                    reveal_strlit("p");
                    assert("p"@ =~= paragraph_tag());
                    lemma_tagged_indices_in_bounds(nodes, paragraph_tag());
                }
                for k in 0..idx.len()
                    invariant
                        nodes == nodes_of(*doc),
                        well_linked(*doc),
                        ti == tagged_indices(nodes, paragraph_tag()),
                        idx@.len() == ti.len(),
                        forall|j: int| 0 <= j < idx@.len() ==> #[trigger] idx@[j] as int == ti[j],
                        forall|j: int| 0 <= j < ti.len() ==> 0 <= #[trigger] ti[j] < nodes.len(),
                        p_tag_text@.len() == k,
                        forall|j: int|
                            0 <= j < k ==> #[trigger] p_tag_text@[j]@ == text_of(nodes[ti[j]]),
                {
                    let t = node_text(doc, idx[k]);
                    p_tag_text.push(t);
                }
                assert(views(p_tag_text@) =~= paragraph_texts(nodes));
            },
            None => {
                assert(views(p_tag_text@) =~= Seq::<Seq<char>>::empty());
            },
        }
        Ok(Some(Ptags { text: Some(p_tag_text) }))
    }

    fn extract_image_links(&self) -> (r: Result<Option<Vec<String>>, ExtractError>) {
        let mut image_links: Vec<String> = Vec::new();
        match &self.doc {
            Some(doc) => {
                let idx = find_by_name(doc, "img");
                let ghost nodes = nodes_of(*doc);
                let ghost ti = tagged_indices(nodes, image_tag());
                let ghost attrs = image_src_attrs(nodes);
                proof {
                    reveal_strlit("img");
                    reveal_strlit("src");
                    assert("img"@ =~= image_tag());
                    assert("src"@ =~= source_attr());
                    lemma_tagged_indices_in_bounds(nodes, image_tag());
                }
                for k in 0..idx.len()
                    invariant
                        nodes == nodes_of(*doc),
                        ti == tagged_indices(nodes, image_tag()),
                        attrs == image_src_attrs(nodes),
                        "src"@ == source_attr(),
                        idx@.len() == ti.len(),
                        forall|j: int| 0 <= j < idx@.len() ==> #[trigger] idx@[j] as int == ti[j],
                        forall|j: int| 0 <= j < ti.len() ==> 0 <= #[trigger] ti[j] < nodes.len(),
                        views(image_links@) == present(attrs.take(k as int)),
                {
                    let src = node_attr(doc, idx[k], "src");
                    proof {
                        assert(attrs.take(k + 1).drop_last() =~= attrs.take(k as int));
                    }
                    match src {
                        Some(v) => {
                            image_links.push(v);
                            assert(views(image_links@) =~= present(attrs.take(k + 1)));
                        },
                        None => {},
                    }
                }
                assert(attrs.take(idx@.len() as int) =~= attrs);
            },
            None => {
                assert(views(image_links@) =~= Seq::<Seq<char>>::empty());
            },
        }
        Ok(Some(image_links))
    }
}

/// A document with `n` paragraph elements yields exactly `n` texts: the
/// `k`-th is the text of the `k`-th paragraph element in document order.
pub proof fn lemma_one_text_per_paragraph(nodes: Seq<NodeModel>)
    ensures
        paragraph_texts(nodes).len() == tagged_indices(nodes, paragraph_tag()).len(),
        forall|k: int|
            0 <= k < paragraph_texts(nodes).len() ==> #[trigger] paragraph_texts(nodes)[k]
                == text_of(nodes[tagged_indices(nodes, paragraph_tag())[k]]),
        forall|j: int, k: int|
            0 <= j < k < tagged_indices(nodes, paragraph_tag()).len() ==> tagged_indices(
                nodes,
                paragraph_tag(),
            )[j] < tagged_indices(nodes, paragraph_tag())[k],
        forall|i: int|
            0 <= i < nodes.len() && tag_of(nodes[i]) == Some(paragraph_tag()) ==> exists|k: int|
                0 <= k < tagged_indices(nodes, paragraph_tag()).len() && tagged_indices(
                    nodes,
                    paragraph_tag(),
                )[k] == i,
{
    lemma_tagged_indices_increasing(nodes, paragraph_tag());
}

/// A page without a document, or whose document has no paragraph (image)
/// elements, yields an empty sequence of texts (of sources).
pub proof fn lemma_nothing_to_extract(ctx: PageContext)
    ensures
        (ctx.doc matches Some(d) ==> tagged_indices(nodes_of(d), paragraph_tag()).len() == 0)
            ==> ctx.paragraph_view().len() == 0,
        (ctx.doc matches Some(d) ==> tagged_indices(nodes_of(d), image_tag()).len() == 0)
            ==> ctx.image_view().len() == 0,
{
    if let Some(d) = ctx.doc {
        if tagged_indices(nodes_of(d), image_tag()).len() == 0 {
            assert(image_src_attrs(nodes_of(d)).len() == 0);
        }
    }
}

/// `text_cleaner` applied to each string, in order.
pub fn clean_all(items: &Vec<String>) -> (r: Vec<String>)
    ensures
        views(r@) == views(items@).map_values(|s: Seq<char>| cleaned(s)),
{
    let mut out: Vec<String> = Vec::new();
    for k in 0..items.len()
        invariant
            out@.len() == k,
            forall|j: int| 0 <= j < k ==> #[trigger] out@[j]@ == cleaned(items@[j]@),
    {
        out.push(text_cleaner(items[k].as_str()));
    }
    assert(views(out@) =~= views(items@).map_values(|s: Seq<char>| cleaned(s)));
    out
}

} // verus!

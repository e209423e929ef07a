use page_extract::page::{FetchError, PageContext, PageContextTrait, Ptags, clean_all};

fn page_with(html: &str) -> PageContext {
    let mut page = PageContext::new("http://example.com/");
    page.set_html_doc(Ok(String::from(html)));
    page
}

fn paragraphs(page: &PageContext) -> Vec<String> {
    page.extract_p_tags().unwrap().unwrap().text.unwrap()
}

fn images(page: &PageContext) -> Vec<String> {
    page.extract_image_links().unwrap().unwrap()
}

#[test]
fn scenario_paragraph_and_images() {
    let page = page_with("<html><body><p>Hello\nWorld</p><img src=\"a.png\"><img></body></html>");
    let texts = paragraphs(&page);
    assert_eq!(texts, vec!["Hello\nWorld"]);
    assert_eq!(clean_all(&texts), vec!["HelloWorld"]);
    assert_eq!(images(&page), vec!["a.png"]);
}

#[test]
fn paragraphs_in_document_order_with_nested_text() {
    let page = page_with("<p>first <b>bold</b> end</p><div><p>second</p></div><p></p>");
    assert_eq!(paragraphs(&page), vec!["first bold end", "second", ""]);
}

#[test]
fn one_entry_per_paragraph_element() {
    let page = page_with("<p>a</p><p>b</p><p>c</p><span>d</span>");
    assert_eq!(paragraphs(&page).len(), 3);
}

#[test]
fn images_without_source_are_skipped() {
    let page = page_with("<img><img src=\"x.jpg\"><img alt=\"none\"><img src=\"\"><img src=\"y.gif\">");
    assert_eq!(images(&page), vec!["x.jpg", "", "y.gif"]);
}

#[test]
fn document_without_elements_gives_empty_results() {
    let page = page_with("<html><body><div>nothing here</div></body></html>");
    assert!(paragraphs(&page).is_empty());
    assert!(images(&page).is_empty());
}

#[test]
fn malformed_markup_is_tolerated() {
    let page = page_with("<p>unclosed<p>second</b></i>");
    assert_eq!(paragraphs(&page), vec!["unclosed", "second"]);
}

#[test]
fn no_document_gives_empty_results() {
    let page = PageContext::new("http://example.com/");
    assert!(page.doc.is_none());
    assert!(paragraphs(&page).is_empty());
    assert!(images(&page).is_empty());
}

#[test]
fn failed_fetch_leaves_page_unfetched() {
    let mut page = PageContext::new("http://unreachable.invalid/");
    page.set_html_doc(Err(FetchError { message: String::from("connection refused") }));
    assert!(page.doc.is_none());
    assert_eq!(page.url, "http://unreachable.invalid/");
    assert!(paragraphs(&page).is_empty());
    assert!(images(&page).is_empty());
}

#[test]
fn failed_fetch_keeps_earlier_document() {
    let mut page = page_with("<p>kept</p>");
    page.set_html_doc(Err(FetchError { message: String::from("timeout") }));
    assert_eq!(paragraphs(&page), vec!["kept"]);
}

#[test]
fn extraction_is_repeatable() {
    let page = page_with("<p>one</p><img src=\"i.png\"><p>two</p>");
    assert_eq!(paragraphs(&page), paragraphs(&page));
    assert_eq!(images(&page), images(&page));
}

#[test]
fn new_page_and_empty_ptags() {
    let page = PageContext::new("https://www.example.org/a");
    assert_eq!(page.url, "https://www.example.org/a");
    assert!(page.image_links.is_none());
    assert!(Ptags::new().text.is_none());
    assert!(Ptags::default().text.is_none());
}

#[test]
fn well_formed_after_parse_extracts_in_order() {
    let page = page_with("<div><p>outer <span>inner</span></p><p>after</p></div><img src=\"last.png\">");
    assert_eq!(paragraphs(&page), vec!["outer inner", "after"]);
    assert_eq!(images(&page), vec!["last.png"]);
}

use grid::markdown::{load_markdown, try_load_markdown, Page, PageElement};

fn heading(e: &PageElement) -> Option<(u32, String)> {
    match e {
        PageElement::Heading { level, text } => Some((*level, text.clone())),
        _ => None,
    }
}

fn text(e: &PageElement) -> Option<String> {
    match e {
        PageElement::Text(t) => Some(t.clone()),
        _ => None,
    }
}

fn image(e: &PageElement) -> Option<String> {
    match e {
        PageElement::Image { path } => Some(path.clone()),
        _ => None,
    }
}

fn check_two_pages(pages: &[Page]) {
    assert_eq!(pages.len(), 2);

    let first = &pages[0];
    assert_eq!(first.title, "Title");
    assert_eq!(first.content.len(), 4);
    assert_eq!(heading(&first.content[0]), Some((1, "Title".to_string())));
    assert_eq!(text(&first.content[1]), Some("Some text".to_string()));
    assert_eq!(text(&first.content[2]), Some("more".to_string()));
    assert_eq!(heading(&first.content[3]), Some((2, "Later".to_string())));

    let second = &pages[1];
    assert_eq!(second.title, "Second");
    assert_eq!(second.content.len(), 3);
    assert_eq!(heading(&second.content[0]), Some((2, "Second".to_string())));
    assert_eq!(image(&second.content[1]), Some("lab.png".to_string()));
    assert_eq!(text(&second.content[2]), Some("picture".to_string()));
}

const TWO_PAGES: &str = "# Title\n\nSome text\nmore\n\n## Later\n@P## Second\n\n![picture](lab.png)\n";

#[test]
fn pages_are_cut_at_the_marker() {
    let doc = load_markdown(TWO_PAGES);
    check_two_pages(&doc.pages);
}

#[test]
fn try_load_agrees_on_supported_documents() {
    let doc = try_load_markdown(TWO_PAGES).expect("supported document");
    check_two_pages(&doc.pages);
}

#[test]
fn empty_document_has_one_empty_page() {
    let doc = load_markdown("");
    assert_eq!(doc.pages.len(), 1);
    assert_eq!(doc.pages[0].title, "");
    assert!(doc.pages[0].content.is_empty());
}

#[test]
fn markers_next_to_each_other_give_empty_pages() {
    let doc = load_markdown("a@P@Pb");
    assert_eq!(doc.pages.len(), 3);
    assert_eq!(doc.pages[0].content.len(), 1);
    assert_eq!(text(&doc.pages[0].content[0]), Some("a".to_string()));
    assert!(doc.pages[1].content.is_empty());
    assert_eq!(text(&doc.pages[2].content[0]), Some("b".to_string()));
}

#[test]
fn title_is_the_first_heading() {
    let doc = load_markdown("text first\n\n### Small\n\n# Big\n");
    assert_eq!(doc.pages.len(), 1);
    assert_eq!(doc.pages[0].title, "Small");
    assert_eq!(doc.pages[0].content.len(), 3);
    assert_eq!(heading(&doc.pages[0].content[2]), Some((1, "Big".to_string())));
}

#[test]
fn unsupported_markdown_is_refused() {
    assert!(try_load_markdown("- a list item\n").is_none());
    assert!(try_load_markdown("some `code` here\n").is_none());
    assert!(try_load_markdown("fine\n@P> a quote\n").is_none());
    assert!(try_load_markdown("fine\n@Pstill fine\n").is_some());
}

#[test]
fn one_page_per_piece_between_markers() {
    for text in ["", "plain", "@P", "a@Pb@Pc", "@@Pb", "x@P@P@P", TWO_PAGES] {
        let doc = load_markdown(text);
        assert_eq!(doc.pages.len(), text.split("@P").count());
        assert_eq!(text.split("@P").collect::<Vec<_>>().join("@P"), text);
    }
}

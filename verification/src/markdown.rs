use vstd::prelude::*;
use crate::text::{chars_of, string_from_chars};
use pulldown_cmark::{Event as E, Tag as T};

verus! {

/// The markdown events a page is built from; the parser's other events and
/// tags are told apart only as unsupported.
pub enum MdEvent {
    StartParagraph,
    StartHeading(u32),
    StartImage(String),
    StartOther,
    End,
    SoftBreak,
    Text(String),
    Other,
}

/// `MdEvent` with its strings taken as characters.
pub enum MdEventView {
    StartParagraph,
    StartHeading(u32),
    StartImage(Seq<char>),
    StartOther,
    End,
    SoftBreak,
    Text(Seq<char>),
    Other,
}

impl View for MdEvent {
    type V = MdEventView;

    open spec fn view(&self) -> MdEventView {
        match self {
            MdEvent::StartParagraph => MdEventView::StartParagraph,
            MdEvent::StartHeading(l) => MdEventView::StartHeading(*l),
            MdEvent::StartImage(p) => MdEventView::StartImage(p@),
            MdEvent::StartOther => MdEventView::StartOther,
            MdEvent::End => MdEventView::End,
            MdEvent::SoftBreak => MdEventView::SoftBreak,
            MdEvent::Text(t) => MdEventView::Text(t@),
            MdEvent::Other => MdEventView::Other,
        }
    }
}

/// The events `pulldown_cmark::Parser::new` gives for `text`, in order.
pub uninterp spec fn markdown_events(text: Seq<char>) -> Seq<MdEventView>;

/// Runs `pulldown_cmark::Parser::new(text)` (default options) and tells its
/// events apart: paragraph, heading (with its level) and image (with its
/// destination) starts, other starts, ends, soft breaks, text, and the
/// rest. Stated: the events are named `markdown_events(text)`.
#[verifier::external_body]
fn parse_markdown(text: &str) -> (r: Vec<MdEvent>)
    ensures
        r@.map_values(|e: MdEvent| e@) == markdown_events(text@),
{
    let mut out = Vec::new();
    for e in pulldown_cmark::Parser::new(text) {
        out.push(match e {
            E::Start(T::Paragraph) => MdEvent::StartParagraph,
            E::Start(T::Heading(level)) => MdEvent::StartHeading(level),
            E::Start(T::Image(_, path, _)) => MdEvent::StartImage(path.to_string()),
            E::Start(_) => MdEvent::StartOther,
            E::End(_) => MdEvent::End,
            E::SoftBreak => MdEvent::SoftBreak,
            E::Text(text) => MdEvent::Text(text.to_string()),
            _ => MdEvent::Other,
        });
    }
    out
}

/// Single element of a page.
pub enum PageElement {
    Heading { level: u32, text: String },
    Image { path: String },
    ParagraphBreak,
    SoftBreak,
    Text(String),
}

/// `PageElement` with its strings taken as characters.
pub enum ElementView {
    Heading { level: u32, text: Seq<char> },
    Image { path: Seq<char> },
    ParagraphBreak,
    SoftBreak,
    Text(Seq<char>),
}

impl View for PageElement {
    type V = ElementView;

    open spec fn view(&self) -> ElementView {
        match self {
            PageElement::Heading { level, text } => ElementView::Heading { level: *level, text: text@ },
            PageElement::Image { path } => ElementView::Image { path: path@ },
            PageElement::ParagraphBreak => ElementView::ParagraphBreak,
            PageElement::SoftBreak => ElementView::SoftBreak,
            PageElement::Text(t) => ElementView::Text(t@),
        }
    }
}

/// Single page in document
pub struct Page {
    pub title: String,
    pub content: Vec<PageElement>,
}

/// Overall document
pub struct Document {
    pub pages: Vec<Page>,
}

/// The state of building a page from its events: the level of the heading
/// being read, if any, the title so far and the elements so far.
#[verifier::ext_equal]
pub struct PageModel {
    pub heading: Option<u32>,
    pub title: Seq<char>,
    pub content: Seq<ElementView>,
}

/// One event of a page; `None` on an event the document does not support
/// (reading it panics).
pub open spec fn page_step(st: PageModel, e: MdEventView) -> Option<PageModel> {
    match e {
        MdEventView::StartParagraph => Some(st),
        MdEventView::StartHeading(level) => Some(PageModel { heading: Some(level), ..st }),
        MdEventView::StartImage(path) => Some(
            PageModel { content: st.content.push(ElementView::Image { path }), ..st },
        ),
        MdEventView::End => Some(PageModel { heading: None, ..st }),
        MdEventView::SoftBreak => Some(st),
        MdEventView::Text(text) => match st.heading {
            Some(level) => Some(
                PageModel {
                    title: if st.title.len() == 0 {
                        text
                    } else {
                        st.title
                    },
                    content: st.content.push(ElementView::Heading { level, text }),
                    ..st
                },
            ),
            None => Some(PageModel { content: st.content.push(ElementView::Text(text)), ..st }),
        },
        _ => None,
    }
}

/// The page built from `events`; `None` where an unsupported event occurs.
pub open spec fn page_run(events: Seq<MdEventView>) -> Option<PageModel>
    decreases events.len(),
{
    if events.len() == 0 {
        Some(PageModel { heading: None, title: seq![], content: seq![] })
    } else {
        match page_run(events.drop_last()) {
            None => None,
            Some(st) => page_step(st, events.last()),
        }
    }
}

/// Whether `page` is the page built from `events`.
pub open spec fn page_built(page: Page, events: Seq<MdEventView>) -> bool {
    page_run(events) matches Some(m) && page.title@ == m.title && page.content@.map_values(
        |e: PageElement| e@,
    ) == m.content
}

/// Builds a page from its markdown events: headings set the heading level
/// of the text that follows until the next end, the first non-empty heading
/// text is the title, images and texts are kept in order.
pub fn page_from_events(events: &Vec<MdEvent>) -> (r: Page)
    requires
        page_run(events@.map_values(|e: MdEvent| e@)) is Some,
    ensures
        page_built(r, events@.map_values(|e: MdEvent| e@)),
{
    let ghost ev = events@.map_values(|e: MdEvent| e@);
    let mut heading: Option<u32> = None;
    let mut title = String::new();
    let mut content: Vec<PageElement> = Vec::new();
    let mut i: usize = 0;
    proof {
        assert(ev.take(0) =~= Seq::<MdEventView>::empty());
        assert(page_run(ev.take(0)) =~~= Some(
            PageModel { heading, title: title@, content: content@.map_values(|e: PageElement| e@) },
        ));
    }
    while i < events.len()
        invariant
            ev == events@.map_values(|e: MdEvent| e@),
            page_run(ev) is Some,
            i <= ev.len(),
            page_run(ev.take(i as int)) == Some(
                PageModel {
                    heading,
                    title: title@,
                    content: content@.map_values(|e: PageElement| e@),
                },
            ),
        decreases ev.len() - i,
    {
        proof {
            assert(ev.take(i + 1).drop_last() == ev.take(i as int));
            assert(ev.take(i + 1).last() == events@[i as int]@);
            lemma_page_run_prefix(ev, i + 1);
        }
        let ghost before = content@;
        match &events[i] {
            MdEvent::StartParagraph => {},
            MdEvent::StartHeading(level) => {
                heading = Some(*level);
            },
            MdEvent::StartImage(path) => {
                content.push(PageElement::Image { path: path.clone() });
            },
            MdEvent::End => {
                heading = None;
            },
            MdEvent::SoftBreak => {},
            MdEvent::Text(text) => match heading {
                Some(level) => {
                    if title.as_str().is_empty() {
                        title = text.clone();
                    }
                    content.push(PageElement::Heading { level, text: text.clone() });
                },
                None => {
                    content.push(PageElement::Text(text.clone()));
                },
            },
            _ => {
                assert(false);
            },
        }
        proof {
            assert(content@.map_values(|e: PageElement| e@) =~= before.map_values(
                |e: PageElement| e@,
            ) || content@.map_values(|e: PageElement| e@) =~= before.map_values(
                |e: PageElement| e@,
            ).push(content@.last()@));
        }
        i = i + 1;
    }
    proof {
        assert(ev.take(ev.len() as int) == ev);
    }
    Page { title, content }
}

/// A page that an unsupported prefix stops stays stopped.
proof fn lemma_page_run_prefix(events: Seq<MdEventView>, k: int)
    requires
        0 <= k <= events.len(),
        page_run(events) is Some,
    ensures
        page_run(events.take(k)) is Some,
    decreases events.len() - k,
{
    if k < events.len() {
        lemma_page_run_prefix(events, k + 1);
        assert(events.take(k + 1).drop_last() == events.take(k));
    } else {
        assert(events.take(k) == events);
    }
}

/// `s` cut at each `@P` (not overlapping, from the left), with `cur`
/// before its first piece, as `str::split` cuts it.
pub open spec fn split_acc(s: Seq<char>, cur: Seq<char>) -> Seq<Seq<char>>
    decreases s.len(),
{
    if s.len() == 0 {
        seq![cur]
    } else if s.len() >= 2 && s[0] == '@' && s[1] == 'P' {
        seq![cur] + split_acc(s.skip(2), seq![])
    } else {
        split_acc(s.drop_first(), cur.push(s[0]))
    }
}

/// The page texts of a document: its text cut at each `@P`.
pub open spec fn split_pages(s: Seq<char>) -> Seq<Seq<char>> {
    split_acc(s, seq![])
}

/// Page texts joined back into one text, `@P` between each two.
pub open spec fn join_pages(pages: Seq<Seq<char>>) -> Seq<char>
    decreases pages.len(),
{
    if pages.len() == 0 {
        seq![]
    } else if pages.len() == 1 {
        pages[0]
    } else {
        pages[0] + seq!['@', 'P'] + join_pages(pages.drop_first())
    }
}

proof fn lemma_split_acc_join(s: Seq<char>, cur: Seq<char>)
    ensures
        split_acc(s, cur).len() >= 1,
        join_pages(split_acc(s, cur)) == cur + s,
    decreases s.len(),
{
    if s.len() == 0 {
        assert(cur + s =~= cur);
    } else if s.len() >= 2 && s[0] == '@' && s[1] == 'P' {
        lemma_split_acc_join(s.skip(2), seq![]);
        let rest = split_acc(s.skip(2), seq![]);
        let pages = seq![cur] + rest;
        assert(pages.drop_first() =~= rest);
        assert(pages[0] == cur);
        assert(Seq::<char>::empty() + s.skip(2) =~= s.skip(2));
        assert(cur + seq!['@', 'P'] + s.skip(2) =~= cur + s);
    } else {
        lemma_split_acc_join(s.drop_first(), cur.push(s[0]));
        assert(cur.push(s[0]) + s.drop_first() =~= cur + s);
    }
}

/// Cutting a text into pages at each `@P` loses nothing: there is at least
/// one page, and joining the pages back with `@P` between them gives the
/// text.
pub proof fn lemma_pages_join_back(text: Seq<char>)
    ensures
        split_pages(text).len() >= 1,
        join_pages(split_pages(text)) == text,
{
    lemma_split_acc_join(text, seq![]);
    assert(Seq::<char>::empty() + text =~= text);
}

/// Cuts the characters at each `@P`.
fn split_on_marker(cs: &Vec<char>) -> (r: Vec<Vec<char>>)
    ensures
        r@.map_values(|v: Vec<char>| v@) == split_pages(cs@),
{
    let mut done: Vec<Vec<char>> = Vec::new();
    let mut cur: Vec<char> = Vec::new();
    let mut i: usize = 0;
    proof {
        assert(cs@.skip(0) =~= cs@);
        assert(done@.map_values(|v: Vec<char>| v@) =~= Seq::<Seq<char>>::empty());
        assert(cur@ =~= Seq::<char>::empty());
        assert(Seq::<Seq<char>>::empty() + split_acc(cs@, seq![]) =~= split_acc(cs@, seq![]));
    }
    while i < cs.len()
        invariant
            i <= cs@.len(),
            split_pages(cs@) == done@.map_values(|v: Vec<char>| v@) + split_acc(
                cs@.skip(i as int),
                cur@,
            ),
        decreases cs@.len() - i,
    {
        let ghost rest = cs@.skip(i as int);
        let ghost before = done@.map_values(|v: Vec<char>| v@);
        if i + 1 < cs.len() && cs[i] == '@' && cs[i + 1] == 'P' {
            proof {
                assert(rest[0] == '@' && rest[1] == 'P');
                assert(rest.skip(2) == cs@.skip(i + 2));
            }
            let piece = cur;
            done.push(piece);
            cur = Vec::new();
            proof {
                assert(done@.map_values(|v: Vec<char>| v@) =~= before.push(piece@));
                assert(cur@ =~= Seq::<char>::empty());
                assert(before + (seq![piece@] + split_acc(rest.skip(2), seq![])) =~= before.push(
                    piece@,
                ) + split_acc(rest.skip(2), seq![]));
            }
            i = i + 2;
        } else {
            proof {
                assert(rest.drop_first() == cs@.skip(i + 1));
                assert(rest[0] == cs@[i as int]);
            }
            cur.push(cs[i]);
            i = i + 1;
        }
    }
    proof {
        assert(cs@.skip(i as int).len() == 0);
    }
    done.push(cur);
    proof {
        assert(done@.map_values(|v: Vec<char>| v@) =~= done@.drop_last().map_values(
            |v: Vec<char>| v@,
        ).push(cur@));
    }
    done
}

/// Every page of the document holds supported events only.
pub open spec fn document_supported(text: Seq<char>) -> bool {
    forall|i: int|
        0 <= i < split_pages(text).len() ==> (page_run(
            markdown_events(#[trigger] split_pages(text)[i]),
        ) is Some)
}

/// `d` holds one page for each page text of `text`, each built from the
/// text's markdown events.
pub open spec fn document_built(d: Document, text: Seq<char>) -> bool {
    &&& d.pages@.len() == split_pages(text).len()
    &&& forall|i: int|
        0 <= i < d.pages@.len() ==> page_built(
            #[trigger] d.pages@[i],
            markdown_events(split_pages(text)[i]),
        )
}

/// Builds the document from its markdown: pages are cut at each `@P`.
pub fn load_markdown(markdown_data: &str) -> (r: Document)
    requires
        document_supported(markdown_data@),
    ensures
        document_built(r, markdown_data@),
{
    let cs = chars_of(markdown_data);
    let texts = split_on_marker(&cs);
    let ghost views = texts@.map_values(|v: Vec<char>| v@);
    let mut pages: Vec<Page> = Vec::new();
    let mut i: usize = 0;
    while i < texts.len()
        invariant
            views == texts@.map_values(|v: Vec<char>| v@),
            views == split_pages(markdown_data@),
            document_supported(markdown_data@),
            i <= texts@.len(),
            pages@.len() == i,
            forall|j: int|
                0 <= j < i ==> page_built(#[trigger] pages@[j], markdown_events(views[j])),
        decreases texts@.len() - i,
    {
        let page_text = string_from_chars(&texts[i]);
        let events = parse_markdown(page_text.as_str());
        proof {
            assert(views[i as int] == texts@[i as int]@);
            assert(page_run(markdown_events(split_pages(markdown_data@)[i as int])) is Some);
        }
        let page = page_from_events(&events);
        pages.push(page);
        i = i + 1;
    }
    Document { pages }
}

/// Whether every event is supported.
fn events_supported(events: &Vec<MdEvent>) -> (r: bool)
    ensures
        r == (page_run(events@.map_values(|e: MdEvent| e@)) is Some),
{
    let ghost ev = events@.map_values(|e: MdEvent| e@);
    let mut i: usize = 0;
    while i < events.len()
        invariant
            ev == events@.map_values(|e: MdEvent| e@),
            i <= ev.len(),
            page_run(ev.take(i as int)) is Some,
        decreases ev.len() - i,
    {
        proof {
            assert(ev.take(i + 1).drop_last() == ev.take(i as int));
            assert(ev.take(i + 1).last() == events@[i as int]@);
        }
        match &events[i] {
            MdEvent::StartOther => {
                proof {
                    lemma_page_run_stopped(ev, i + 1);
                }
                return false;
            },
            MdEvent::Other => {
                proof {
                    lemma_page_run_stopped(ev, i + 1);
                }
                return false;
            },
            _ => {},
        }
        i = i + 1;
    }
    proof {
        assert(ev.take(ev.len() as int) == ev);
    }
    true
}

proof fn lemma_page_run_stopped(events: Seq<MdEventView>, k: int)
    requires
        0 <= k <= events.len(),
        page_run(events.take(k)) is None,
    ensures
        page_run(events) is None,
{
    if page_run(events) is Some {
        lemma_page_run_prefix(events, k);
    }
}

/// Builds the document as `load_markdown` does where every event is
/// supported, and gives `None` where one is not (there, reading panics).
pub fn try_load_markdown(markdown_data: &str) -> (r: Option<Document>)
    ensures
        r is None <==> !document_supported(markdown_data@),
        r matches Some(d) ==> document_built(d, markdown_data@),
{
    let cs = chars_of(markdown_data);
    let texts = split_on_marker(&cs);
    let ghost views = texts@.map_values(|v: Vec<char>| v@);
    let mut i: usize = 0;
    while i < texts.len()
        invariant
            views == texts@.map_values(|v: Vec<char>| v@),
            views == split_pages(markdown_data@),
            i <= texts@.len(),
            forall|j: int| 0 <= j < i ==> (page_run(markdown_events(#[trigger] views[j])) is Some),
        decreases texts@.len() - i,
    {
        let page_text = string_from_chars(&texts[i]);
        let events = parse_markdown(page_text.as_str());
        proof {
            assert(views[i as int] == texts@[i as int]@);
        }
        if !events_supported(&events) {
            return None;
        }
        i = i + 1;
    }
    Some(load_markdown(markdown_data))
}

} // verus!

//! Markdown as a sequence of events, parsed by `pulldown_cmark`.

use pulldown_cmark::{Event, Options, Parser};
use vstd::prelude::*;

use crate::text::str_eq;

verus! {

/// The kind of a markdown element that an event opens or closes.
#[derive(Clone, Copy, Debug)]
pub enum MdTag {
    Paragraph,
    Heading,
    BlockQuote,
    CodeBlock,
    List,
    Item,
    Table,
    TableHead,
    TableRow,
    TableCell,
    Emphasis,
    Strong,
    Strikethrough,
    Link,
    Other,
}

/// A markdown parse event, with what the renderer reads of it. A start or an
/// end carries the name of its element as `pulldown_cmark` debug-prints its
/// `TagEnd` (such as `Paragraph` or `Heading(H1)`).
#[derive(Debug)]
pub enum MdEvent {
    Start(String),
    End(String),
    Text(String),
    Code(String),
    TaskListMarker(bool),
    SoftBreak,
    HardBreak,
    Rule,
    Other,
}

/// The view of an [`MdEvent`].
pub enum MdEventV {
    Start(Seq<char>),
    End(Seq<char>),
    Text(Seq<char>),
    Code(Seq<char>),
    TaskListMarker(bool),
    SoftBreak,
    HardBreak,
    Rule,
    Other,
}

impl View for MdEvent {
    type V = MdEventV;

    open spec fn view(&self) -> MdEventV {
        match self {
            MdEvent::Start(n) => MdEventV::Start(n@),
            MdEvent::End(n) => MdEventV::End(n@),
            MdEvent::Text(t) => MdEventV::Text(t@),
            MdEvent::Code(t) => MdEventV::Code(t@),
            MdEvent::TaskListMarker(b) => MdEventV::TaskListMarker(*b),
            MdEvent::SoftBreak => MdEventV::SoftBreak,
            MdEvent::HardBreak => MdEventV::HardBreak,
            MdEvent::Rule => MdEventV::Rule,
            MdEvent::Other => MdEventV::Other,
        }
    }
}

/// The views of a sequence of events.
pub open spec fn events_view(v: Seq<MdEvent>) -> Seq<MdEventV> {
    v.map_values(|e: MdEvent| e@)
}

/// The events that `pulldown_cmark` produces for a document, with tables,
/// strikethrough and task lists enabled.
pub uninterp spec fn markdown_events_of(md: Seq<char>) -> Seq<MdEventV>;

/// Calls `pulldown_cmark::Parser::new_ext` with tables, strikethrough and task
/// lists enabled, and converts each event one for one (an element by the debug
/// name of its `TagEnd`). Claimed: the result is a function of the document alone.
#[verifier::external_body]
pub(crate) fn markdown_events(md: &str) -> (r: Vec<MdEvent>)
    ensures
        events_view(r@) == markdown_events_of(md@),
{
    let opts = Options::ENABLE_TABLES | Options::ENABLE_STRIKETHROUGH | Options::ENABLE_TASKLISTS;
    Parser::new_ext(md, opts).map(|e| match e {
        Event::Start(t) => MdEvent::Start(format!("{:?}", t.to_end())),
        Event::End(t) => MdEvent::End(format!("{:?}", t)),
        Event::Text(s) => MdEvent::Text(s.to_string()),
        Event::Code(s) => MdEvent::Code(s.to_string()),
        Event::TaskListMarker(b) => MdEvent::TaskListMarker(b),
        Event::SoftBreak => MdEvent::SoftBreak,
        Event::HardBreak => MdEvent::HardBreak,
        Event::Rule => MdEvent::Rule,
        _ => MdEvent::Other,
    }).collect()
}

/// The name of an element without its arguments: what comes before `(`.
pub open spec fn name_head(name: Seq<char>) -> Seq<char>
    decreases name.len(),
{
    if name.len() == 0 || name[0] == '(' {
        Seq::empty()
    } else {
        seq![name[0]] + name_head(name.drop_first())
    }
}

/// The kind of element a debug name stands for.
pub open spec fn tag_kind(name: Seq<char>) -> MdTag {
    let h = name_head(name);
    if h == "Paragraph"@ {
        MdTag::Paragraph
    } else if h == "Heading"@ {
        MdTag::Heading
    } else if h == "BlockQuote"@ {
        MdTag::BlockQuote
    } else if h == "CodeBlock"@ {
        MdTag::CodeBlock
    } else if h == "List"@ {
        MdTag::List
    } else if h == "Item"@ {
        MdTag::Item
    } else if h == "Table"@ {
        MdTag::Table
    } else if h == "TableHead"@ {
        MdTag::TableHead
    } else if h == "TableRow"@ {
        MdTag::TableRow
    } else if h == "TableCell"@ {
        MdTag::TableCell
    } else if h == "Emphasis"@ {
        MdTag::Emphasis
    } else if h == "Strong"@ {
        MdTag::Strong
    } else if h == "Strikethrough"@ {
        MdTag::Strikethrough
    } else if h == "Link"@ {
        MdTag::Link
    } else {
        MdTag::Other
    }
}

/// The kind of element a debug name stands for.
pub fn tag_kind_of(name: &str) -> (r: MdTag)
    ensures
        r == tag_kind(name@),
{
    let n = name.unicode_len();
    let mut k: usize = 0;
    assert(name@.skip(0) =~= name@);
    while k < n && name.get_char(k) != '('
        invariant
            n == name@.len(),
            k <= n,
            name_head(name@) == name@.take(k as int) + name_head(name@.skip(k as int)),
        decreases n - k,
    {
        assert(name@.skip(k as int)[0] == name@[k as int]);
        assert(name@.skip(k as int).drop_first() =~= name@.skip(k + 1));
        assert(name@.take(k + 1) =~= name@.take(k as int) + seq![name@[k as int]]);
        k = k + 1;
    }
    proof {
        if k < n {
            assert(name@.skip(k as int)[0] == name@[k as int]);
        }
        assert(name_head(name@.skip(k as int)) == Seq::<char>::empty());
        assert(name_head(name@) =~= name@.subrange(0, k as int));
    }
    let h = name.substring_char(0, k);
    if str_eq(h, "Paragraph") {
        MdTag::Paragraph
    } else if str_eq(h, "Heading") {
        MdTag::Heading
    } else if str_eq(h, "BlockQuote") {
        MdTag::BlockQuote
    } else if str_eq(h, "CodeBlock") {
        MdTag::CodeBlock
    } else if str_eq(h, "List") {
        MdTag::List
    } else if str_eq(h, "Item") {
        MdTag::Item
    } else if str_eq(h, "Table") {
        MdTag::Table
    } else if str_eq(h, "TableHead") {
        MdTag::TableHead
    } else if str_eq(h, "TableRow") {
        MdTag::TableRow
    } else if str_eq(h, "TableCell") {
        MdTag::TableCell
    } else if str_eq(h, "Emphasis") {
        MdTag::Emphasis
    } else if str_eq(h, "Strong") {
        MdTag::Strong
    } else if str_eq(h, "Strikethrough") {
        MdTag::Strikethrough
    } else if str_eq(h, "Link") {
        MdTag::Link
    } else {
        MdTag::Other
    }
}

} // verus!

//! The text the commands print: issue listings, the blocked view and one
//! issue in detail, each plain for agents or styled for a terminal.

use vstd::prelude::*;

use crate::db::query::{blocked_list_view, summaries_view};
use crate::db::{
    strings_view, BlockedSummary, BlockedV, Comment, CommentV, Dependency, DependencyV, DetailV,
    IssueDetail, IssueSummary, SummaryV,
};
use crate::markdown::markdown_events_of;
use crate::render::{
    effects_only, fg_only, lemma_no_escape_shows, lemma_paint_keeps_width, lemma_painted_shows,
    lemma_shown_len, lemma_shows_as_concat, md_text, painted, paint_label, paint_status, paint_title,
    render_markdown, shows_as, status_style_of, visible_len,
};
use crate::text::{
    decimal, decimal_text, digits, opt_view, push_digits, push_repeat, repeat, trim, trim_end,
    trim_end_str, trim_str,
};

verus! {

/// The length in bytes of the UTF-8 encoding, as `str::len` reports it.
pub open spec fn byte_len(t: Seq<char>) -> usize {
    vstd::utf8::encode_utf8(t).len() as usize
}

/// Left-aligned in a field of `w` characters, as `{:<w$}` writes it.
pub open spec fn pad(t: Seq<char>, w: nat) -> Seq<char> {
    if t.len() < w {
        t + repeat(' ', (w - t.len()) as nat)
    } else {
        t
    }
}

/// Padded with spaces to `w` visible characters; escape sequences take no room.
pub open spec fn pad_visible(t: Seq<char>, w: nat) -> Seq<char> {
    if visible_len(t) < w {
        t + repeat(' ', (w - visible_len(t)) as nat)
    } else {
        t
    }
}

/// The parts with `sep` between each two of them.
pub open spec fn join(parts: Seq<Seq<char>>, sep: Seq<char>) -> Seq<char>
    decreases parts.len(),
{
    if parts.len() == 0 {
        Seq::empty()
    } else if parts.len() == 1 {
        parts[0]
    } else {
        join(parts.drop_last(), sep) + sep + parts.last()
    }
}

/// How a set of labels is shown: their names separated by commas, or `-`.
pub open spec fn labels_shown(labels: Seq<Seq<char>>) -> Seq<char> {
    if labels.len() == 0 {
        "-"@
    } else {
        join(labels, ", "@)
    }
}

/// A reference to an issue: `#` and its id.
pub open spec fn id_ref(id: i64) -> Seq<char> {
    "#"@ + decimal(id as int)
}

/// References to each of the issues.
pub open spec fn id_refs(ids: Seq<i64>) -> Seq<Seq<char>> {
    ids.map_values(|id: i64| id_ref(id))
}

/// The references to the issues, separated by commas.
pub open spec fn ids_line(ids: Seq<i64>) -> Seq<char> {
    join(id_refs(ids), ", "@)
}

/// The largest of the widths and `least`.
pub open spec fn widest(ws: Seq<usize>, least: usize) -> usize
    decreases ws.len(),
{
    if ws.len() == 0 {
        least
    } else {
        let w = widest(ws.drop_last(), least);
        if ws.last() > w {
            ws.last()
        } else {
            w
        }
    }
}

/// Joining one more part adds the separator and the part.
pub proof fn lemma_join_push(parts: Seq<Seq<char>>, sep: Seq<char>, i: int)
    requires
        0 <= i < parts.len(),
    ensures
        join(parts.take(i + 1), sep) == if i == 0 {
            parts[0]
        } else {
            join(parts.take(i), sep) + sep + parts[i]
        },
{
    assert(parts.take(i + 1).drop_last() =~= parts.take(i));
}

/// Appends `t`, left-aligned in a field of `w` characters.
pub fn push_padded(out: &mut String, t: &str, w: usize)
    ensures
        final(out)@ == old(out)@ + pad(t@, w as nat),
{
    out.append(t);
    let n = t.unicode_len();
    if n < w {
        push_repeat(out, ' ', w - n);
    } else {
        assert(old(out)@ + t@ == old(out)@ + pad(t@, w as nat));
    }
}

/// The styled text followed by spaces up to `width` visible characters.
pub fn padded(styled: String, width: usize) -> (r: String)
    ensures
        r@ == pad_visible(styled@, width as nat),
{
    let plain = crate::render::plain_len(styled.as_str());
    let mut s = styled;
    if plain < width {
        push_repeat(&mut s, ' ', width - plain);
    }
    s
}

/// The parts with `sep` between each two of them.
pub fn join_strings(parts: &Vec<String>, sep: &str) -> (r: String)
    ensures
        r@ == join(strings_view(parts@), sep@),
{
    let ghost v = strings_view(parts@);
    let mut out = String::new();
    let mut i: usize = 0;
    while i < parts.len()
        invariant
            i <= parts@.len(),
            v == strings_view(parts@),
            out@ == join(v.take(i as int), sep@),
        decreases parts.len() - i,
    {
        proof {
            lemma_join_push(v, sep@, i as int);
        }
        if i > 0 {
            out.append(sep);
        }
        out.append(parts[i].as_str());
        i = i + 1;
    }
    assert(v.take(parts@.len() as int) =~= v);
    out
}

/// How a set of labels is shown: their names separated by commas, or `-`.
pub fn label_text(labels: &Vec<String>) -> (r: String)
    ensures
        r@ == labels_shown(strings_view(labels@)),
{
    if labels.len() == 0 {
        "-".to_string()
    } else {
        join_strings(labels, ", ")
    }
}

/// The references `#id` to the issues, separated by commas.
pub fn join_ids(ids: &Vec<i64>) -> (r: String)
    ensures
        r@ == ids_line(ids@),
{
    let ghost v = id_refs(ids@);
    let mut out = String::new();
    let mut i: usize = 0;
    while i < ids.len()
        invariant
            i <= ids@.len(),
            v == id_refs(ids@),
            out@ == join(v.take(i as int), ", "@),
        decreases ids.len() - i,
    {
        proof {
            lemma_join_push(v, ", "@, i as int);
        }
        if i > 0 {
            out.append(", ");
        }
        out.append("#");
        let d = decimal_text(ids[i]);
        out.append(d.as_str());
        i = i + 1;
    }
    assert(v.take(ids@.len() as int) =~= v);
    out
}

/// The largest of the widths and `least`.
pub fn widest_of(ws: &Vec<usize>, least: usize) -> (r: usize)
    ensures
        r == widest(ws@, least),
{
    let mut w = least;
    let mut i: usize = 0;
    while i < ws.len()
        invariant
            i <= ws@.len(),
            w == widest(ws@.take(i as int), least),
        decreases ws.len() - i,
    {
        assert(ws@.take(i + 1).drop_last() =~= ws@.take(i as int));
        if ws[i] > w {
            w = ws[i];
        }
        i = i + 1;
    }
    assert(ws@.take(ws@.len() as int) =~= ws@);
    w
}

// ---------------------------------------------------------------------------
// Issue listings.

/// The widths of the id column's cells.
pub open spec fn summary_id_widths(items: Seq<SummaryV>) -> Seq<usize> {
    items.map_values(|s: SummaryV| byte_len(decimal(s.id as int)))
}

/// The widths of the status column's cells.
pub open spec fn status_widths(items: Seq<SummaryV>) -> Seq<usize> {
    items.map_values(|s: SummaryV| byte_len(s.status))
}

/// The widths of the label column's cells.
pub open spec fn label_widths(items: Seq<SummaryV>) -> Seq<usize> {
    items.map_values(|s: SummaryV| byte_len(labels_shown(s.labels)))
}

/// One line of a listing: id, status and labels in their columns, then the
/// title. The styled form colours status and labels and pads them by their
/// visible width.
pub open spec fn summary_row(s: SummaryV, iw: usize, sw: usize, lw: usize, pretty: bool) -> Seq<char> {
    let labels = labels_shown(s.labels);
    let cells = if pretty {
        pad_visible(painted(status_style_of(s.status), s.status), sw as nat) + "  "@
            + pad_visible(painted(fg_only(14), labels), lw as nat)
    } else {
        pad(s.status, sw as nat) + "  "@ + pad(labels, lw as nat)
    };
    pad(decimal(s.id as int), iw as nat) + "  "@ + cells + "  "@ + s.title + "\n"@
}

/// The lines of a listing.
pub open spec fn summary_rows(items: Seq<SummaryV>, iw: usize, sw: usize, lw: usize, pretty: bool) -> Seq<char>
    decreases items.len(),
{
    if items.len() == 0 {
        Seq::empty()
    } else {
        summary_rows(items.drop_last(), iw, sw, lw, pretty) + summary_row(items.last(), iw, sw, lw, pretty)
    }
}

/// A listing: a header, a line per issue and a count, or a note that there is
/// no issue. Columns are as wide as their widest cell in bytes, and at least
/// as wide as their header.
pub open spec fn list_out(items: Seq<SummaryV>, pretty: bool) -> Seq<char> {
    if items.len() == 0 {
        "No issues found.\n"@
    } else {
        let iw = widest(summary_id_widths(items), 2);
        let sw = widest(status_widths(items), 6);
        let lw = widest(label_widths(items), 6);
        pad("ID"@, iw as nat) + "  "@ + pad("STATUS"@, sw as nat) + "  "@ + pad("LABELS"@, lw as nat)
            + "  TITLE\n"@ + summary_rows(items, iw, sw, lw, pretty) + digits(items.len())
            + " issue(s).\n"@
    }
}

fn push_summary_row(out: &mut String, s: &IssueSummary, iw: usize, sw: usize, lw: usize, pretty: bool)
    ensures
        final(out)@ == old(out)@ + summary_row(s@, iw, sw, lw, pretty),
{
    let id = decimal_text(s.id);
    push_padded(out, id.as_str(), iw);
    out.append("  ");
    let labels = label_text(&s.labels);
    let ghost mid = out@;
    if pretty {
        let status_cell = padded(paint_status(s.status.as_str()), sw);
        out.append(status_cell.as_str());
        out.append("  ");
        let labels_cell = padded(paint_label(labels.as_str()), lw);
        out.append(labels_cell.as_str());
    } else {
        push_padded(out, s.status.as_str(), sw);
        out.append("  ");
        push_padded(out, labels.as_str(), lw);
    }
    let ghost cells = out@.skip(mid.len() as int);
    assert(out@ =~= mid + cells);
    out.append("  ");
    out.append(s.title.as_str());
    out.append("\n");
    assert(final(out)@ =~= old(out)@ + summary_row(s@, iw, sw, lw, pretty));
}

/// A listing of issues, as `list`, `frontier` and `ready` print it.
pub fn format_list(issues: &Vec<IssueSummary>, pretty: bool) -> (r: String)
    ensures
        r@ == list_out(summaries_view(issues@), pretty),
{
    let ghost items = summaries_view(issues@);
    if issues.len() == 0 {
        return "No issues found.\n".to_string();
    }
    let mut id_ws: Vec<usize> = Vec::new();
    let mut status_ws: Vec<usize> = Vec::new();
    let mut label_ws: Vec<usize> = Vec::new();
    let mut i: usize = 0;
    while i < issues.len()
        invariant
            i <= issues@.len(),
            items == summaries_view(issues@),
            id_ws@ == summary_id_widths(items).take(i as int),
            status_ws@ == status_widths(items).take(i as int),
            label_ws@ == label_widths(items).take(i as int),
        decreases issues.len() - i,
    {
        let d = decimal_text(issues[i].id);
        id_ws.push(d.as_str().len());
        status_ws.push(issues[i].status.as_str().len());
        let l = label_text(&issues[i].labels);
        label_ws.push(l.as_str().len());
        assert(id_ws@ =~= summary_id_widths(items).take(i + 1));
        assert(status_ws@ =~= status_widths(items).take(i + 1));
        assert(label_ws@ =~= label_widths(items).take(i + 1));
        i = i + 1;
    }
    assert(summary_id_widths(items).take(issues@.len() as int) =~= summary_id_widths(items));
    assert(status_widths(items).take(issues@.len() as int) =~= status_widths(items));
    assert(label_widths(items).take(issues@.len() as int) =~= label_widths(items));
    let iw = widest_of(&id_ws, 2);
    let sw = widest_of(&status_ws, 6);
    let lw = widest_of(&label_ws, 6);
    let mut out = String::new();
    push_padded(&mut out, "ID", iw);
    out.append("  ");
    push_padded(&mut out, "STATUS", sw);
    out.append("  ");
    push_padded(&mut out, "LABELS", lw);
    out.append("  TITLE\n");
    let ghost head = out@;
    let mut k: usize = 0;
    while k < issues.len()
        invariant
            k <= issues@.len(),
            items == summaries_view(issues@),
            out@ == head + summary_rows(items.take(k as int), iw, sw, lw, pretty),
        decreases issues.len() - k,
    {
        assert(items.take(k + 1).drop_last() =~= items.take(k as int));
        push_summary_row(&mut out, &issues[k], iw, sw, lw, pretty);
        k = k + 1;
    }
    assert(items.take(issues@.len() as int) =~= items);
    push_digits(&mut out, issues.len() as u64);
    out.append(" issue(s).\n");
    out
}

// ---------------------------------------------------------------------------
// The blocked view.

/// One unresolved dependency: `#id title (status)`, the status coloured in
/// the styled form.
pub open spec fn dep_text(d: DependencyV, pretty: bool) -> Seq<char> {
    let status = if pretty {
        painted(status_style_of(d.status), d.status)
    } else {
        d.status
    };
    id_ref(d.id) + " "@ + d.title + " ("@ + status + ")"@
}

/// Each of the dependencies as [`dep_text`] shows it.
pub open spec fn dep_texts(ds: Seq<DependencyV>, pretty: bool) -> Seq<Seq<char>> {
    ds.map_values(|d: DependencyV| dep_text(d, pretty))
}

/// What blocks an issue, the dependencies separated by commas.
pub open spec fn blocked_cell(b: BlockedV, pretty: bool) -> Seq<char> {
    join(dep_texts(b.blocked_by, pretty), ", "@)
}

/// The widths of the id column's cells.
pub open spec fn blocked_id_widths(items: Seq<BlockedV>) -> Seq<usize> {
    items.map_values(|b: BlockedV| byte_len(decimal(b.id as int)))
}

/// The widths of the title column's cells.
pub open spec fn title_widths(items: Seq<BlockedV>) -> Seq<usize> {
    items.map_values(|b: BlockedV| byte_len(b.title))
}

/// The widths of the plain blocked-by cells.
pub open spec fn blocker_widths(items: Seq<BlockedV>) -> Seq<usize> {
    items.map_values(|b: BlockedV| byte_len(blocked_cell(b, false)))
}

/// One line of the blocked view.
pub open spec fn blocked_row(b: BlockedV, iw: usize, tw: usize, pretty: bool) -> Seq<char> {
    pad(decimal(b.id as int), iw as nat) + "  "@ + pad(b.title, tw as nat) + "  "@ + blocked_cell(b, pretty)
        + "\n"@
}

/// The lines of the blocked view.
pub open spec fn blocked_rows(items: Seq<BlockedV>, iw: usize, tw: usize, pretty: bool) -> Seq<char>
    decreases items.len(),
{
    if items.len() == 0 {
        Seq::empty()
    } else {
        blocked_rows(items.drop_last(), iw, tw, pretty) + blocked_row(items.last(), iw, tw, pretty)
    }
}

/// The blocked view: a header, a line per blocked issue and a count, or a note
/// that nothing is blocked. The blocked-by column is as wide as its widest
/// plain cell.
pub open spec fn blocked_out(items: Seq<BlockedV>, pretty: bool) -> Seq<char> {
    if items.len() == 0 {
        "No blocked issues.\n"@
    } else {
        let iw = widest(blocked_id_widths(items), 2);
        let tw = widest(title_widths(items), 5);
        let bw = widest(blocker_widths(items), 10);
        pad("ID"@, iw as nat) + "  "@ + pad("TITLE"@, tw as nat) + "  "@ + pad("BLOCKED BY"@, bw as nat)
            + "\n"@ + blocked_rows(items, iw, tw, pretty) + digits(items.len())
            + " blocked issue(s).\n"@
    }
}

fn push_dep_text(out: &mut String, d: &Dependency, pretty: bool)
    ensures
        final(out)@ == old(out)@ + dep_text(d@, pretty),
{
    out.append("#");
    let id = decimal_text(d.id);
    out.append(id.as_str());
    out.append(" ");
    out.append(d.title.as_str());
    out.append(" (");
    if pretty {
        let st = paint_status(d.status.as_str());
        out.append(st.as_str());
    } else {
        out.append(d.status.as_str());
    }
    out.append(")");
    assert(final(out)@ =~= old(out)@ + dep_text(d@, pretty));
}

/// What blocks an issue: each unresolved dependency as `#id title (status)`,
/// separated by commas.
pub fn blocked_text(issue: &BlockedSummary, pretty: bool) -> (r: String)
    ensures
        r@ == blocked_cell(issue@, pretty),
{
    let ghost v = dep_texts(issue@.blocked_by, pretty);
    let mut out = String::new();
    let mut i: usize = 0;
    while i < issue.blocked_by.len()
        invariant
            i <= issue.blocked_by@.len(),
            v == dep_texts(issue@.blocked_by, pretty),
            out@ == join(v.take(i as int), ", "@),
        decreases issue.blocked_by.len() - i,
    {
        proof {
            lemma_join_push(v, ", "@, i as int);
        }
        if i > 0 {
            out.append(", ");
        }
        push_dep_text(&mut out, &issue.blocked_by[i], pretty);
        assert(v[i as int] == dep_text(issue.blocked_by@[i as int]@, pretty));
        i = i + 1;
    }
    assert(v.take(issue.blocked_by@.len() as int) =~= v);
    out
}

fn push_blocked_row(out: &mut String, b: &BlockedSummary, iw: usize, tw: usize, pretty: bool)
    ensures
        final(out)@ == old(out)@ + blocked_row(b@, iw, tw, pretty),
{
    let d = decimal_text(b.id);
    push_padded(out, d.as_str(), iw);
    out.append("  ");
    push_padded(out, b.title.as_str(), tw);
    out.append("  ");
    let cell = blocked_text(b, pretty);
    out.append(cell.as_str());
    out.append("\n");
    assert(final(out)@ =~= old(out)@ + blocked_row(b@, iw, tw, pretty));
}

/// The blocked view, as `blocked` prints it.
pub fn format_blocked(issues: &Vec<BlockedSummary>, pretty: bool) -> (r: String)
    ensures
        r@ == blocked_out(blocked_list_view(issues@), pretty),
{
    let ghost items = blocked_list_view(issues@);
    if issues.len() == 0 {
        return "No blocked issues.\n".to_string();
    }
    let mut id_ws: Vec<usize> = Vec::new();
    let mut title_ws: Vec<usize> = Vec::new();
    let mut blocker_ws: Vec<usize> = Vec::new();
    let mut i: usize = 0;
    while i < issues.len()
        invariant
            i <= issues@.len(),
            items == blocked_list_view(issues@),
            id_ws@ == blocked_id_widths(items).take(i as int),
            title_ws@ == title_widths(items).take(i as int),
            blocker_ws@ == blocker_widths(items).take(i as int),
        decreases issues.len() - i,
    {
        let d = decimal_text(issues[i].id);
        id_ws.push(d.as_str().len());
        title_ws.push(issues[i].title.as_str().len());
        let b = blocked_text(&issues[i], false);
        blocker_ws.push(b.as_str().len());
        assert(id_ws@ =~= blocked_id_widths(items).take(i + 1));
        assert(title_ws@ =~= title_widths(items).take(i + 1));
        assert(blocker_ws@ =~= blocker_widths(items).take(i + 1));
        i = i + 1;
    }
    assert(blocked_id_widths(items).take(issues@.len() as int) =~= blocked_id_widths(items));
    assert(title_widths(items).take(issues@.len() as int) =~= title_widths(items));
    assert(blocker_widths(items).take(issues@.len() as int) =~= blocker_widths(items));
    let iw = widest_of(&id_ws, 2);
    let tw = widest_of(&title_ws, 5);
    let bw = widest_of(&blocker_ws, 10);
    let mut out = String::new();
    push_padded(&mut out, "ID", iw);
    out.append("  ");
    push_padded(&mut out, "TITLE", tw);
    out.append("  ");
    push_padded(&mut out, "BLOCKED BY", bw);
    out.append("\n");
    let ghost head = out@;
    let mut k: usize = 0;
    while k < issues.len()
        invariant
            k <= issues@.len(),
            items == blocked_list_view(issues@),
            out@ == head + blocked_rows(items.take(k as int), iw, tw, pretty),
        decreases issues.len() - k,
    {
        assert(items.take(k + 1).drop_last() =~= items.take(k as int));
        push_blocked_row(&mut out, &issues[k], iw, tw, pretty);
        k = k + 1;
    }
    assert(items.take(issues@.len() as int) =~= items);
    push_digits(&mut out, issues.len() as u64);
    out.append(" blocked issue(s).\n");
    out
}

// ---------------------------------------------------------------------------
// One issue in detail.

/// A line naming the issues at one kind of edge, when there is any.
pub open spec fn edge_line(head: Seq<char>, ids: Seq<i64>) -> Seq<char> {
    let refs = ids_line(ids);
    if refs.len() > 0 {
        head + refs + "\n"@
    } else {
        Seq::empty()
    }
}

/// The edges of an issue, each kind on a line of its own when there is any;
/// a blank line comes before the blocking edges and before the memberships.
pub open spec fn edges_out(d: DetailV) -> Seq<char> {
    edge_line("\nBlocked by: "@, d.blocked_by) + edge_line("Blocks: "@, d.blocks) + edge_line(
        "\nParents: "@,
        d.parents,
    ) + edge_line("Children: "@, d.children)
}

/// A line naming a commit anchor, when the issue has it.
pub open spec fn anchor_line(head: Seq<char>, anchor: Option<Seq<char>>) -> Seq<char> {
    match anchor {
        Some(h) => head + h + "\n"@,
        None => Seq::empty(),
    }
}

/// The lines that give the dates and the commit anchors.
pub open spec fn dates_out(d: DetailV) -> Seq<char> {
    "Created: "@ + d.issue.created_at + "\n"@ + "Updated: "@ + d.issue.updated_at + "\n"@
        + anchor_line("Opened at: "@, d.issue.opened_at) + anchor_line(
        "Resolved by: "@,
        d.issue.resolved_by,
    )
}

/// A comment on one line: `#id created_at: body`.
pub open spec fn comment_line(c: CommentV) -> Seq<char> {
    id_ref(c.id) + " "@ + c.created_at + ": "@ + c.body + "\n"@
}

/// The comments, one per line.
pub open spec fn comment_lines(cs: Seq<CommentV>) -> Seq<char>
    decreases cs.len(),
{
    if cs.len() == 0 {
        Seq::empty()
    } else {
        comment_lines(cs.drop_last()) + comment_line(cs.last())
    }
}

/// The top of the plain detail: title line, status, labels, dates, edges.
pub open spec fn plain_top(d: DetailV) -> Seq<char> {
    "Issue #"@ + decimal(d.issue.id as int) + ": "@ + d.issue.title + "\n"@ + "Status: "@
        + d.issue.status + "\n"@ + "Labels: "@ + labels_shown(d.labels) + "\n"@ + dates_out(d)
        + edges_out(d)
}

/// The body without its trailing whitespace after a blank line, unless it is
/// blank.
pub open spec fn plain_body(d: DetailV) -> Seq<char> {
    if trim(d.issue.body).len() > 0 {
        "\n"@ + trim_end(d.issue.body) + "\n"@
    } else {
        Seq::empty()
    }
}

/// The comments under a heading, when there is any.
pub open spec fn plain_comments(d: DetailV) -> Seq<char> {
    if d.comments.len() > 0 {
        "\nComments\n--------\n"@ + comment_lines(d.comments)
    } else {
        Seq::empty()
    }
}

/// An issue in detail, plain: title line, status, labels, dates, edges, the
/// body without its trailing whitespace unless it is blank, then the comments.
pub open spec fn detail_out(d: DetailV) -> Seq<char> {
    plain_top(d) + plain_body(d) + plain_comments(d)
}

/// Markdown rendered for the terminal, without trailing whitespace.
pub open spec fn md_shown(md: Seq<char>, dark: bool) -> Seq<char> {
    trim_end(md_text(markdown_events_of(md), dark))
}

/// A comment in the styled form: a blank line, `#id created_at:`, and the
/// body rendered as markdown.
pub open spec fn comment_block(c: CommentV, dark: bool) -> Seq<char> {
    "\n"@ + id_ref(c.id) + " "@ + c.created_at + ":\n"@ + md_shown(c.body, dark) + "\n"@
}

/// The comments in the styled form.
pub open spec fn comment_blocks(cs: Seq<CommentV>, dark: bool) -> Seq<char>
    decreases cs.len(),
{
    if cs.len() == 0 {
        Seq::empty()
    } else {
        comment_blocks(cs.drop_last(), dark) + comment_block(cs.last(), dark)
    }
}

/// Bold.
pub open spec fn bold_style() -> crate::style::TextStyle {
    effects_only(true, false, false, false)
}

/// The top of the styled detail: the bold title line, the status and labels
/// in their colours, the dates and the edges.
pub open spec fn pretty_top(d: DetailV) -> Seq<char> {
    painted(bold_style(), "Issue #"@ + decimal(d.issue.id as int) + ": "@ + d.issue.title) + "\n"@
        + "Status: "@ + painted(status_style_of(d.issue.status), d.issue.status) + "\n"@
        + "Labels: "@ + painted(fg_only(14), labels_shown(d.labels)) + "\n"@ + dates_out(d)
        + edges_out(d)
}

/// The body rendered as markdown after a blank line, unless it is blank.
pub open spec fn pretty_body(d: DetailV, dark: bool) -> Seq<char> {
    if trim(d.issue.body).len() > 0 {
        "\n"@ + md_shown(d.issue.body, dark) + "\n"@
    } else {
        Seq::empty()
    }
}

/// The comments under a bold heading, when there is any.
pub open spec fn pretty_comments(d: DetailV, dark: bool) -> Seq<char> {
    if d.comments.len() > 0 {
        "\n"@ + painted(bold_style(), "Comments"@) + "\n"@ + "--------\n"@ + comment_blocks(
            d.comments,
            dark,
        )
    } else {
        Seq::empty()
    }
}

/// An issue in detail, styled: a bold title line, the status and labels in
/// their colours, and the body and comments rendered as markdown.
pub open spec fn detail_pretty_out(d: DetailV, dark: bool) -> Seq<char> {
    pretty_top(d) + pretty_body(d, dark) + pretty_comments(d, dark)
}

fn push_edge_line(out: &mut String, head: &str, ids: &Vec<i64>)
    ensures
        final(out)@ == old(out)@ + edge_line(head@, ids@),
{
    let refs = join_ids(ids);
    if !refs.as_str().is_empty() {
        out.append(head);
        out.append(refs.as_str());
        out.append("\n");
        assert(final(out)@ =~= old(out)@ + edge_line(head@, ids@));
    } else {
        assert(final(out)@ =~= old(out)@ + edge_line(head@, ids@));
    }
}

fn push_edges(out: &mut String, detail: &IssueDetail)
    ensures
        final(out)@ == old(out)@ + edges_out(detail@),
{
    push_edge_line(out, "\nBlocked by: ", &detail.blocked_by);
    push_edge_line(out, "Blocks: ", &detail.blocks);
    push_edge_line(out, "\nParents: ", &detail.parents);
    push_edge_line(out, "Children: ", &detail.children);
    assert(final(out)@ =~= old(out)@ + edges_out(detail@));
}

fn push_head(out: &mut String, detail: &IssueDetail)
    ensures
        final(out)@ == old(out)@ + "Issue #"@ + decimal(detail@.issue.id as int) + ": "@
            + detail@.issue.title,
{
    out.append("Issue #");
    let id = decimal_text(detail.issue.id);
    out.append(id.as_str());
    out.append(": ");
    out.append(detail.issue.title.as_str());
}

fn push_anchor_line(out: &mut String, head: &str, anchor: &Option<String>)
    ensures
        final(out)@ == old(out)@ + anchor_line(head@, opt_view(*anchor)),
{
    match anchor {
        Some(h) => {
            out.append(head);
            out.append(h.as_str());
            out.append("\n");
            assert(final(out)@ =~= old(out)@ + anchor_line(head@, opt_view(*anchor)));
        },
        None => {
            assert(final(out)@ =~= old(out)@ + anchor_line(head@, opt_view(*anchor)));
        },
    }
}

fn push_dates(out: &mut String, detail: &IssueDetail)
    ensures
        final(out)@ == old(out)@ + dates_out(detail@),
{
    out.append("Created: ");
    out.append(detail.issue.created_at.as_str());
    out.append("\n");
    out.append("Updated: ");
    out.append(detail.issue.updated_at.as_str());
    out.append("\n");
    push_anchor_line(out, "Opened at: ", &detail.issue.opened_at);
    push_anchor_line(out, "Resolved by: ", &detail.issue.resolved_by);
    assert(final(out)@ =~= old(out)@ + dates_out(detail@));
}

fn push_comment_line(out: &mut String, c: &Comment)
    ensures
        final(out)@ == old(out)@ + comment_line(c@),
{
    out.append("#");
    let id = decimal_text(c.id);
    out.append(id.as_str());
    out.append(" ");
    out.append(c.created_at.as_str());
    out.append(": ");
    out.append(c.body.as_str());
    out.append("\n");
    assert(final(out)@ =~= old(out)@ + comment_line(c@));
}

fn push_plain_comments(out: &mut String, detail: &IssueDetail)
    ensures
        final(out)@ == old(out)@ + plain_comments(detail@),
{
    if detail.comments.len() > 0 {
        out.append("\nComments\n--------\n");
        let ghost start = out@;
        let ghost cs = detail@.comments;
        let mut i: usize = 0;
        while i < detail.comments.len()
            invariant
                i <= detail.comments@.len(),
                cs == detail@.comments,
                out@ == start + comment_lines(cs.take(i as int)),
            decreases detail.comments.len() - i,
        {
            assert(cs.take(i + 1).drop_last() =~= cs.take(i as int));
            push_comment_line(out, &detail.comments[i]);
            i = i + 1;
        }
        assert(cs.take(detail.comments@.len() as int) =~= cs);
        assert(final(out)@ =~= old(out)@ + plain_comments(detail@));
    } else {
        assert(final(out)@ =~= old(out)@ + plain_comments(detail@));
    }
}

/// An issue in detail, as `get` prints it for agents.
pub fn format_detail(detail: &IssueDetail) -> (r: String)
    ensures
        r@ == detail_out(detail@),
{
    let mut out = String::new();
    push_head(&mut out, detail);
    out.append("\n");
    out.append("Status: ");
    out.append(detail.issue.status.as_str());
    out.append("\n");
    out.append("Labels: ");
    let labels = label_text(&detail.labels);
    out.append(labels.as_str());
    out.append("\n");
    push_dates(&mut out, detail);
    push_edges(&mut out, detail);
    assert(out@ =~= plain_top(detail@));
    let ghost top = out@;
    if trim_str(detail.issue.body.as_str()).unicode_len() != 0 {
        out.append("\n");
        out.append(trim_end_str(detail.issue.body.as_str()));
        out.append("\n");
    }
    assert(out@ =~= top + plain_body(detail@));
    push_plain_comments(&mut out, detail);
    assert(out@ =~= detail_out(detail@));
    out
}

fn push_markdown(out: &mut String, md: &str, dark: bool)
    ensures
        final(out)@ == old(out)@ + md_shown(md@, dark),
{
    let rendered = render_markdown(md, dark);
    out.append(trim_end_str(rendered.as_str()));
}

fn push_pretty_top(out: &mut String, detail: &IssueDetail)
    ensures
        final(out)@ == old(out)@ + pretty_top(detail@),
{
    let mut head = String::new();
    push_head(&mut head, detail);
    let title = paint_title(head.as_str());
    out.append(title.as_str());
    out.append("\n");
    out.append("Status: ");
    let status = paint_status(detail.issue.status.as_str());
    out.append(status.as_str());
    out.append("\n");
    out.append("Labels: ");
    let labels = label_text(&detail.labels);
    let labels = paint_label(labels.as_str());
    out.append(labels.as_str());
    out.append("\n");
    push_dates(out, detail);
    push_edges(out, detail);
    assert(final(out)@ =~= old(out)@ + pretty_top(detail@));
}

fn push_comment_block(out: &mut String, c: &Comment, dark: bool)
    ensures
        final(out)@ == old(out)@ + comment_block(c@, dark),
{
    out.append("\n");
    out.append("#");
    let id = decimal_text(c.id);
    out.append(id.as_str());
    out.append(" ");
    out.append(c.created_at.as_str());
    out.append(":\n");
    push_markdown(out, c.body.as_str(), dark);
    out.append("\n");
    assert(final(out)@ =~= old(out)@ + comment_block(c@, dark));
}

fn push_pretty_comments(out: &mut String, detail: &IssueDetail, dark: bool)
    ensures
        final(out)@ == old(out)@ + pretty_comments(detail@, dark),
{
    if detail.comments.len() > 0 {
        out.append("\n");
        let title = paint_title("Comments");
        out.append(title.as_str());
        out.append("\n");
        out.append("--------\n");
        let ghost start = out@;
        let ghost cs = detail@.comments;
        let mut i: usize = 0;
        while i < detail.comments.len()
            invariant
                i <= detail.comments@.len(),
                cs == detail@.comments,
                out@ == start + comment_blocks(cs.take(i as int), dark),
            decreases detail.comments.len() - i,
        {
            assert(cs.take(i + 1).drop_last() =~= cs.take(i as int));
            push_comment_block(out, &detail.comments[i], dark);
            i = i + 1;
        }
        assert(cs.take(detail.comments@.len() as int) =~= cs);
        assert(final(out)@ =~= old(out)@ + pretty_comments(detail@, dark));
    } else {
        assert(final(out)@ =~= old(out)@ + pretty_comments(detail@, dark));
    }
}

/// An issue in detail, as `get --pretty` prints it at a terminal; `dark` tells
/// whether the terminal background is dark.
pub fn format_detail_pretty(detail: &IssueDetail, dark: bool) -> (r: String)
    ensures
        r@ == detail_pretty_out(detail@, dark),
{
    let mut out = String::new();
    push_pretty_top(&mut out, detail);
    let ghost top = out@;
    if trim_str(detail.issue.body.as_str()).unicode_len() != 0 {
        out.append("\n");
        push_markdown(&mut out, detail.issue.body.as_str(), dark);
        out.append("\n");
    }
    assert(out@ =~= top + pretty_body(detail@, dark));
    push_pretty_comments(&mut out, detail, dark);
    assert(out@ =~= detail_pretty_out(detail@, dark));
    out
}

// ---------------------------------------------------------------------------
// The styled view shows the plain view.

/// Whether the text holds no escape character.
pub open spec fn escape_free(t: Seq<char>) -> bool {
    !t.contains('\x1b')
}

/// Whether the text of a listed issue holds no escape character.
pub open spec fn summary_escape_free(s: SummaryV) -> bool {
    &&& escape_free(s.title)
    &&& escape_free(s.status)
    &&& forall|j: int| 0 <= j < s.labels.len() ==> escape_free(#[trigger] s.labels[j])
}

/// Whether the text of a blocked issue holds no escape character.
pub open spec fn blocked_escape_free(b: BlockedV) -> bool {
    &&& escape_free(b.title)
    &&& forall|j: int|
        0 <= j < b.blocked_by.len() ==> escape_free(#[trigger] b.blocked_by[j].title) && escape_free(
            b.blocked_by[j].status,
        )
}

proof fn lemma_char_shows(c: char)
    requires
        c != '\x1b',
    ensures
        shows_as(seq![c], seq![c]),
{
    assert(!seq![c].contains('\x1b')) by {
        if seq![c].contains('\x1b') {
            let k = choose|k: int| 0 <= k < 1 && seq![c][k] == '\x1b';
        }
    }
    lemma_no_escape_shows(seq![c]);
}

proof fn lemma_digits_show(n: nat)
    ensures
        shows_as(digits(n), digits(n)),
    decreases n,
{
    let d = seq!['0', '1', '2', '3', '4', '5', '6', '7', '8', '9'];
    assert(!d.contains('\x1b')) by {
        if d.contains('\x1b') {
            let k = choose|k: int| 0 <= k < 10 && d[k] == '\x1b';
            assert(k == 0 || k == 1 || k == 2 || k == 3 || k == 4 || k == 5 || k == 6 || k == 7 || k
                == 8 || k == 9);
        }
    }
    if n < 10 {
        assert(d[n as int] != '\x1b');
        lemma_char_shows(d[n as int]);
    } else {
        lemma_digits_show(n / 10);
        let m = (n % 10) as int;
        assert(d[m] != '\x1b');
        lemma_char_shows(d[m]);
        assert(digits(n) =~= digits(n / 10) + seq![d[m]]);
        lemma_shows_as_concat(digits(n / 10), digits(n / 10), seq![d[m]], seq![d[m]]);
    }
}

proof fn lemma_decimal_shows(n: int)
    ensures
        shows_as(decimal(n), decimal(n)),
{
    lemma_digits_show((if n < 0 { -n } else { n }) as nat);
    if n < 0 {
        lemma_char_shows('-');
        lemma_shows_as_concat(seq!['-'], seq!['-'], digits((-n) as nat), digits((-n) as nat));
    }
}

proof fn lemma_text_shows(t: Seq<char>)
    requires
        escape_free(t),
    ensures
        shows_as(t, t),
{
    lemma_no_escape_shows(t);
}

proof fn lemma_spaces_show(n: nat)
    ensures
        shows_as(repeat(' ', n), repeat(' ', n)),
{
    assert(!repeat(' ', n).contains('\x1b')) by {
        if repeat(' ', n).contains('\x1b') {
            let k = choose|k: int| 0 <= k < n && repeat(' ', n)[k] == '\x1b';
        }
    }
    lemma_no_escape_shows(repeat(' ', n));
}

proof fn lemma_pad_shows(t: Seq<char>, w: nat)
    requires
        shows_as(t, t),
    ensures
        shows_as(pad(t, w), pad(t, w)),
{
    if t.len() < w {
        lemma_spaces_show((w - t.len()) as nat);
        lemma_shows_as_concat(t, t, repeat(' ', (w - t.len()) as nat), repeat(' ', (w - t.len()) as nat));
    }
}

/// Painted text padded by its visible width shows as the text padded by its
/// length.
proof fn lemma_pad_painted_shows(style: crate::style::TextStyle, t: Seq<char>, w: nat)
    requires
        style.wf(),
        shows_as(t, t),
    ensures
        shows_as(pad_visible(painted(style, t), w), pad(t, w)),
{
    lemma_painted_shows(style, t);
    lemma_paint_keeps_width(style, t);
    lemma_shown_len(t, false);
    let p = painted(style, t);
    assert(visible_len(p) == t.len());
    if t.len() < w {
        lemma_spaces_show((w - t.len()) as nat);
        lemma_shows_as_concat(p, t, repeat(' ', (w - t.len()) as nat), repeat(' ', (w - t.len()) as nat));
    }
}

proof fn lemma_join_shows(ps: Seq<Seq<char>>, qs: Seq<Seq<char>>, sep: Seq<char>)
    requires
        ps.len() == qs.len(),
        forall|i: int| 0 <= i < ps.len() ==> shows_as(#[trigger] ps[i], qs[i]),
        shows_as(sep, sep),
    ensures
        shows_as(join(ps, sep), join(qs, sep)),
    decreases ps.len(),
{
    if ps.len() == 0 {
        assert(shows_as(Seq::<char>::empty(), Seq::<char>::empty())) by {
            lemma_no_escape_shows(Seq::<char>::empty());
        }
    } else if ps.len() > 1 {
        lemma_join_shows(ps.drop_last(), qs.drop_last(), sep);
        assert(shows_as(ps.last(), qs.last())) by {
            assert(shows_as(ps[ps.len() - 1], qs[ps.len() - 1]));
        }
        lemma_shows_as_concat(join(ps.drop_last(), sep), join(qs.drop_last(), sep), sep, sep);
        lemma_shows_as_concat(
            join(ps.drop_last(), sep) + sep,
            join(qs.drop_last(), sep) + sep,
            ps.last(),
            qs.last(),
        );
    } else {
        assert(shows_as(ps[0], qs[0]));
    }
}

proof fn lemma_labels_show(labels: Seq<Seq<char>>)
    requires
        forall|j: int| 0 <= j < labels.len() ==> escape_free(#[trigger] labels[j]),
    ensures
        shows_as(labels_shown(labels), labels_shown(labels)),
{
    reveal_strlit("-");
    reveal_strlit(", ");
    lemma_text_shows("-"@);
    lemma_text_shows(", "@);
    assert forall|j: int| 0 <= j < labels.len() implies shows_as(#[trigger] labels[j], labels[j]) by {
        lemma_text_shows(labels[j]);
    }
    lemma_join_shows(labels, labels, ", "@);
}

proof fn lemma_summary_row_shows(s: SummaryV, iw: usize, sw: usize, lw: usize)
    requires
        summary_escape_free(s),
    ensures
        shows_as(summary_row(s, iw, sw, lw, true), summary_row(s, iw, sw, lw, false)),
{
    reveal_strlit("  ");
    reveal_strlit("\n");
    lemma_text_shows("  "@);
    lemma_text_shows("\n"@);
    lemma_text_shows(s.title);
    lemma_text_shows(s.status);
    lemma_labels_show(s.labels);
    let labels = labels_shown(s.labels);
    lemma_decimal_shows(s.id as int);
    lemma_pad_shows(decimal(s.id as int), iw as nat);
    lemma_pad_painted_shows(status_style_of(s.status), s.status, sw as nat);
    lemma_pad_painted_shows(fg_only(14), labels, lw as nat);
    let id = pad(decimal(s.id as int), iw as nat);
    let a = pad_visible(painted(status_style_of(s.status), s.status), sw as nat);
    let b = pad_visible(painted(fg_only(14), labels), lw as nat);
    let a2 = pad(s.status, sw as nat);
    let b2 = pad(labels, lw as nat);
    lemma_shows_as_concat(a, a2, "  "@, "  "@);
    lemma_shows_as_concat(a + "  "@, a2 + "  "@, b, b2);
    lemma_shows_as_concat(id, id, "  "@, "  "@);
    lemma_shows_as_concat(id + "  "@, id + "  "@, a + "  "@ + b, a2 + "  "@ + b2);
    lemma_shows_as_concat(id + "  "@ + (a + "  "@ + b), id + "  "@ + (a2 + "  "@ + b2), "  "@, "  "@);
    lemma_shows_as_concat(
        id + "  "@ + (a + "  "@ + b) + "  "@,
        id + "  "@ + (a2 + "  "@ + b2) + "  "@,
        s.title,
        s.title,
    );
    lemma_shows_as_concat(
        id + "  "@ + (a + "  "@ + b) + "  "@ + s.title,
        id + "  "@ + (a2 + "  "@ + b2) + "  "@ + s.title,
        "\n"@,
        "\n"@,
    );
}

proof fn lemma_summary_rows_show(items: Seq<SummaryV>, iw: usize, sw: usize, lw: usize)
    requires
        forall|i: int| 0 <= i < items.len() ==> summary_escape_free(#[trigger] items[i]),
    ensures
        shows_as(summary_rows(items, iw, sw, lw, true), summary_rows(items, iw, sw, lw, false)),
    decreases items.len(),
{
    if items.len() == 0 {
        lemma_no_escape_shows(Seq::<char>::empty());
    } else {
        lemma_summary_rows_show(items.drop_last(), iw, sw, lw);
        assert(summary_escape_free(items[items.len() - 1]));
        lemma_summary_row_shows(items.last(), iw, sw, lw);
        lemma_shows_as_concat(
            summary_rows(items.drop_last(), iw, sw, lw, true),
            summary_rows(items.drop_last(), iw, sw, lw, false),
            summary_row(items.last(), iw, sw, lw, true),
            summary_row(items.last(), iw, sw, lw, false),
        );
    }
}

/// The styled listing shows on a terminal exactly the text of the plain
/// listing: styling adds escape codes and nothing else, as long as the
/// issues' own text holds no escape character.
pub proof fn law_styled_list_shows_plain(items: Seq<SummaryV>)
    requires
        forall|i: int| 0 <= i < items.len() ==> summary_escape_free(#[trigger] items[i]),
    ensures
        shows_as(list_out(items, true), list_out(items, false)),
{
    if items.len() == 0 {
        reveal_strlit("No issues found.\n");
        lemma_text_shows("No issues found.\n"@);
    } else {
        let iw = widest(summary_id_widths(items), 2);
        let sw = widest(status_widths(items), 6);
        let lw = widest(label_widths(items), 6);
        reveal_strlit("ID");
        reveal_strlit("STATUS");
        reveal_strlit("LABELS");
        reveal_strlit("  ");
        reveal_strlit("  TITLE\n");
        reveal_strlit(" issue(s).\n");
        lemma_text_shows("ID"@);
        lemma_text_shows("STATUS"@);
        lemma_text_shows("LABELS"@);
        lemma_text_shows("  "@);
        lemma_text_shows("  TITLE\n"@);
        lemma_text_shows(" issue(s).\n"@);
        lemma_pad_shows("ID"@, iw as nat);
        lemma_pad_shows("STATUS"@, sw as nat);
        lemma_pad_shows("LABELS"@, lw as nat);
        let h1 = pad("ID"@, iw as nat);
        let h2 = pad("STATUS"@, sw as nat);
        let h3 = pad("LABELS"@, lw as nat);
        lemma_shows_as_concat(h1, h1, "  "@, "  "@);
        lemma_shows_as_concat(h1 + "  "@, h1 + "  "@, h2, h2);
        lemma_shows_as_concat(h1 + "  "@ + h2, h1 + "  "@ + h2, "  "@, "  "@);
        lemma_shows_as_concat(h1 + "  "@ + h2 + "  "@, h1 + "  "@ + h2 + "  "@, h3, h3);
        let head = h1 + "  "@ + h2 + "  "@ + h3;
        lemma_shows_as_concat(head, head, "  TITLE\n"@, "  TITLE\n"@);
        lemma_summary_rows_show(items, iw, sw, lw);
        lemma_shows_as_concat(
            head + "  TITLE\n"@,
            head + "  TITLE\n"@,
            summary_rows(items, iw, sw, lw, true),
            summary_rows(items, iw, sw, lw, false),
        );
        lemma_digits_show(items.len());
        let r1 = head + "  TITLE\n"@ + summary_rows(items, iw, sw, lw, true);
        let r2 = head + "  TITLE\n"@ + summary_rows(items, iw, sw, lw, false);
        lemma_shows_as_concat(r1, r2, digits(items.len()), digits(items.len()));
        lemma_shows_as_concat(
            r1 + digits(items.len()),
            r2 + digits(items.len()),
            " issue(s).\n"@,
            " issue(s).\n"@,
        );
    }
}

proof fn lemma_dep_text_shows(d: DependencyV)
    requires
        escape_free(d.title),
        escape_free(d.status),
    ensures
        shows_as(dep_text(d, true), dep_text(d, false)),
{
    reveal_strlit("#");
    reveal_strlit(" ");
    reveal_strlit(" (");
    reveal_strlit(")");
    lemma_text_shows("#"@);
    lemma_text_shows(" "@);
    lemma_text_shows(" ("@);
    lemma_text_shows(")"@);
    lemma_text_shows(d.title);
    lemma_text_shows(d.status);
    lemma_decimal_shows(d.id as int);
    lemma_painted_shows(status_style_of(d.status), d.status);
    let p = "#"@ + decimal(d.id as int) + " "@ + d.title + " ("@;
    lemma_shows_as_concat("#"@, "#"@, decimal(d.id as int), decimal(d.id as int));
    lemma_shows_as_concat("#"@ + decimal(d.id as int), "#"@ + decimal(d.id as int), " "@, " "@);
    lemma_shows_as_concat("#"@ + decimal(d.id as int) + " "@, "#"@ + decimal(d.id as int) + " "@, d.title, d.title);
    let q = "#"@ + decimal(d.id as int) + " "@ + d.title;
    lemma_shows_as_concat(q, q, " ("@, " ("@);
    let st = painted(status_style_of(d.status), d.status);
    lemma_shows_as_concat(p, p, st, d.status);
    lemma_shows_as_concat(p + st, p + d.status, ")"@, ")"@);
}

proof fn lemma_blocked_row_shows(b: BlockedV, iw: usize, tw: usize)
    requires
        blocked_escape_free(b),
    ensures
        shows_as(blocked_row(b, iw, tw, true), blocked_row(b, iw, tw, false)),
{
    reveal_strlit("  ");
    reveal_strlit("\n");
    reveal_strlit(", ");
    lemma_text_shows("  "@);
    lemma_text_shows("\n"@);
    lemma_text_shows(", "@);
    lemma_text_shows(b.title);
    let ps = dep_texts(b.blocked_by, true);
    let qs = dep_texts(b.blocked_by, false);
    assert forall|i: int| 0 <= i < ps.len() implies shows_as(#[trigger] ps[i], qs[i]) by {
        assert(escape_free(b.blocked_by[i].title));
        lemma_dep_text_shows(b.blocked_by[i]);
    }
    lemma_join_shows(ps, qs, ", "@);
    lemma_decimal_shows(b.id as int);
    lemma_pad_shows(decimal(b.id as int), iw as nat);
    lemma_pad_shows(b.title, tw as nat);
    let id = pad(decimal(b.id as int), iw as nat);
    let title = pad(b.title, tw as nat);
    lemma_shows_as_concat(id, id, "  "@, "  "@);
    lemma_shows_as_concat(id + "  "@, id + "  "@, title, title);
    lemma_shows_as_concat(id + "  "@ + title, id + "  "@ + title, "  "@, "  "@);
    let head = id + "  "@ + title + "  "@;
    lemma_shows_as_concat(head, head, blocked_cell(b, true), blocked_cell(b, false));
    lemma_shows_as_concat(head + blocked_cell(b, true), head + blocked_cell(b, false), "\n"@, "\n"@);
}

proof fn lemma_blocked_rows_show(items: Seq<BlockedV>, iw: usize, tw: usize)
    requires
        forall|i: int| 0 <= i < items.len() ==> blocked_escape_free(#[trigger] items[i]),
    ensures
        shows_as(blocked_rows(items, iw, tw, true), blocked_rows(items, iw, tw, false)),
    decreases items.len(),
{
    if items.len() == 0 {
        lemma_no_escape_shows(Seq::<char>::empty());
    } else {
        lemma_blocked_rows_show(items.drop_last(), iw, tw);
        assert(blocked_escape_free(items[items.len() - 1]));
        lemma_blocked_row_shows(items.last(), iw, tw);
        lemma_shows_as_concat(
            blocked_rows(items.drop_last(), iw, tw, true),
            blocked_rows(items.drop_last(), iw, tw, false),
            blocked_row(items.last(), iw, tw, true),
            blocked_row(items.last(), iw, tw, false),
        );
    }
}

/// The styled blocked view shows on a terminal exactly the text of the
/// plain one, as long as the issues' own text holds no escape character.
pub proof fn law_styled_blocked_shows_plain(items: Seq<BlockedV>)
    requires
        forall|i: int| 0 <= i < items.len() ==> blocked_escape_free(#[trigger] items[i]),
    ensures
        shows_as(blocked_out(items, true), blocked_out(items, false)),
{
    if items.len() == 0 {
        reveal_strlit("No blocked issues.\n");
        lemma_text_shows("No blocked issues.\n"@);
    } else {
        let iw = widest(blocked_id_widths(items), 2);
        let tw = widest(title_widths(items), 5);
        let bw = widest(blocker_widths(items), 10);
        reveal_strlit("ID");
        reveal_strlit("TITLE");
        reveal_strlit("BLOCKED BY");
        reveal_strlit("  ");
        reveal_strlit("\n");
        reveal_strlit(" blocked issue(s).\n");
        lemma_text_shows("ID"@);
        lemma_text_shows("TITLE"@);
        lemma_text_shows("BLOCKED BY"@);
        lemma_text_shows("  "@);
        lemma_text_shows("\n"@);
        lemma_text_shows(" blocked issue(s).\n"@);
        lemma_pad_shows("ID"@, iw as nat);
        lemma_pad_shows("TITLE"@, tw as nat);
        lemma_pad_shows("BLOCKED BY"@, bw as nat);
        let h1 = pad("ID"@, iw as nat);
        let h2 = pad("TITLE"@, tw as nat);
        let h3 = pad("BLOCKED BY"@, bw as nat);
        lemma_shows_as_concat(h1, h1, "  "@, "  "@);
        lemma_shows_as_concat(h1 + "  "@, h1 + "  "@, h2, h2);
        lemma_shows_as_concat(h1 + "  "@ + h2, h1 + "  "@ + h2, "  "@, "  "@);
        lemma_shows_as_concat(h1 + "  "@ + h2 + "  "@, h1 + "  "@ + h2 + "  "@, h3, h3);
        let head = h1 + "  "@ + h2 + "  "@ + h3;
        lemma_shows_as_concat(head, head, "\n"@, "\n"@);
        lemma_blocked_rows_show(items, iw, tw);
        lemma_shows_as_concat(
            head + "\n"@,
            head + "\n"@,
            blocked_rows(items, iw, tw, true),
            blocked_rows(items, iw, tw, false),
        );
        lemma_digits_show(items.len());
        let r1 = head + "\n"@ + blocked_rows(items, iw, tw, true);
        let r2 = head + "\n"@ + blocked_rows(items, iw, tw, false);
        lemma_shows_as_concat(r1, r2, digits(items.len()), digits(items.len()));
        lemma_shows_as_concat(
            r1 + digits(items.len()),
            r2 + digits(items.len()),
            " blocked issue(s).\n"@,
            " blocked issue(s).\n"@,
        );
    }
}

// ---------------------------------------------------------------------------
// What a new comment adds to the detail.

/// One more comment adds one line to the plain detail, after everything it
/// showed before: `#id created_at: body`, under the comments heading, which
/// comes with the first comment.
pub proof fn law_detail_shows_new_comment(d: DetailV, c: CommentV)
    ensures
        ({
            let line = "#"@ + decimal(c.id as int) + " "@ + c.created_at + ": "@ + c.body + "\n"@;
            let more = DetailV { comments: d.comments.push(c), ..d };
            detail_out(more) == detail_out(d) + if d.comments.len() == 0 {
                "\nComments\n--------\n"@ + line
            } else {
                line
            }
        }),
{
    let more = DetailV { comments: d.comments.push(c), ..d };
    assert(more.comments.drop_last() =~= d.comments);
    if d.comments.len() == 0 {
        assert(comment_lines(d.comments) =~= Seq::<char>::empty());
    }
    let line = "#"@ + decimal(c.id as int) + " "@ + c.created_at + ": "@ + c.body + "\n"@;
    assert(comment_line(c) =~= line);
    assert(plain_top(more) == plain_top(d));
    assert(plain_body(more) == plain_body(d));
    if d.comments.len() == 0 {
        assert(plain_comments(more) =~= "\nComments\n--------\n"@ + line);
        assert(plain_comments(d) =~= Seq::<char>::empty());
    } else {
        assert(plain_comments(more) =~= plain_comments(d) + line);
    }
    assert(detail_out(more) =~= detail_out(d) + (if d.comments.len() == 0 {
        "\nComments\n--------\n"@ + line
    } else {
        line
    }));
}

/// One more comment adds one block to the styled detail, after everything it
/// showed before: a blank line, `#id created_at:`, and the body rendered as
/// markdown, under the bold comments heading, which comes with the first
/// comment.
pub proof fn law_pretty_detail_shows_new_comment(d: DetailV, c: CommentV, dark: bool)
    ensures
        ({
            let block = "\n#"@ + decimal(c.id as int) + " "@ + c.created_at + ":\n"@ + trim_end(
                md_text(markdown_events_of(c.body), dark),
            ) + "\n"@;
            let more = DetailV { comments: d.comments.push(c), ..d };
            detail_pretty_out(more, dark) == detail_pretty_out(d, dark) + if d.comments.len() == 0 {
                "\n"@ + painted(bold_style(), "Comments"@) + "\n"@ + "--------\n"@ + block
            } else {
                block
            }
        }),
{
    reveal_strlit("\n#");
    reveal_strlit("\n");
    reveal_strlit("#");
    let more = DetailV { comments: d.comments.push(c), ..d };
    assert(more.comments.drop_last() =~= d.comments);
    let block = "\n#"@ + decimal(c.id as int) + " "@ + c.created_at + ":\n"@ + trim_end(
        md_text(markdown_events_of(c.body), dark),
    ) + "\n"@;
    assert("\n#"@ =~= "\n"@ + "#"@);
    assert(comment_block(c, dark) =~= block);
    if d.comments.len() == 0 {
        assert(comment_blocks(d.comments, dark) =~= Seq::<char>::empty());
        assert(pretty_comments(more, dark) =~= "\n"@ + painted(bold_style(), "Comments"@) + "\n"@
            + "--------\n"@ + block);
        assert(pretty_comments(d, dark) =~= Seq::<char>::empty());
    } else {
        assert(pretty_comments(more, dark) =~= pretty_comments(d, dark) + block);
    }
    assert(detail_pretty_out(more, dark) =~= detail_pretty_out(d, dark) + (if d.comments.len() == 0 {
        "\n"@ + painted(bold_style(), "Comments"@) + "\n"@ + "--------\n"@ + block
    } else {
        block
    }));
}

// ---------------------------------------------------------------------------
// How listings grow.

/// Joining one more part adds the separator and the part after what was
/// joined before; a single part is joined alone.
pub proof fn law_join_grows(parts: Seq<Seq<char>>, sep: Seq<char>, p: Seq<char>)
    ensures
        join(parts.push(p), sep) == if parts.len() == 0 {
            p
        } else {
            join(parts, sep) + sep + p
        },
{
    assert(parts.push(p).drop_last() =~= parts);
}

/// One more issue adds one row after the rows before it, whatever the
/// column widths and the form.
pub proof fn law_rows_grow(items: Seq<SummaryV>, x: SummaryV, iw: usize, sw: usize, lw: usize, pretty: bool)
    ensures
        summary_rows(items.push(x), iw, sw, lw, pretty) == summary_rows(items, iw, sw, lw, pretty)
            + summary_row(x, iw, sw, lw, pretty),
{
    assert(items.push(x).drop_last() =~= items);
}

/// One more blocked issue adds one row after the rows before it.
pub proof fn law_blocked_rows_grow(items: Seq<BlockedV>, x: BlockedV, iw: usize, tw: usize, pretty: bool)
    ensures
        blocked_rows(items.push(x), iw, tw, pretty) == blocked_rows(items, iw, tw, pretty) + blocked_row(
            x,
            iw,
            tw,
            pretty,
        ),
{
    assert(items.push(x).drop_last() =~= items);
}

/// A plain row begins with the issue's id and ends with its title on the
/// rest of the line.
pub proof fn law_row_shows_id_and_title(x: SummaryV, iw: usize, sw: usize, lw: usize)
    ensures
        ({
            let row = summary_row(x, iw, sw, lw, false);
            let id = decimal(x.id as int);
            let tail = x.title + "\n"@;
            &&& row.len() >= id.len() + tail.len()
            &&& row.take(id.len() as int) == id
            &&& row.skip(row.len() - tail.len()) == tail
        }),
{
    let row = summary_row(x, iw, sw, lw, false);
    let id = decimal(x.id as int);
    let tail = x.title + "\n"@;
    let rest = "  "@ + (pad(x.status, sw as nat) + "  "@ + pad(labels_shown(x.labels), lw as nat)) + "  "@;
    let head = pad(id, iw as nat);
    assert(row =~= head + rest + tail);
    assert(head.take(id.len() as int) =~= id);
    assert(row.take(id.len() as int) =~= id);
    assert(row.skip(row.len() - tail.len()) =~= tail);
}

/// A listing of issues ends with how many there are; with none it says so.
pub proof fn law_listing_counts(items: Seq<SummaryV>, pretty: bool)
    ensures
        items.len() == 0 ==> list_out(items, pretty) == "No issues found.\n"@,
        items.len() > 0 ==> ({
            let tail = digits(items.len()) + " issue(s).\n"@;
            let out = list_out(items, pretty);
            out.len() >= tail.len() && out.skip(out.len() - tail.len()) == tail
        }),
{
    if items.len() > 0 {
        let tail = digits(items.len()) + " issue(s).\n"@;
        let out = list_out(items, pretty);
        let iw = widest(summary_id_widths(items), 2);
        let sw = widest(status_widths(items), 6);
        let lw = widest(label_widths(items), 6);
        let front = pad("ID"@, iw as nat) + "  "@ + pad("STATUS"@, sw as nat) + "  "@ + pad(
            "LABELS"@,
            lw as nat,
        ) + "  TITLE\n"@ + summary_rows(items, iw, sw, lw, pretty);
        assert(out =~= front + tail);
        assert(out.skip(out.len() - tail.len()) =~= tail);
    }
}

/// The blocked view ends with how many issues are blocked; with none it
/// says so.
pub proof fn law_blocked_counts(items: Seq<BlockedV>, pretty: bool)
    ensures
        items.len() == 0 ==> blocked_out(items, pretty) == "No blocked issues.\n"@,
        items.len() > 0 ==> ({
            let tail = digits(items.len()) + " blocked issue(s).\n"@;
            let out = blocked_out(items, pretty);
            out.len() >= tail.len() && out.skip(out.len() - tail.len()) == tail
        }),
{
    if items.len() > 0 {
        let tail = digits(items.len()) + " blocked issue(s).\n"@;
        let out = blocked_out(items, pretty);
        let iw = widest(blocked_id_widths(items), 2);
        let tw = widest(title_widths(items), 5);
        let bw = widest(blocker_widths(items), 10);
        let front = pad("ID"@, iw as nat) + "  "@ + pad("TITLE"@, tw as nat) + "  "@ + pad(
            "BLOCKED BY"@,
            bw as nat,
        ) + "\n"@ + blocked_rows(items, iw, tw, pretty);
        assert(out =~= front + tail);
        assert(out.skip(out.len() - tail.len()) =~= tail);
    }
}

} // verus!

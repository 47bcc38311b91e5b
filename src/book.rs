//! The whole book: messages in time order, cut into monthly chapters, each
//! chapter rendered, and the master document that includes them.
use vstd::prelude::*;
use crate::text::{chars_of, string_of, push_str_chars};
use crate::calendar_text::{chapter_name, month_title, push_month_name, push_padded, push_year};
use crate::chapter::{
    chronological_order, partition_months, is_month_partition, month_of, month_le, month_lt,
    concat_spans, lemma_chapters_ascend, lemma_partition_complete, MonthSpan,
};
use crate::message::Message;
use crate::render::{render_message, rendered_message};

verus! {

/// One chapter's file: its name without extension, and its markup.
#[derive(Debug)]
pub struct ChapterDocument {
    pub name: String,
    pub text: String,
}

/// The compiled book.
#[derive(Debug)]
pub struct Book {
    /// The positions of the input messages, in time order.
    pub order: Vec<usize>,
    /// The chapters, as runs of `order`.
    pub spans: Vec<MonthSpan>,
    /// The chapter documents, one per span.
    pub chapters: Vec<ChapterDocument>,
}

/// The month of each message, taken in `order`.
pub open spec fn ordered_months(msgs: Seq<Message>, order: Seq<usize>) -> Seq<(i32, u32)> {
    Seq::new(order.len(), |i: int| month_of(msgs[order[i] as int]))
}

/// The markup that opens the chapter of a month.
pub open spec fn chapter_heading(year: int, month: int) -> Seq<char> {
    "\\chapter{"@ + month_title(year, month) + "}\n\n"@
}

/// The markup of the messages at positions `i` to `j` (excluded) of `order`.
pub open spec fn rendered_run(msgs: Seq<Message>, order: Seq<usize>, i: int, j: int) -> Seq<char>
    decreases j - i,
{
    if j <= i {
        Seq::empty()
    } else {
        rendered_run(msgs, order, i, j - 1) + rendered_message(msgs[order[j - 1] as int])
    }
}

/// The markup of a chapter: its heading, then its messages in order.
pub open spec fn chapter_text(msgs: Seq<Message>, order: Seq<usize>, span: MonthSpan) -> Seq<char> {
    chapter_heading(span.year as int, span.month as int) + rendered_run(
        msgs,
        order,
        span.start as int,
        span.end as int,
    )
}

/// The lines of the master document that include the chapters, in order.
pub open spec fn include_lines(chapters: Seq<ChapterDocument>) -> Seq<char>
    decreases chapters.len(),
{
    if chapters.len() == 0 {
        Seq::empty()
    } else {
        include_lines(chapters.drop_last()) + "\\include{"@ + chapters.last().name@ + "}\n"@
    }
}

fn chapter_document(messages: &Vec<Message>, order: &Vec<usize>, span: MonthSpan) -> (r: ChapterDocument)
    requires
        span.start <= span.end <= order@.len(),
        forall|k: int| 0 <= k < order@.len() ==> #[trigger] order@[k] < messages@.len(),
    ensures
        r.name@ == chapter_name(span.year as int, span.month as int),
        r.text@ == chapter_text(messages@, order@, span),
{
    let mut name: Vec<char> = Vec::new();
    push_str_chars(&mut name, "ch-");
    push_year(&mut name, span.year);
    push_str_chars(&mut name, "-");
    push_padded(&mut name, span.month as u64, 2, '0');
    assert(name@ =~= chapter_name(span.year as int, span.month as int));
    let mut text: Vec<char> = Vec::new();
    push_str_chars(&mut text, "\\chapter{");
    push_month_name(&mut text, span.month);
    push_str_chars(&mut text, " ");
    push_year(&mut text, span.year);
    push_str_chars(&mut text, "}\n\n");
    assert(text@ =~= chapter_heading(span.year as int, span.month as int));
    let mut i: usize = span.start;
    while i < span.end
        invariant
            span.start <= i <= span.end <= order@.len(),
            forall|k: int| 0 <= k < order@.len() ==> #[trigger] order@[k] < messages@.len(),
            text@ == chapter_heading(span.year as int, span.month as int) + rendered_run(
                messages@,
                order@,
                span.start as int,
                i as int,
            ),
        decreases span.end - i,
    {
        let rendered = render_message(&messages[order[i]]);
        let mut piece = chars_of(rendered.as_str());
        text.append(&mut piece);
        i = i + 1;
        assert(text@ =~= chapter_heading(span.year as int, span.month as int) + rendered_run(
            messages@,
            order@,
            span.start as int,
            i as int,
        ));
    }
    ChapterDocument { name: string_of(&name), text: string_of(&text) }
}

/// Orders the messages in time, cuts them into one chapter per calendar
/// month, and renders each chapter.
pub fn compile_book(messages: &Vec<Message>) -> (r: Book)
    ensures
        r.order@.len() == messages@.len(),
        forall|k: int| 0 <= k < r.order@.len() ==> #[trigger] r.order@[k] < messages@.len(),
        forall|i: int, j: int|
            0 <= i < j < r.order@.len() ==> month_le(
                month_of(messages@[#[trigger] r.order@[i] as int]),
                month_of(messages@[#[trigger] r.order@[j] as int]),
            ),
        forall|i: int, j: int|
            0 <= i < j < r.order@.len() && month_of(messages@[r.order@[i] as int]) == month_of(
                messages@[r.order@[j] as int],
            ) ==> messages@[#[trigger] r.order@[i] as int].timestamp_ms
                <= messages@[#[trigger] r.order@[j] as int].timestamp_ms,
        forall|i: int, j: int|
            0 <= i < j < r.order@.len() && month_of(messages@[r.order@[i] as int]) == month_of(
                messages@[r.order@[j] as int],
            ) && messages@[r.order@[i] as int].timestamp_ms == messages@[r.order@[j] as int].timestamp_ms
                ==> #[trigger] r.order@[i] < #[trigger] r.order@[j],
        r.order@.no_duplicates(),
        is_month_partition(ordered_months(messages@, r.order@), r.spans@),
        concat_spans(r.order@, r.spans@) == r.order@,
        forall|k: int, l: int|
            0 <= k < l < r.spans@.len() ==> month_lt(
                #[trigger] r.spans@[k].key(),
                #[trigger] r.spans@[l].key(),
            ),
        r.chapters@.len() == r.spans@.len(),
        forall|k: int|
            0 <= k < r.spans@.len() ==> (#[trigger] r.chapters@[k]).name@ == chapter_name(
                r.spans@[k].year as int,
                r.spans@[k].month as int,
            ) && r.chapters@[k].text@ == chapter_text(messages@, r.order@, r.spans@[k]),
{
    let order = chronological_order(messages);
    let mut months: Vec<(i32, u32)> = Vec::new();
    let mut i: usize = 0;
    while i < order.len()
        invariant
            i <= order@.len(),
            order@.len() == messages@.len(),
            forall|k: int| 0 <= k < order@.len() ==> #[trigger] order@[k] < messages@.len(),
            months@.len() == i,
            forall|k: int| 0 <= k < i ==> #[trigger] months@[k] == month_of(messages@[order@[k] as int]),
        decreases order.len() - i,
    {
        let m = &messages[order[i]];
        months.push((m.date.year, m.date.month));
        i = i + 1;
    }
    assert(months@ =~= ordered_months(messages@, order@));
    let spans = partition_months(&months);
    proof {
        assert forall|a: int, b: int| 0 <= a < b < months@.len() implies month_le(
            #[trigger] months@[a],
            #[trigger] months@[b],
        ) by {
            assert(months@[a] == month_of(messages@[order@[a] as int]));
            assert(months@[b] == month_of(messages@[order@[b] as int]));
        }
        lemma_chapters_ascend(months@, spans@);
        lemma_partition_complete(months@, spans@, order@);
    }
    let mut chapters: Vec<ChapterDocument> = Vec::new();
    let mut k: usize = 0;
    while k < spans.len()
        invariant
            k <= spans@.len(),
            is_month_partition(months@, spans@),
            months@.len() == order@.len(),
            forall|t: int| 0 <= t < order@.len() ==> #[trigger] order@[t] < messages@.len(),
            chapters@.len() == k,
            forall|t: int|
                0 <= t < k ==> (#[trigger] chapters@[t]).name@ == chapter_name(
                    spans@[t].year as int,
                    spans@[t].month as int,
                ) && chapters@[t].text@ == chapter_text(messages@, order@, spans@[t]),
        decreases spans.len() - k,
    {
        let span = spans[k];
        assert(spans@[k as int].start < spans@[k as int].end <= months@.len());
        chapters.push(chapter_document(messages, &order, span));
        k = k + 1;
    }
    Book { order, spans, chapters }
}

/// The master document: the preamble, one inclusion per chapter in order,
/// and the end of the document.
pub fn master_document(preamble: &str, chapters: &Vec<ChapterDocument>) -> (r: String)
    ensures
        r@ == preamble@ + include_lines(chapters@) + "\\end{document}"@,
{
    let mut out = chars_of(preamble);
    let mut k: usize = 0;
    while k < chapters.len()
        invariant
            k <= chapters@.len(),
            out@ == preamble@ + include_lines(chapters@.take(k as int)),
        decreases chapters.len() - k,
    {
        push_str_chars(&mut out, "\\include{");
        let mut name = chars_of(chapters[k].name.as_str());
        out.append(&mut name);
        push_str_chars(&mut out, "}\n");
        assert(chapters@.take(k + 1).drop_last() =~= chapters@.take(k as int));
        k = k + 1;
        assert(out@ =~= preamble@ + include_lines(chapters@.take(k as int)));
    }
    assert(chapters@.take(chapters@.len() as int) =~= chapters@);
    push_str_chars(&mut out, "\\end{document}");
    string_of(&out)
}

} // verus!

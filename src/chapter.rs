//! Orders messages in time and cuts them into one chapter per calendar month.
use vstd::prelude::*;
use crate::message::Message;

verus! {

broadcast use vstd::seq_lib::group_to_multiset_ensures;

/// Where a message falls in the book: its month, its instant, its position in the input.
pub type SortKey = (i32, u32, i64, usize);

/// The order of sort keys: by year, then month, then instant, then position.
pub open spec fn key_le(a: SortKey, b: SortKey) -> bool {
    a.0 < b.0 || (a.0 == b.0 && (a.1 < b.1 || (a.1 == b.1 && (a.2 < b.2 || (a.2 == b.2
        && a.3 <= b.3)))))
}

/// The (year, month) that a message's chapter is keyed by.
pub open spec fn month_of(m: Message) -> (i32, u32) {
    (m.date.year, m.date.month)
}

/// `a` comes before `b`, or is `b`, in the calendar.
pub open spec fn month_le(a: (i32, u32), b: (i32, u32)) -> bool {
    a.0 < b.0 || (a.0 == b.0 && a.1 <= b.1)
}

/// `a` comes strictly before `b` in the calendar.
pub open spec fn month_lt(a: (i32, u32), b: (i32, u32)) -> bool {
    a.0 < b.0 || (a.0 == b.0 && a.1 < b.1)
}

/// Relies on `slice::sort`: afterwards the vector holds the same items, in
/// ascending order of tuples, which std compares field by field.
#[verifier::external_body]
fn sort_keys(v: &mut Vec<SortKey>)
    ensures
        final(v)@.to_multiset() == old(v)@.to_multiset(),
        forall|i: int, j: int|
            0 <= i < j < final(v)@.len() ==> key_le(#[trigger] final(v)@[i], #[trigger] final(v)@[j]),
{
    v.sort();
}

/// The positions of `messages` in time order: by month, then by instant, with
/// ties kept in input order.
pub fn chronological_order(messages: &Vec<Message>) -> (r: Vec<usize>)
    ensures
        r@.len() == messages@.len(),
        forall|k: int| 0 <= k < r@.len() ==> #[trigger] r@[k] < messages@.len(),
        forall|i: int, j: int|
            0 <= i < j < r@.len() ==> month_le(
                month_of(messages@[#[trigger] r@[i] as int]),
                month_of(messages@[#[trigger] r@[j] as int]),
            ),
        forall|i: int, j: int|
            0 <= i < j < r@.len() && month_of(messages@[r@[i] as int]) == month_of(
                messages@[r@[j] as int],
            ) ==> messages@[#[trigger] r@[i] as int].timestamp_ms <= messages@[#[trigger] r@[j] as int].timestamp_ms,
        forall|i: int, j: int|
            0 <= i < j < r@.len() && month_of(messages@[r@[i] as int]) == month_of(
                messages@[r@[j] as int],
            ) && messages@[r@[i] as int].timestamp_ms == messages@[r@[j] as int].timestamp_ms
                ==> #[trigger] r@[i] < #[trigger] r@[j],
        r@.no_duplicates(),
{
    let mut keys: Vec<SortKey> = Vec::new();
    let mut i: usize = 0;
    while i < messages.len()
        invariant
            i <= messages@.len(),
            keys@.len() == i,
            forall|j: int| 0 <= j < i ==> #[trigger] keys@[j] == (messages@[j].date.year, messages@[j].date.month, messages@[j].timestamp_ms, j as usize),
        decreases messages.len() - i,
    {
        let m = &messages[i];
        keys.push((m.date.year, m.date.month, m.timestamp_ms, i));
        i = i + 1;
    }
    let ghost before = keys@;
    proof {
        assert forall|a: int, b: int| 0 <= a < before.len() && 0 <= b < before.len() && a != b
            implies before[a] != before[b] by {
            assert(before[a].3 == a as usize);
            assert(before[b].3 == b as usize);
        }
        before.lemma_multiset_has_no_duplicates();
    }
    sort_keys(&mut keys);
    proof {
        assert forall|x: SortKey| keys@.to_multiset().contains(x) implies keys@.to_multiset().count(x) == 1 by {
            assert(before.to_multiset().contains(x));
        }
        keys@.lemma_multiset_has_no_duplicates_conv();
    }
    assert(keys@.len() == before.len()) by {
        assert(keys@.to_multiset().len() == keys@.len());
        assert(before.to_multiset().len() == before.len());
    }
    assert forall|k: int| 0 <= k < keys@.len() implies #[trigger] keys@[k] == (
        messages@[keys@[k].3 as int].date.year,
        messages@[keys@[k].3 as int].date.month,
        messages@[keys@[k].3 as int].timestamp_ms,
        keys@[k].3,
    ) && keys@[k].3 < messages@.len() by {
        assert(keys@.contains(keys@[k]));
        assert(before.to_multiset().count(keys@[k]) > 0);
        assert(before.contains(keys@[k]));
        let j = choose|j: int| 0 <= j < before.len() && before[j] == keys@[k];
        assert(before[j] == keys@[k]);
    }
    let mut r: Vec<usize> = Vec::new();
    let mut k: usize = 0;
    while k < keys.len()
        invariant
            k <= keys@.len(),
            r@.len() == k,
            forall|t: int| 0 <= t < k ==> #[trigger] r@[t] == keys@[t].3,
        decreases keys.len() - k,
    {
        r.push(keys[k].3);
        k = k + 1;
    }
    assert forall|i: int, j: int| 0 <= i < j < r@.len() implies month_le(
        month_of(messages@[#[trigger] r@[i] as int]),
        month_of(messages@[#[trigger] r@[j] as int]),
    ) by {
        assert(key_le(keys@[i], keys@[j]));
    }
    assert forall|i: int, j: int|
        0 <= i < j < r@.len() && month_of(messages@[r@[i] as int]) == month_of(
            messages@[r@[j] as int],
        ) implies messages@[#[trigger] r@[i] as int].timestamp_ms <= messages@[#[trigger] r@[j] as int].timestamp_ms by {
        assert(key_le(keys@[i], keys@[j]));
    }
    assert forall|i: int, j: int| 0 <= i < r@.len() && 0 <= j < r@.len() && i != j implies r@[i] != r@[j] by {
        assert(keys@[i] != keys@[j]);
    }
    assert forall|i: int, j: int|
        0 <= i < j < r@.len() && month_of(messages@[r@[i] as int]) == month_of(
            messages@[r@[j] as int],
        ) && messages@[r@[i] as int].timestamp_ms == messages@[r@[j] as int].timestamp_ms
            implies #[trigger] r@[i] < #[trigger] r@[j] by {
        assert(keys@[i] != keys@[j]);
        assert(key_le(keys@[i], keys@[j]));
    }
    r
}

/// A run of consecutive positions that share one calendar month: a chapter.
#[derive(Clone, Copy, Debug, PartialEq, Eq, Structural)]
pub struct MonthSpan {
    pub year: i32,
    pub month: u32,
    /// The first position of the run.
    pub start: usize,
    /// One past the last position of the run.
    pub end: usize,
}

impl MonthSpan {
    pub open spec fn key(self) -> (i32, u32) {
        (self.year, self.month)
    }
}

/// `spans` cut `keys.take(n)` into runs of equal months, in order, each run
/// as long as it can be: a new run opens exactly where the month changes.
pub open spec fn is_month_partition_upto(keys: Seq<(i32, u32)>, spans: Seq<MonthSpan>, n: int) -> bool {
    &&& (n == 0 <==> spans.len() == 0)
    &&& spans.len() > 0 ==> spans[0].start == 0 && spans.last().end == n
    &&& forall|k: int| 0 <= k < spans.len() ==> #[trigger] spans[k].start < spans[k].end <= n
    &&& forall|k: int| 0 <= k < spans.len() - 1 ==> #[trigger] spans[k].end == spans[k + 1].start
    &&& forall|k: int, i: int|
        0 <= k < spans.len() && spans[k].start <= i < spans[k].end ==> #[trigger] keys[i]
            == (#[trigger] spans[k]).key()
    &&& forall|k: int| 0 <= k < spans.len() - 1 ==> #[trigger] spans[k].key() != spans[k + 1].key()
}

/// `spans` cut all of `keys` into its maximal runs of equal months.
pub open spec fn is_month_partition(keys: Seq<(i32, u32)>, spans: Seq<MonthSpan>) -> bool {
    is_month_partition_upto(keys, spans, keys.len() as int)
}

/// The maximal runs of equal months in `keys`, in order.
pub fn partition_months(keys: &Vec<(i32, u32)>) -> (r: Vec<MonthSpan>)
    ensures
        is_month_partition(keys@, r@),
{
    let mut spans: Vec<MonthSpan> = Vec::new();
    let mut i: usize = 0;
    while i < keys.len()
        invariant
            i <= keys@.len(),
            is_month_partition_upto(keys@, spans@, i as int),
        decreases keys.len() - i,
    {
        let key = keys[i];
        let n = spans.len();
        if n == 0 || spans[n - 1].year != key.0 || spans[n - 1].month != key.1 {
            spans.push(MonthSpan { year: key.0, month: key.1, start: i, end: i + 1 });
        } else {
            let mut last = spans[n - 1];
            last.end = i + 1;
            spans.set(n - 1, last);
        }
        i = i + 1;
    }
    spans
}

/// The items of `s` that the spans cover, span after span.
pub open spec fn concat_spans<T>(s: Seq<T>, spans: Seq<MonthSpan>) -> Seq<T>
    decreases spans.len(),
{
    if spans.len() == 0 {
        Seq::empty()
    } else {
        concat_spans(s, spans.drop_last()) + s.subrange(
            spans.last().start as int,
            spans.last().end as int,
        )
    }
}

proof fn lemma_concat_prefix<T>(keys: Seq<(i32, u32)>, spans: Seq<MonthSpan>, s: Seq<T>, m: int)
    requires
        is_month_partition(keys, spans),
        s.len() == keys.len(),
        0 < m <= spans.len(),
    ensures
        concat_spans(s, spans.take(m)) == s.take(spans[m - 1].end as int),
    decreases m,
{
    let t = spans.take(m);
    assert(t.drop_last() =~= spans.take(m - 1));
    if m == 1 {
        assert(spans.take(0).len() == 0);
        assert(concat_spans(s, spans.take(0)) == Seq::<T>::empty());
        assert(spans[0].start == 0);
        assert(concat_spans(s, t) =~= s.take(spans[0].end as int));
    } else {
        lemma_concat_prefix(keys, spans, s, m - 1);
        assert(spans[m - 2].end == spans[m - 1].start);
        assert(spans[m - 1].end <= keys.len());
        assert(concat_spans(s, t) =~= s.take(spans[m - 1].end as int));
    }
}

/// Every position lies in exactly one chapter, and the chapters, read in
/// order, give back the whole sequence.
pub proof fn lemma_partition_complete<T>(keys: Seq<(i32, u32)>, spans: Seq<MonthSpan>, s: Seq<T>)
    requires
        is_month_partition(keys, spans),
        s.len() == keys.len(),
    ensures
        concat_spans(s, spans) == s,
{
    if spans.len() == 0 {
        assert(s =~= Seq::<T>::empty());
    } else {
        lemma_concat_prefix(keys, spans, s, spans.len() as int);
        assert(spans.take(spans.len() as int) =~= spans);
        assert(s.take(s.len() as int) =~= s);
    }
}

proof fn lemma_starts_increase(keys: Seq<(i32, u32)>, spans: Seq<MonthSpan>, a: int, b: int)
    requires
        is_month_partition(keys, spans),
        0 <= a < b < spans.len(),
    ensures
        spans[a].end <= spans[b].start,
    decreases b - a,
{
    assert(spans[a].end == spans[a + 1].start);
    if b > a + 1 {
        lemma_starts_increase(keys, spans, a + 1, b);
    }
}

/// Over months in calendar order, the chapters come in strictly increasing
/// calendar order: no month opens two chapters.
pub proof fn lemma_chapters_ascend(keys: Seq<(i32, u32)>, spans: Seq<MonthSpan>)
    requires
        is_month_partition(keys, spans),
        forall|i: int, j: int| 0 <= i < j < keys.len() ==> month_le(#[trigger] keys[i], #[trigger] keys[j]),
    ensures
        forall|k: int, l: int| 0 <= k < l < spans.len() ==> month_lt(#[trigger] spans[k].key(), #[trigger] spans[l].key()),
{
    assert forall|k: int, l: int| 0 <= k < l < spans.len() implies month_lt(
        #[trigger] spans[k].key(),
        #[trigger] spans[l].key(),
    ) by {
        let sk = spans[k].start as int;
        let sk1 = spans[k + 1].start as int;
        let sl = spans[l].start as int;
        assert(keys[sk] == spans[k].key());
        assert(keys[sk1] == spans[k + 1].key());
        assert(keys[sl] == spans[l].key());
        assert(spans[k].end == spans[k + 1].start);
        assert(month_le(keys[sk], keys[sk1]));
        if l > k + 1 {
            lemma_starts_increase(keys, spans, k + 1, l);
            assert(spans[k + 1].start < spans[k + 1].end);
            assert(month_le(keys[sk1], keys[sl]));
        }
    }
}

} // verus!

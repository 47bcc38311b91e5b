//! The canonical message, and its construction from the two kinds of source record.
use vstd::prelude::*;
use chrono::Datelike;
use crate::text::chars_of;

verus! {

/// A calendar date in UTC.
#[derive(Clone, Copy, Debug, PartialEq, Eq, Structural)]
pub struct CivilDate {
    pub year: i32,
    pub month: u32,
    pub day: u32,
}

/// One message of the conversation, as the rest of the pipeline sees it.
#[derive(Debug)]
pub struct Message {
    pub sender_is_self: bool,
    /// Milliseconds since the Unix epoch.
    pub timestamp_ms: i64,
    /// The UTC calendar date of `timestamp_ms`.
    pub date: CivilDate,
    pub body: Option<String>,
    pub attachment_count: u32,
}

/// Why a source record cannot become a message.
#[derive(Clone, Copy, Debug, PartialEq, Eq, Structural)]
pub enum NormalizeError {
    /// The record has no timestamp.
    MissingTimestamp,
    /// The timestamp lies outside the calendar's range.
    TimestampOutOfRange,
    /// The record counts fewer than zero attachments.
    NegativeAttachmentCount,
}

/// A message as a conversation export holds it.
#[derive(Debug)]
pub struct ExportRecord {
    pub sender_name: Option<String>,
    pub timestamp_ms: Option<i64>,
    pub content: Option<String>,
}

/// A message as a message database holds it, its body already resolved.
#[derive(Debug)]
pub struct DatabaseRecord {
    pub is_from_me: bool,
    pub timestamp_ms: Option<i64>,
    pub text: Option<String>,
    pub num_attachments: i32,
}

/// The UTC (year, month, day) of an instant in milliseconds since the Unix
/// epoch, or `None` where the calendar cannot represent it.
pub uninterp spec fn utc_calendar_date(ms: int) -> Option<(i32, u32, u32)>;

/// Relies on chrono's `DateTime::from_timestamp_millis` (`None` out of range)
/// and on `Datelike::{year, month, day}` of the result (months 1 to 12, days 1 to 31).
#[verifier::external_body]
fn utc_date_of_millis(ms: i64) -> (r: Option<(i32, u32, u32)>)
    ensures
        r == utc_calendar_date(ms as int),
        r matches Some(d) ==> 1 <= d.1 <= 12 && 1 <= d.2 <= 31,
{
    match chrono::DateTime::from_timestamp_millis(ms) {
        Some(t) => Some((t.year(), t.month(), t.day())),
        None => None,
    }
}

impl CivilDate {
    pub open spec fn valid(self) -> bool {
        1 <= self.month <= 12 && 1 <= self.day <= 31
    }
}

impl Message {
    /// The date is the UTC date of the timestamp.
    pub open spec fn well_formed(&self) -> bool {
        &&& self.date.valid()
        &&& utc_calendar_date(self.timestamp_ms as int) == Some(
            (self.date.year, self.date.month, self.date.day),
        )
    }
}

/// The message made of these values, or why there is none.
pub open spec fn message_outcome(
    sender_is_self: bool,
    timestamp_ms: Option<i64>,
    body: Option<String>,
    attachment_count: u32,
) -> Result<Message, NormalizeError> {
    match timestamp_ms {
        None => Err(NormalizeError::MissingTimestamp),
        Some(ms) => match utc_calendar_date(ms as int) {
            None => Err(NormalizeError::TimestampOutOfRange),
            Some(d) => Ok(
                Message {
                    sender_is_self,
                    timestamp_ms: ms,
                    date: CivilDate { year: d.0, month: d.1, day: d.2 },
                    body,
                    attachment_count,
                },
            ),
        },
    }
}

pub open spec fn text_or_empty(o: Option<String>) -> Seq<char> {
    match o {
        Some(s) => s@,
        None => Seq::empty(),
    }
}

/// What an export record becomes: its sender is this side when the sender's
/// name (empty when absent) equals `self_name`; it counts no attachments.
pub open spec fn export_outcome(rec: ExportRecord, self_name: Seq<char>) -> Result<
    Message,
    NormalizeError,
> {
    message_outcome(
        text_or_empty(rec.sender_name) == self_name,
        rec.timestamp_ms,
        rec.content,
        0,
    )
}

/// What a database record becomes.
pub open spec fn database_outcome(rec: DatabaseRecord) -> Result<Message, NormalizeError> {
    if rec.timestamp_ms is Some && rec.num_attachments < 0 {
        match message_outcome(rec.is_from_me, rec.timestamp_ms, rec.text, 0) {
            Ok(_) => Err(NormalizeError::NegativeAttachmentCount),
            Err(e) => Err(e),
        }
    } else {
        message_outcome(rec.is_from_me, rec.timestamp_ms, rec.text, rec.num_attachments as u32)
    }
}

fn clone_text(o: &Option<String>) -> (r: Option<String>)
    ensures
        r == *o,
{
    match o {
        Some(s) => Some(s.clone()),
        None => None,
    }
}

/// Whether `a` and `b` hold the same characters.
pub fn same_text(a: &str, b: &str) -> (r: bool)
    ensures
        r == (a@ == b@),
{
    let x = chars_of(a);
    let y = chars_of(b);
    if x.len() != y.len() {
        return false;
    }
    let mut i: usize = 0;
    while i < x.len()
        invariant
            i <= x@.len(),
            x@.len() == y@.len(),
            x@ == a@,
            y@ == b@,
            forall|j: int| 0 <= j < i ==> x@[j] == y@[j],
        decreases x.len() - i,
    {
        if x[i] != y[i] {
            return false;
        }
        i = i + 1;
    }
    assert(x@ =~= y@);
    true
}

impl Message {
    /// The message with these values, its date computed from the timestamp;
    /// an error where the calendar cannot represent the timestamp.
    pub fn new(sender_is_self: bool, timestamp_ms: i64, body: Option<String>, attachment_count: u32) -> (r: Result<Message, NormalizeError>)
        ensures
            r == message_outcome(sender_is_self, Some(timestamp_ms), body, attachment_count),
            r matches Ok(m) ==> m.well_formed(),
    {
        match utc_date_of_millis(timestamp_ms) {
            None => Err(NormalizeError::TimestampOutOfRange),
            Some(d) => Ok(
                Message {
                    sender_is_self,
                    timestamp_ms,
                    date: CivilDate { year: d.0, month: d.1, day: d.2 },
                    body,
                    attachment_count,
                },
            ),
        }
    }
}

/// The message of an export record; a record without a timestamp is refused.
pub fn normalize_export_record(rec: &ExportRecord, self_name: &str) -> (r: Result<Message, NormalizeError>)
    ensures
        r == export_outcome(*rec, self_name@),
        r matches Ok(m) ==> m.well_formed(),
{
    match rec.timestamp_ms {
        None => Err(NormalizeError::MissingTimestamp),
        Some(ms) => {
            let is_self = match &rec.sender_name {
                Some(name) => same_text(name.as_str(), self_name),
                None => {
                    proof {
                        reveal_strlit("");
                        assert(""@ =~= Seq::<char>::empty());
                    }
                    same_text("", self_name)
                },
            };
            Message::new(is_self, ms, clone_text(&rec.content), 0)
        },
    }
}

/// The message of a database record; a record without a timestamp, or with a
/// negative attachment count, is refused.
pub fn normalize_database_record(rec: &DatabaseRecord) -> (r: Result<Message, NormalizeError>)
    ensures
        r == database_outcome(*rec),
        r matches Ok(m) ==> m.well_formed(),
{
    match rec.timestamp_ms {
        None => Err(NormalizeError::MissingTimestamp),
        Some(ms) => {
            let m = Message::new(rec.is_from_me, ms, clone_text(&rec.text), 0);
            if rec.num_attachments < 0 {
                match m {
                    Ok(_) => Err(NormalizeError::NegativeAttachmentCount),
                    Err(e) => Err(e),
                }
            } else {
                Message::new(rec.is_from_me, ms, clone_text(&rec.text), rec.num_attachments as u32)
            }
        },
    }
}

/// The messages of a whole export, in its order; the first record that cannot
/// be normalized stops the run with its error.
pub fn normalize_export_records(records: &Vec<ExportRecord>, self_name: &str) -> (r: Result<Vec<Message>, NormalizeError>)
    ensures
        r is Ok <==> forall|i: int| 0 <= i < records@.len() ==> export_outcome(#[trigger] records@[i], self_name@) is Ok,
        r matches Ok(v) ==> v@.len() == records@.len() && forall|i: int| 0 <= i < records@.len() ==> export_outcome(#[trigger] records@[i], self_name@) == Ok::<Message, NormalizeError>(v@[i]),
        r matches Err(e) ==> exists|k: int| 0 <= k < records@.len() && export_outcome(#[trigger] records@[k], self_name@) == Err::<Message, NormalizeError>(e) && forall|j: int| 0 <= j < k ==> export_outcome(#[trigger] records@[j], self_name@) is Ok,
{
    let mut out: Vec<Message> = Vec::new();
    let mut i: usize = 0;
    while i < records.len()
        invariant
            i <= records@.len(),
            out@.len() == i,
            forall|j: int| 0 <= j < i ==> export_outcome(#[trigger] records@[j], self_name@) == Ok::<Message, NormalizeError>(out@[j]),
        decreases records.len() - i,
    {
        match normalize_export_record(&records[i], self_name) {
            Ok(m) => out.push(m),
            Err(e) => {
                assert(export_outcome(records@[i as int], self_name@) == Err::<Message, NormalizeError>(e));
                return Err(e);
            },
        }
        i = i + 1;
    }
    Ok(out)
}

} // verus!

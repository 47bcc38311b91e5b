//! The markup of one message, of a chapter and of the master document.
use vstd::prelude::*;
use crate::text::{chars_of, string_of, push_str_chars};
use crate::calendar_text::{
    decimal, long_date, push_decimal, push_month_name, push_padded, push_year,
};
use crate::message::Message;
use crate::sanitize::{sanitize, sanitized};

verus! {

/// The boxed badge that counts a message's attachments, as in `\fbox{2 Attachments}`.
pub open spec fn attachment_badge(n: nat) -> Seq<char> {
    "\\fbox{"@ + decimal(n) + " Attachment"@ + (if n == 1 {
        Seq::empty()
    } else {
        "s"@
    }) + "}"@
}

/// What a speech block holds: the sanitized body, then, if there are
/// attachments, the badge, set apart from a non-empty body by a space.
pub open spec fn speech_content(body: Seq<char>, attachment_count: nat) -> Seq<char> {
    if attachment_count > 0 {
        body + (if body.len() > 0 {
            "\\enskip"@
        } else {
            Seq::empty()
        }) + attachment_badge(attachment_count)
    } else {
        body
    }
}

/// The markup of a message whose body, once sanitized, is `body`: the running
/// date header, then the speech block aligned by sender.
pub open spec fn rendered_with(m: Message, body: Seq<char>) -> Seq<char> {
    "\\markright{"@ + long_date(m.date) + "}\n"@ + (if m.sender_is_self {
        "\\leftmsg{"@
    } else {
        "\\rightmsg{"@
    }) + speech_content(body, m.attachment_count as nat) + "}\n\n"@
}

/// The sanitized body of a message, empty when it has none.
pub open spec fn sanitized_body(m: Message) -> Seq<char> {
    match m.body {
        Some(b) => sanitized(b@),
        None => Seq::empty(),
    }
}

/// The markup of a message.
pub open spec fn rendered_message(m: Message) -> Seq<char> {
    rendered_with(m, sanitized_body(m))
}

/// Appends the date as in `November 15, 2020`.
fn push_long_date(out: &mut Vec<char>, m: &Message)
    ensures
        final(out)@ == old(out)@ + long_date(m.date),
{
    let ghost start = out@;
    push_month_name(out, m.date.month);
    push_str_chars(out, " ");
    push_padded(out, m.date.day as u64, 2, ' ');
    push_str_chars(out, ", ");
    push_year(out, m.date.year);
    assert(out@ =~= start + long_date(m.date));
}

/// The markup of `msg` with `body` standing for its sanitized text.
pub fn render_message_with_body(msg: &Message, body: &str) -> (r: String)
    ensures
        r@ == rendered_with(*msg, body@),
{
    let mut out: Vec<char> = Vec::new();
    push_str_chars(&mut out, "\\markright{");
    push_long_date(&mut out, msg);
    push_str_chars(&mut out, "}\n");
    if msg.sender_is_self {
        push_str_chars(&mut out, "\\leftmsg{");
    } else {
        push_str_chars(&mut out, "\\rightmsg{");
    }
    let ghost before_content = out@;
    let body_chars = chars_of(body);
    let mut content = body_chars;
    if msg.attachment_count > 0 {
        if content.len() > 0 {
            push_str_chars(&mut content, "\\enskip");
        }
        push_str_chars(&mut content, "\\fbox{");
        push_decimal(&mut content, msg.attachment_count as u64);
        push_str_chars(&mut content, " Attachment");
        if msg.attachment_count != 1 {
            push_str_chars(&mut content, "s");
        }
        push_str_chars(&mut content, "}");
        proof {
            reveal_strlit("");
        }
    }
    assert(content@ =~= speech_content(body@, msg.attachment_count as nat));
    out.append(&mut content);
    push_str_chars(&mut out, "}\n\n");
    assert(out@ =~= rendered_with(*msg, body@));
    string_of(&out)
}

/// The markup of a message: its date as a running header, and its sanitized
/// body with its attachment badge in a block aligned by sender.
pub fn render_message(msg: &Message) -> (r: String)
    ensures
        r@ == rendered_message(*msg),
{
    match &msg.body {
        Some(b) => {
            let body = sanitize(b.as_str());
            render_message_with_body(msg, body.as_str())
        },
        None => {
            proof {
                reveal_strlit("");
                assert(""@ =~= Seq::<char>::empty());
            }
            render_message_with_body(msg, "")
        },
    }
}

} // verus!

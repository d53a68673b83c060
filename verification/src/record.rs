//! Building one archive record: the resolved metadata of a message and the
//! exact text appended to the account's archive file.

use vstd::prelude::*;

use crate::enrich::MetaPlan;
use crate::enrich::NamePlan;

verus! {

/// The resolved metadata of one message.
#[derive(Debug, Clone)]
pub struct MessageMeta {
    /// The sender or channel label, when one could be resolved.
    pub channel_name: Option<String>,
    /// The message's permalink, when one could be resolved.
    pub message_link: Option<String>,
    /// The message's timestamp, already formatted.
    pub date_text: String,
}

/// The text that a message timestamp formats to.
pub uninterp spec fn timestamp_text_of(secs: int) -> Seq<char>;

/// Relies on chrono's `DateTime::from_timestamp` and the `%Y-%m-%d %H:%M:%S`
/// format: the text is a function of the seconds value alone, and the value
/// is accepted at least for every timestamp from 1970 up to the end of 2099.
#[verifier::external_body]
pub(crate) fn format_timestamp(secs: i64) -> (r: Option<String>)
    ensures
        r matches Some(t) ==> t@ == timestamp_text_of(secs as int),
        0 <= secs <= 4102444799 ==> r is Some,
{
    chrono::DateTime::from_timestamp(secs, 0).map(
        |dt| dt.naive_utc().format("%Y-%m-%d %H:%M:%S").to_string(),
    )
}

/// Resolve a message's metadata from its plan, the lookup answers the shell
/// handed back, and the message timestamp.
///
/// `None` comes only from a timestamp that the calendar cannot hold; any
/// timestamp between 1970 and the end of 2099 is accepted.  A failed name or
/// link lookup is not an error: the field is simply left out.
pub fn build_meta(
    plan: &MetaPlan,
    name_lookup: Option<String>,
    link_lookup: Option<String>,
    date_secs: i64,
) -> (r: Option<MessageMeta>)
    ensures
        0 <= date_secs <= 4102444799 ==> r is Some,
        r matches Some(m) ==> {
            &&& m.date_text@ == timestamp_text_of(date_secs as int)
            &&& m.message_link == link_lookup
            &&& (plan.name is SavedMessages ==> (m.channel_name matches Some(n) && n@
                == "SavedMessages"@))
            &&& (plan.name matches NamePlan::Literal { name } ==> m.channel_name == Some(name))
            &&& (plan.name is LookupChat ==> m.channel_name == name_lookup)
            &&& (plan.name is LookupUser ==> m.channel_name == name_lookup)
        },
{
    match format_timestamp(date_secs) {
        None => None,
        Some(date_text) => {
            let channel_name = crate::enrich::resolve_name(&plan.name, name_lookup);
            Some(MessageMeta { channel_name, message_link: link_lookup, date_text })
        },
    }
}

/// The full text of one archive record.
///
/// The record opens with a date header — the date alone, or the date linked
/// to the message's permalink — then the rendered body, then a delimiter
/// line; a resolved sender or channel label is prefixed above it all.
pub open spec fn record_text(body: Seq<char>, meta: MessageMeta) -> Seq<char> {
    let dated = match meta.message_link {
        Some(link) => "\n**Date:** ["@ + meta.date_text@ + "]("@ + link@ + ")\n\n"@ + body
            + "\n\n---\n\n"@,
        None => "\n**Date:** "@ + meta.date_text@ + "\n\n"@ + body + "\n\n---\n\n"@,
    };
    match meta.channel_name {
        Some(name) => "**From:** "@ + name@ + "\n\n"@ + dated,
        None => dated,
    }
}

/// Compose the record appended to the archive for one message.
pub fn compose_record(body: &str, meta: &MessageMeta) -> (r: String)
    ensures
        r@ == record_text(body@, *meta),
{
    let mut r = String::new();
    match &meta.channel_name {
        Some(name) => {
            r.append("**From:** ");
            r.append(name.as_str());
            r.append("\n\n");
        },
        None => {},
    }
    match &meta.message_link {
        Some(link) => {
            r.append("\n**Date:** [");
            r.append(meta.date_text.as_str());
            r.append("](");
            r.append(link.as_str());
            r.append(")\n\n");
            r.append(body);
            r.append("\n\n---\n\n");
        },
        None => {
            r.append("\n**Date:** ");
            r.append(meta.date_text.as_str());
            r.append("\n\n");
            r.append(body);
            r.append("\n\n---\n\n");
        },
    }
    proof {
        assert(r@ =~= record_text(body@, *meta));
    }
    r
}

} // verus!

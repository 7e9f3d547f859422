//! The event normalizer: maps raw protocol events to canonical log records,
//! filtering ignored senders and trivial messages and case-folding
//! identifiers.

use vstd::prelude::*;

use crate::config::{contains_name, vec_contains};
use crate::log::{Log, LogType};

verus! {

/// The two moderation actions that produce a record.
#[derive(Clone, Copy, Debug, PartialEq, Eq, Structural)]
pub enum ModerationKind {
    Ban,
    Timeout,
}

/// A typed event as delivered by the chat protocol adapter.
pub enum Event {
    ChatMessage { sender_id: String, sender: String, channel: String, text: String },
    ModerationAction { kind: ModerationKind, target_id: String, target: String, channel: String },
    ReconnectRequested,
    HeartbeatProbe,
    Other,
}

/// What a lowercased string holds. The result is a function of the input
/// characters alone.
pub uninterp spec fn lower_of(s: Seq<char>) -> Seq<char>;

/// Relies on str::to_lowercase: the lowercased text depends on the input
/// characters alone.
#[verifier::external_body]
pub(crate) fn lowercase(s: &str) -> (r: String)
    ensures
        r@ == lower_of(s@),
{
    s.to_lowercase()
}

/// A channel name with the protocol's leading `#` removed, when present.
pub open spec fn spec_strip_prefix(s: Seq<char>) -> Seq<char> {
    if s.len() > 0 && s[0] == '#' {
        s.skip(1)
    } else {
        s
    }
}

/// Strips the protocol prefix from a channel name.
pub fn strip_channel_prefix(s: &str) -> (r: &str)
    ensures
        r@ == spec_strip_prefix(s@),
{
    let n = s.unicode_len();
    if n > 0 && s.get_char(0) == '#' {
        let r = s.substring_char(1, n);
        proof {
            assert(r@ =~= s@.skip(1));
        }
        r
    } else {
        s
    }
}

/// Whether an event yields a record: chat messages do unless the sender is
/// ignored or the text is trivial (length at most one); moderation actions
/// always do; every other variant is dropped.
pub open spec fn produces_record(event: Event, ignored: Seq<String>) -> bool {
    match event {
        Event::ChatMessage { sender, text, .. } => !contains_name(ignored, sender@) && text@.len()
            > 1,
        Event::ModerationAction { .. } => true,
        _ => false,
    }
}

/// The record an event normalizes to: identifiers case-folded and the
/// channel prefix stripped, chat records carrying the text, moderation
/// records keyed by the target user and carrying no text.
pub open spec fn record_matches(log: Log, event: Event, id: u128, now: i64) -> bool {
    &&& log.id == id
    &&& log.created_at == Some(now)
    &&& log.wf()
    &&& match event {
        Event::ChatMessage { sender_id, sender, channel, text } => {
            &&& log.log_type == LogType::Chat
            &&& log.user_id matches Some(u) && u@ == sender_id@
            &&& log.username@ == lower_of(sender@)
            &&& log.channel@ == lower_of(spec_strip_prefix(channel@))
            &&& log.content matches Some(c) && c@ == text@
        },
        Event::ModerationAction { target_id, target, channel, .. } => {
            &&& log.log_type == LogType::Ban
            &&& log.user_id matches Some(u) && u@ == target_id@
            &&& log.username@ == lower_of(target@)
            &&& log.channel@ == lower_of(spec_strip_prefix(channel@))
            &&& log.content is None
        },
        _ => false,
    }
}

/// Normalizes one raw event. Returns a record exactly for qualifying chat
/// messages and for moderation actions; the record carries the given fresh
/// id and timestamp.
pub fn normalize(event: &Event, ignored: &Vec<String>, id: u128, now: i64) -> (r: Option<Log>)
    ensures
        r is Some <==> produces_record(*event, ignored@),
        r matches Some(log) ==> record_matches(log, *event, id, now),
{
    match event {
        Event::ChatMessage { sender_id, sender, channel, text } => {
            if vec_contains(ignored, sender) {
                None
            } else if text.as_str().unicode_len() <= 1 {
                None
            } else {
                Some(
                    Log {
                        id,
                        user_id: Some(sender_id.clone()),
                        username: lowercase(sender.as_str()),
                        channel: lowercase(strip_channel_prefix(channel.as_str())),
                        content: Some(text.clone()),
                        log_type: LogType::Chat,
                        created_at: Some(now),
                    },
                )
            }
        },
        Event::ModerationAction { target_id, target, channel, .. } => {
            Some(
                Log {
                    id,
                    user_id: Some(target_id.clone()),
                    username: lowercase(target.as_str()),
                    channel: lowercase(strip_channel_prefix(channel.as_str())),
                    content: None,
                    log_type: LogType::Ban,
                    created_at: Some(now),
                },
            )
        },
        _ => None,
    }
}

} // verus!

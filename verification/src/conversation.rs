//! Conversation state: an append-only message log with metadata, a
//! bounded-size truncation operation, and the lemmas that relate a run
//! of appends or truncations to the resulting log.

use vstd::prelude::*;
use crate::text::{chars_to_string, emit_u64, str_to_chars, u64_digits, eq_lowered, lower_seq};

verus! {

/// Role of a message sender.
#[derive(Clone, Copy, PartialEq, Eq, Structural, Debug)]
pub enum MessageRole {
    /// User message
    User,
    /// Assistant (LLM) message
    Assistant,
}

/// The canonical textual name of a role.
pub open spec fn role_str(r: MessageRole) -> Seq<char> {
    match r {
        MessageRole::User => "user"@,
        MessageRole::Assistant => "assistant"@,
    }
}

/// The role denoted by a string, compared ASCII-case-insensitively.
pub open spec fn spec_role_from_str(s: Seq<char>) -> Option<MessageRole> {
    if lower_seq(s) == "user"@ {
        Some(MessageRole::User)
    } else if lower_seq(s) == "assistant"@ {
        Some(MessageRole::Assistant)
    } else {
        None
    }
}

impl MessageRole {
    /// Convert to string representation.
    pub fn as_str(&self) -> (r: &'static str)
        ensures
            r@ == role_str(*self),
    {
        match self {
            MessageRole::User => "user",
            MessageRole::Assistant => "assistant",
        }
    }

    /// Convert from string representation (ASCII case-insensitive).
    pub fn from_str(s: &str) -> (r: Option<Self>)
        ensures
            r == spec_role_from_str(s@),
    {
        if eq_lowered(s, "user") {
            Some(MessageRole::User)
        } else if eq_lowered(s, "assistant") {
            Some(MessageRole::Assistant)
        } else {
            None
        }
    }
}

/// Mathematical model of a message.
#[verifier::ext_equal]
pub ghost struct MessageView {
    pub role: MessageRole,
    pub content: Seq<char>,
    pub timestamp: u64,
}

/// A message in a conversation.
#[derive(Debug)]
pub struct Message {
    /// Role of the message sender
    pub role: MessageRole,
    /// Content of the message
    pub content: String,
    /// Creation instant, in milliseconds since the Unix epoch
    pub timestamp: u64,
}

impl View for Message {
    type V = MessageView;

    open spec fn view(&self) -> MessageView {
        MessageView { role: self.role, content: self.content@, timestamp: self.timestamp }
    }
}

impl Clone for Message {
    fn clone(&self) -> (r: Self)
        ensures
            r@ == self@,
    {
        Message { role: self.role, content: self.content.clone(), timestamp: self.timestamp }
    }
}

/// The current wall-clock time in milliseconds since the Unix epoch.
///
/// Relies on `chrono::Utc::now` and `DateTime::timestamp_millis`. Nothing
/// can be promised of a clock reading.
#[verifier::external_body]
fn now_timestamp_millis() -> i64 {
    chrono::Utc::now().timestamp_millis()
}

/// The current time clamped to `u64`; readings before the epoch become 0.
fn current_time_millis() -> u64 {
    let raw = now_timestamp_millis();
    if raw < 0 {
        0
    } else {
        raw as u64
    }
}

/// A fresh random conversation identifier.
///
/// Relies on `uuid::Uuid::new_v4` and its `Display` impl, which renders the
/// 36-character hyphenated form. The value is random; only its length is
/// promised.
#[verifier::external_body]
fn fresh_conversation_id() -> (r: String)
    ensures
        r@.len() == 36,
{
    uuid::Uuid::new_v4().to_string()
}

impl Message {
    /// Create a new message stamped with the current time.
    pub fn new(role: MessageRole, content: &str) -> (r: Self)
        ensures
            r@.role == role,
            r@.content == content@,
    {
        Message { role, content: content.to_owned(), timestamp: current_time_millis() }
    }

    /// Format the message for display, as `role: content`.
    pub fn format(&self) -> (r: String)
        ensures
            r@ == role_str(self@.role) + ": "@ + self@.content,
    {
        let mut r = self.role.as_str().to_owned();
        r.append(": ");
        r.append(self.content.as_str());
        r
    }
}

/// Mathematical model of a conversation.
#[verifier::ext_equal]
pub ghost struct ConversationView {
    pub id: Seq<char>,
    pub title: Seq<char>,
    pub messages: Seq<MessageView>,
    pub model: Seq<char>,
    pub created_at: u64,
    pub updated_at: u64,
}

impl ConversationView {
    /// Well-formedness: the update stamp never precedes creation.
    pub open spec fn wf(self) -> bool {
        self.updated_at >= self.created_at
    }
}

/// A conversation between a user and an LLM.
#[derive(Debug)]
pub struct Conversation {
    /// The ID of the conversation
    pub id: String,
    /// The title of the conversation
    pub title: String,
    /// The messages in the conversation
    pub messages: Vec<Message>,
    /// The model used for the conversation
    pub model: String,
    /// The creation timestamp, in milliseconds since the Unix epoch
    pub created_at: u64,
    /// The last update timestamp, in milliseconds since the Unix epoch
    pub updated_at: u64,
}

impl View for Conversation {
    type V = ConversationView;

    open spec fn view(&self) -> ConversationView {
        ConversationView {
            id: self.id@,
            title: self.title@,
            messages: self.messages@.map_values(|m: Message| m@),
            model: self.model@,
            created_at: self.created_at,
            updated_at: self.updated_at,
        }
    }
}

/// The conversation after one message is appended at time `now`.
///
/// The update stamp never moves backwards: a clock reading older than the
/// current stamp is clamped to it, so well-formedness is preserved.
pub open spec fn appended(
    c: ConversationView,
    role: MessageRole,
    content: Seq<char>,
    now: u64,
) -> ConversationView {
    let t: u64 = if now > c.updated_at {
        now
    } else {
        c.updated_at
    };
    ConversationView {
        messages: c.messages.push(MessageView { role, content, timestamp: t }),
        updated_at: t,
        ..c
    }
}

/// The conversation after truncation to at most `k` messages: the most
/// recent `k` are kept in order; shorter logs are untouched.
pub open spec fn truncated(c: ConversationView, k: int) -> ConversationView {
    if c.messages.len() > k {
        ConversationView {
            messages: c.messages.subrange(c.messages.len() - k, c.messages.len() as int),
            ..c
        }
    } else {
        c
    }
}

impl Conversation {
    /// Create a new conversation with a fresh random id; both timestamps
    /// are set to the current time.
    pub fn new(title: &str, model: &str) -> (r: Self)
        ensures
            r@.wf(),
            r@.id.len() == 36,
            r@.title == title@,
            r@.model == model@,
            r@.messages.len() == 0,
            r@.created_at == r@.updated_at,
    {
        let now = current_time_millis();
        let r = Conversation {
            id: fresh_conversation_id(),
            title: title.to_owned(),
            messages: Vec::new(),
            model: model.to_owned(),
            created_at: now,
            updated_at: now,
        };
        proof {
            assert(r@.messages =~= Seq::<MessageView>::empty());
        }
        r
    }

    /// Append a message stamped with the given time; refreshes the update
    /// stamp, which never moves backwards.
    pub fn add_message_at(&mut self, role: MessageRole, content: &str, now: u64)
        requires
            old(self)@.wf(),
        ensures
            final(self)@ == appended(old(self)@, role, content@, now),
            final(self)@.wf(),
    {
        let t = if now > self.updated_at {
            now
        } else {
            self.updated_at
        };
        self.messages.push(Message { role, content: content.to_owned(), timestamp: t });
        self.updated_at = t;
        proof {
            assert(self@.messages =~= appended(old(self)@, role, content@, now).messages);
            assert(self@ =~= appended(old(self)@, role, content@, now));
        }
    }

    /// Append a message stamped with the current time.
    pub fn add_message(&mut self, role: MessageRole, content: &str)
        requires
            old(self)@.wf(),
        ensures
            exists|t: u64| final(self)@ == appended(old(self)@, role, content@, t),
            final(self)@.wf(),
            final(self)@.messages.len() == old(self)@.messages.len() + 1,
            final(self)@.messages.last().role == role,
            final(self)@.messages.last().content == content@,
            final(self)@.messages.subrange(0, old(self)@.messages.len() as int) == old(
                self,
            )@.messages,
            final(self)@.updated_at >= old(self)@.updated_at,
            final(self)@.id == old(self)@.id,
            final(self)@.title == old(self)@.title,
            final(self)@.model == old(self)@.model,
            final(self)@.created_at == old(self)@.created_at,
    {
        let now = current_time_millis();
        self.add_message_at(role, content, now);
        proof {
            assert(final(self)@ == appended(old(self)@, role, content@, now));
            assert(final(self)@.messages.subrange(0, old(self)@.messages.len() as int) =~= old(
                self,
            )@.messages);
        }
    }

    /// Truncate the conversation to the specified maximum number of
    /// messages, keeping the most recent ones in order.
    pub fn truncate(&mut self, max_messages: usize)
        ensures
            final(self)@ == truncated(old(self)@, max_messages as int),
    {
        if self.messages.len() > max_messages {
            let start = self.messages.len() - max_messages;
            let mut kept: Vec<Message> = Vec::new();
            let mut i: usize = start;
            while i < self.messages.len()
                invariant
                    start <= i <= self.messages@.len(),
                    start == self.messages@.len() - max_messages,
                    kept@.len() == i - start,
                    forall|j: int|
                        0 <= j < kept@.len() ==> #[trigger] kept@[j]@ == self.messages@[
                            start + j
                        ]@,
                decreases self.messages@.len() - i,
            {
                let m = &self.messages[i];
                kept.push(m.clone());
                i += 1;
            }
            self.messages = kept;
            proof {
                assert(self@.messages =~= truncated(old(self)@, max_messages as int).messages);
                assert(self@ =~= truncated(old(self)@, max_messages as int));
            }
        }
    }

    /// Get the last message in the conversation.
    pub fn last_message(&self) -> (r: Option<&Message>)
        ensures
            match r {
                Some(m) => self@.messages.len() > 0 && m@ == self@.messages.last(),
                None => self@.messages.len() == 0,
            },
    {
        if self.messages.len() == 0 {
            None
        } else {
            Some(&self.messages[self.messages.len() - 1])
        }
    }

    /// Get the number of messages in the conversation.
    pub fn message_count(&self) -> (r: usize)
        ensures
            r == self@.messages.len(),
    {
        self.messages.len()
    }

    /// Check if the conversation is empty.
    pub fn is_empty(&self) -> (r: bool)
        ensures
            r == (self@.messages.len() == 0),
    {
        self.messages.len() == 0
    }
}

/// How the last message of a conversation is previewed in a summary:
/// long contents are cut to their first 47 characters plus an ellipsis.
pub open spec fn spec_preview(content: Seq<char>) -> Seq<char> {
    if content.len() > 50 {
        content.subrange(0, 47) + "..."@
    } else {
        content
    }
}

/// The one-line summary of a conversation.
pub open spec fn spec_summary(c: ConversationView) -> Seq<char> {
    if c.messages.len() == 0 {
        c.title + " (empty)"@
    } else {
        c.title + " - "@ + u64_digits(c.messages.len() as nat) + " messages - Last: "@
            + spec_preview(c.messages.last().content)
    }
}

impl Conversation {
    /// Get a summary of the conversation: its title, message count and a
    /// preview of the last message.
    pub fn summary(&self) -> (r: String)
        ensures
            r@ == spec_summary(self@),
    {
        if self.messages.len() == 0 {
            let mut r = self.title.clone();
            r.append(" (empty)");
            r
        } else {
            let mut r = self.title.clone();
            r.append(" - ");
            let mut digits: Vec<char> = Vec::new();
            emit_u64(self.messages.len() as u64, &mut digits);
            let count = chars_to_string(&digits);
            proof {
                assert(digits@ =~= Seq::<char>::empty() + u64_digits(self.messages@.len() as nat));
            }
            r.append(count.as_str());
            r.append(" messages - Last: ");
            let last = &self.messages[self.messages.len() - 1];
            let n = last.content.as_str().unicode_len();
            if n > 50 {
                let cut = last.content.as_str().substring_char(0, 47);
                r.append(cut);
                r.append("...");
            } else {
                r.append(last.content.as_str());
            }
            r
        }
    }
}

/// One append event: what arrives and when.
pub ghost struct AppendEvent {
    pub role: MessageRole,
    pub content: Seq<char>,
    pub time: u64,
}

/// The conversation after a run of append events, oldest first.
pub open spec fn after_appends(c: ConversationView, evs: Seq<AppendEvent>) -> ConversationView
    decreases evs.len(),
{
    if evs.len() == 0 {
        c
    } else {
        appended(after_appends(c, evs.drop_last()), evs.last().role, evs.last().content,
            evs.last().time)
    }
}

/// Whether the event times are strictly increasing, and all later than the
/// conversation's current update stamp.
pub open spec fn strictly_later(c: ConversationView, evs: Seq<AppendEvent>) -> bool {
    &&& forall|i: int, j: int| 0 <= i < j < evs.len() ==> evs[i].time < evs[j].time
    &&& forall|i: int| 0 <= i < evs.len() ==> (#[trigger] evs[i].time) > c.updated_at
}

/// Shape of a conversation after a run of appends under a monotonic clock:
/// one message per event, and the update stamp ends at the last event time.
pub proof fn lemma_after_appends_shape(c: ConversationView, evs: Seq<AppendEvent>)
    requires
        c.wf(),
        strictly_later(c, evs),
    ensures
        after_appends(c, evs).wf(),
        after_appends(c, evs).messages.len() == c.messages.len() + evs.len(),
        after_appends(c, evs).updated_at == if evs.len() == 0 {
            c.updated_at
        } else {
            evs.last().time
        },
        after_appends(c, evs).created_at == c.created_at,
    decreases evs.len(),
{
    if evs.len() > 0 {
        assert(strictly_later(c, evs.drop_last()));
        lemma_after_appends_shape(c, evs.drop_last());
    }
}

/// Appending N messages to a fresh conversation under a monotonic clock
/// yields exactly N messages, and the update stamp strictly increases with
/// each append.
pub proof fn lemma_append_run_monotonic(c: ConversationView, evs: Seq<AppendEvent>)
    requires
        c.wf(),
        c.messages.len() == 0,
        strictly_later(c, evs),
    ensures
        after_appends(c, evs).messages.len() == evs.len(),
        forall|i: int|
            0 <= i < evs.len() ==> #[trigger] after_appends(c, evs.subrange(0, i + 1)).updated_at
                > after_appends(c, evs.subrange(0, i)).updated_at,
{
    lemma_after_appends_shape(c, evs);
    assert forall|i: int|
        0 <= i < evs.len() implies #[trigger] after_appends(c, evs.subrange(0, i + 1)).updated_at
        > after_appends(c, evs.subrange(0, i)).updated_at by {
        let pre = evs.subrange(0, i);
        let cur = evs.subrange(0, i + 1);
        assert(strictly_later(c, pre));
        assert(strictly_later(c, cur));
        lemma_after_appends_shape(c, pre);
        lemma_after_appends_shape(c, cur);
        assert(cur.drop_last() =~= pre);
        assert(after_appends(c, cur) == appended(after_appends(c, pre), cur.last().role,
            cur.last().content, cur.last().time));
        if i == 0 {
            assert(after_appends(c, pre).updated_at == c.updated_at);
            assert(cur.last().time > c.updated_at);
        } else {
            assert(after_appends(c, pre).updated_at == pre.last().time);
            assert(pre.last() == evs[i - 1]);
            assert(cur.last() == evs[i]);
            assert(evs[i - 1].time < evs[i].time);
        }
    }
}

/// Truncation to `k` on a longer log keeps exactly the most recent `k`
/// messages, in their original order.
pub proof fn lemma_truncate_keeps_most_recent(c: ConversationView, k: int)
    requires
        0 <= k,
        c.messages.len() > k,
    ensures
        truncated(c, k).messages.len() == k,
        forall|i: int|
            0 <= i < k ==> #[trigger] truncated(c, k).messages[i] == c.messages[
                c.messages.len() - k + i
            ],
{
}

/// Truncation is a no-op on a log already within the bound, and hence
/// idempotent.
pub proof fn lemma_truncate_noop_within_bound(c: ConversationView, k: int)
    requires
        0 <= k,
    ensures
        c.messages.len() <= k ==> truncated(c, k) == c,
        truncated(truncated(c, k), k) == truncated(c, k),
{
}

} // verus!

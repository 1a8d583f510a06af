//! Durable form of a conversation: a canonical structured-text record
//! with fields id, title, messages (role, content, timestamp each),
//! model, created_at and updated_at. The writer and the strict reader
//! are both verified, and parsing is proved to invert emission.

use vstd::prelude::*;
use crate::codec::{emit_string, emit_string_chars, expect_lit, has_at, lemma_parse_number_of_digits,
    lemma_parse_string_advances, lemma_parse_string_of_emit, parse_number, parse_number_chars,
    parse_string, parse_string_chars, push_lit, chars_eq_lit};
use crate::conversation::{Conversation, ConversationView, Message, MessageRole, MessageView,
    role_str};
use crate::text::{chars_to_string, emit_u64, is_digit, lemma_u64_digits_are_digits, str_to_chars,
    u64_digits};

verus! {

/// Failure of reading a stored conversation record.
#[derive(Clone, Copy, PartialEq, Eq, Structural, Debug)]
pub enum PersistenceError {
    /// The record is not a well-formed conversation.
    InvalidFormat,
}

impl PersistenceError {
    /// A human-readable description of the failure.
    pub fn message(&self) -> (r: String)
        ensures
            r@ == "invalid conversation record"@,
    {
        "invalid conversation record".to_owned()
    }
}

/// The stored form of one message.
pub open spec fn emit_message(m: MessageView) -> Seq<char> {
    "{\"role\":"@ + emit_string(role_str(m.role)) + ",\"content\":"@ + emit_string(m.content)
        + ",\"timestamp\":"@ + u64_digits(m.timestamp as nat) + "}"@
}

/// The stored form of the second and later messages, each with its
/// separating comma.
pub open spec fn emit_messages_rest(ms: Seq<MessageView>) -> Seq<char>
    decreases ms.len(),
{
    if ms.len() == 0 {
        Seq::empty()
    } else {
        seq![','] + emit_message(ms.first()) + emit_messages_rest(ms.drop_first())
    }
}

/// The stored form of a message list, commas between entries.
pub open spec fn emit_messages(ms: Seq<MessageView>) -> Seq<char> {
    if ms.len() == 0 {
        Seq::empty()
    } else {
        emit_message(ms.first()) + emit_messages_rest(ms.drop_first())
    }
}

/// The stored form of a whole conversation.
pub open spec fn emit_conversation(c: ConversationView) -> Seq<char> {
    "{\"id\":"@ + emit_string(c.id) + ",\"title\":"@ + emit_string(c.title) + ",\"messages\":["@
        + (emit_messages(c.messages) + seq![']']) + ",\"model\":"@ + emit_string(c.model)
        + ",\"created_at\":"@ + u64_digits(c.created_at as nat) + ",\"updated_at\":"@ + u64_digits(
        c.updated_at as nat,
    ) + "}"@
}

/// The role denoted by a stored role field, exactly.
pub open spec fn role_of_text(t: Seq<char>) -> Option<MessageRole> {
    if t == "user"@ {
        Some(MessageRole::User)
    } else if t == "assistant"@ {
        Some(MessageRole::Assistant)
    } else {
        None
    }
}

/// Parses one stored message at `i`.
pub open spec fn parse_message(s: Seq<char>, i: int) -> Option<(MessageView, int)> {
    if !has_at(s, i, "{\"role\":"@) {
        None
    } else {
        match parse_string(s, i + "{\"role\":"@.len()) {
            None => None,
            Some((rt, i2)) => match role_of_text(rt) {
                None => None,
                Some(role) => if !has_at(s, i2, ",\"content\":"@) {
                    None
                } else {
                    match parse_string(s, i2 + ",\"content\":"@.len()) {
                        None => None,
                        Some((content, i4)) => if !has_at(s, i4, ",\"timestamp\":"@) {
                            None
                        } else {
                            match parse_number(s, i4 + ",\"timestamp\":"@.len()) {
                                None => None,
                                Some((ts, i6)) => if !has_at(s, i6, "}"@) {
                                    None
                                } else {
                                    Some(
                                        (
                                            MessageView { role, content, timestamp: ts },
                                            i6 + "}"@.len(),
                                        ),
                                    )
                                },
                            }
                        },
                    }
                },
            },
        }
    }
}

/// Parses the remainder of a stored message list: either the closing
/// bracket, or a comma followed by a message and more. The fuel only
/// bounds recursion; one unit is spent per message.
pub open spec fn parse_messages_rest(s: Seq<char>, i: int, fuel: nat) -> Option<
    (Seq<MessageView>, int),
>
    decreases fuel,
{
    if 0 <= i < s.len() && s[i] == ']' {
        Some((Seq::empty(), i + 1))
    } else if 0 <= i < s.len() && s[i] == ',' {
        if fuel == 0 {
            None
        } else {
            match parse_message(s, i + 1) {
                None => None,
                Some((m, j)) => match parse_messages_rest(s, j, (fuel - 1) as nat) {
                    None => None,
                    Some((ms, k)) => Some((seq![m] + ms, k)),
                },
            }
        }
    } else {
        None
    }
}

/// Parses a stored message list, positioned just after the opening
/// bracket.
pub open spec fn parse_messages(s: Seq<char>, i: int, fuel: nat) -> Option<
    (Seq<MessageView>, int),
> {
    if 0 <= i < s.len() && s[i] == ']' {
        Some((Seq::empty(), i + 1))
    } else {
        match parse_message(s, i) {
            None => None,
            Some((m, j)) => match parse_messages_rest(s, j, fuel) {
                None => None,
                Some((ms, k)) => Some((seq![m] + ms, k)),
            },
        }
    }
}

/// Parses a whole stored conversation record. The record must be
/// consumed exactly, and the timestamps must satisfy the conversation
/// invariant.
pub open spec fn parse_conversation(s: Seq<char>) -> Option<ConversationView> {
    if !has_at(s, 0, "{\"id\":"@) {
        None
    } else {
        match parse_string(s, "{\"id\":"@.len() as int) {
            None => None,
            Some((id, i2)) => if !has_at(s, i2, ",\"title\":"@) {
                None
            } else {
                match parse_string(s, i2 + ",\"title\":"@.len()) {
                    None => None,
                    Some((title, i4)) => if !has_at(s, i4, ",\"messages\":["@) {
                        None
                    } else {
                        match parse_messages(s, i4 + ",\"messages\":["@.len(), s.len() as nat) {
                            None => None,
                            Some((ms, i6)) => if !has_at(s, i6, ",\"model\":"@) {
                                None
                            } else {
                                match parse_string(s, i6 + ",\"model\":"@.len()) {
                                    None => None,
                                    Some((model, i8)) => if !has_at(s, i8, ",\"created_at\":"@) {
                                        None
                                    } else {
                                        match parse_number(s, i8 + ",\"created_at\":"@.len()) {
                                            None => None,
                                            Some((ca, i10)) => if !has_at(
                                                s,
                                                i10,
                                                ",\"updated_at\":"@,
                                            ) {
                                                None
                                            } else {
                                                match parse_number(
                                                    s,
                                                    i10 + ",\"updated_at\":"@.len(),
                                                ) {
                                                    None => None,
                                                    Some((ua, i12)) => if has_at(s, i12, "}"@)
                                                        && i12 + 1 == s.len() && ua >= ca {
                                                        Some(
                                                            ConversationView {
                                                                id,
                                                                title,
                                                                messages: ms,
                                                                model,
                                                                created_at: ca,
                                                                updated_at: ua,
                                                            },
                                                        )
                                                    } else {
                                                        None
                                                    },
                                                }
                                            },
                                        }
                                    },
                                }
                            },
                        }
                    },
                }
            },
        }
    }
}

/// Appends the stored form of one message to `out`.
pub fn emit_message_chars(m: &Message, out: &mut Vec<char>)
    ensures
        final(out)@ == old(out)@ + emit_message(m@),
{
    push_lit(out, "{\"role\":");
    emit_string_chars(m.role.as_str(), out);
    push_lit(out, ",\"content\":");
    emit_string_chars(m.content.as_str(), out);
    push_lit(out, ",\"timestamp\":");
    emit_u64(m.timestamp, out);
    push_lit(out, "}");
    proof {
        assert(out@ =~= old(out)@ + emit_message(m@));
    }
}

/// Appends the stored form of a message list (no brackets) to `out`.
pub fn emit_messages_chars(ms: &Vec<Message>, out: &mut Vec<char>)
    ensures
        final(out)@ == old(out)@ + emit_messages(ms@.map_values(|m: Message| m@)),
{
    let ghost views = ms@.map_values(|m: Message| m@);
    let mut idx: usize = 0;
    while idx < ms.len()
        invariant
            idx <= ms@.len(),
            views == ms@.map_values(|m: Message| m@),
            out@ == old(out)@ + emit_messages(views.subrange(0, idx as int)),
        decreases ms@.len() - idx,
    {
        if idx > 0 {
            push_lit(out, ",");
        }
        emit_message_chars(&ms[idx], out);
        proof {
            reveal_strlit(",");
            assert(","@ =~= seq![',']);
            let pre = views.subrange(0, idx as int);
            let cur = views.subrange(0, idx + 1);
            assert(cur =~= pre.push(views[idx as int]));
            lemma_emit_messages_snoc(pre, views[idx as int]);
            assert(views[idx as int] == ms@[idx as int]@);
            assert(out@ =~= old(out)@ + emit_messages(cur));
        }
        idx += 1;
    }
    proof {
        assert(views.subrange(0, ms@.len() as int) =~= views);
    }
}

/// Appending one message to a list extends its stored form by a comma
/// (when the list was non-empty) and the message's own stored form.
pub proof fn lemma_emit_messages_snoc(ms: Seq<MessageView>, m: MessageView)
    ensures
        ms.len() == 0 ==> emit_messages(ms.push(m)) == emit_message(m),
        ms.len() > 0 ==> emit_messages(ms.push(m)) == emit_messages(ms) + seq![','] + emit_message(
            m,
        ),
    decreases ms.len(),
{
    if ms.len() == 0 {
        assert(ms.push(m).first() == m);
        assert(ms.push(m).drop_first() =~= Seq::<MessageView>::empty());
        assert(emit_messages_rest(Seq::<MessageView>::empty()) =~= Seq::<char>::empty());
        assert(emit_messages(ms.push(m)) =~= emit_message(m));
    } else {
        assert(ms.push(m).first() == ms.first());
        assert(ms.push(m).drop_first() =~= ms.drop_first().push(m));
        lemma_emit_messages_rest_snoc(ms.drop_first(), m);
        assert(emit_messages(ms.push(m)) =~= emit_messages(ms) + seq![','] + emit_message(m));
    }
}

/// The same fact for the comma-prefixed remainder form.
pub proof fn lemma_emit_messages_rest_snoc(ms: Seq<MessageView>, m: MessageView)
    ensures
        emit_messages_rest(ms.push(m)) == emit_messages_rest(ms) + seq![','] + emit_message(m),
    decreases ms.len(),
{
    if ms.len() == 0 {
        assert(ms.push(m).first() == m);
        assert(ms.push(m).drop_first() =~= Seq::<MessageView>::empty());
        assert(emit_messages_rest(Seq::<MessageView>::empty()) =~= Seq::<char>::empty());
        assert(emit_messages_rest(ms.push(m)) =~= emit_messages_rest(ms) + seq![',']
            + emit_message(m));
    } else {
        assert(ms.push(m).first() == ms.first());
        assert(ms.push(m).drop_first() =~= ms.drop_first().push(m));
        lemma_emit_messages_rest_snoc(ms.drop_first(), m);
        assert(emit_messages_rest(ms.push(m)) =~= emit_messages_rest(ms) + seq![',']
            + emit_message(m));
    }
}

impl Conversation {
    /// The stored record of this conversation, as text.
    pub fn to_json(&self) -> (r: String)
        ensures
            r@ == emit_conversation(self@),
    {
        let mut out: Vec<char> = Vec::new();
        push_lit(&mut out, "{\"id\":");
        emit_string_chars(self.id.as_str(), &mut out);
        push_lit(&mut out, ",\"title\":");
        emit_string_chars(self.title.as_str(), &mut out);
        push_lit(&mut out, ",\"messages\":[");
        emit_messages_chars(&self.messages, &mut out);
        push_lit(&mut out, "]");
        push_lit(&mut out, ",\"model\":");
        emit_string_chars(self.model.as_str(), &mut out);
        push_lit(&mut out, ",\"created_at\":");
        emit_u64(self.created_at, &mut out);
        push_lit(&mut out, ",\"updated_at\":");
        emit_u64(self.updated_at, &mut out);
        push_lit(&mut out, "}");
        proof {
            reveal_strlit("]");
            assert("]"@ =~= seq![']']);
            assert(out@ =~= emit_conversation(self@));
        }
        chars_to_string(&out)
    }

    /// The file name under which this conversation is stored.
    pub fn file_name(&self) -> (r: String)
        ensures
            r@ == self@.id + ".json"@,
    {
        let mut r = self.id.clone();
        r.append(".json");
        r
    }
}

/// Exec mirror of [`parse_message`].
#[verifier::rlimit(100)]
fn parse_message_chars(s: &Vec<char>, i: usize) -> (r: Option<(Message, usize)>)
    requires
        i <= s@.len(),
    ensures
        match parse_message(s@, i as int) {
            Some(t) => r matches Some(p) && p.0@ == t.0 && p.1 as int == t.1,
            None => r is None,
        },
        r matches Some(p) ==> p.1 <= s@.len(),
{
    let i1 = match expect_lit(s, i, "{\"role\":") {
        Some(j) => j,
        None => {
            return None;
        },
    };
    let (rv, i2) = match parse_string_chars(s, i1) {
        Some(p) => p,
        None => {
            return None;
        },
    };
    proof {
        lemma_parse_string_advances(s@, i1 as int);
    }
    let role = if chars_eq_lit(&rv, "user") {
        MessageRole::User
    } else if chars_eq_lit(&rv, "assistant") {
        MessageRole::Assistant
    } else {
        return None;
    };
    let i3 = match expect_lit(s, i2, ",\"content\":") {
        Some(j) => j,
        None => {
            return None;
        },
    };
    let (cv, i4) = match parse_string_chars(s, i3) {
        Some(p) => p,
        None => {
            return None;
        },
    };
    proof {
        lemma_parse_string_advances(s@, i3 as int);
    }
    let i5 = match expect_lit(s, i4, ",\"timestamp\":") {
        Some(j) => j,
        None => {
            return None;
        },
    };
    let (ts, i6) = match parse_number_chars(s, i5) {
        Some(p) => p,
        None => {
            return None;
        },
    };
    proof {
        crate::codec::lemma_digits_end_bounds(s@, i5 as int);
    }
    let i7 = match expect_lit(s, i6, "}") {
        Some(j) => j,
        None => {
            return None;
        },
    };
    let content = chars_to_string(&cv);
    Some((Message { role, content, timestamp: ts }, i7))
}

/// Exec mirror of [`parse_messages_rest`].
#[verifier::rlimit(100)]
fn parse_messages_rest_chars(s: &Vec<char>, i: usize, fuel: usize) -> (r: Option<
    (Vec<Message>, usize),
>)
    requires
        i <= s@.len(),
    ensures
        match parse_messages_rest(s@, i as int, fuel as nat) {
            Some(t) => r matches Some(p) && p.0@.map_values(|m: Message| m@) == t.0 && p.1 as int
                == t.1 && p.1 <= s@.len(),
            None => r is None,
        },
    decreases fuel,
{
    if i < s.len() && s[i] == ']' {
        let v: Vec<Message> = Vec::new();
        proof {
            assert(v@.map_values(|m: Message| m@) =~= Seq::<MessageView>::empty());
        }
        return Some((v, i + 1));
    }
    if i < s.len() && s[i] == ',' {
        if fuel == 0 {
            return None;
        }
        let (m, j) = match parse_message_chars(s, i + 1) {
            Some(p) => p,
            None => {
                return None;
            },
        };
        match parse_messages_rest_chars(s, j, fuel - 1) {
            Some((mut ms, k)) => {
                ms.insert(0, m);
                proof {
                    let t = parse_messages_rest(s@, (i + 1) as int, (fuel - 1) as nat);
                    assert(ms@.map_values(|mm: Message| mm@) =~= seq![
                        parse_message(s@, (i + 1) as int)->Some_0.0,
                    ] + parse_messages_rest(s@, j as int, (fuel - 1) as nat)->Some_0.0);
                }
                Some((ms, k))
            },
            None => None,
        }
    } else {
        None
    }
}

/// Exec mirror of [`parse_messages`].
#[verifier::rlimit(100)]
fn parse_messages_chars(s: &Vec<char>, i: usize, fuel: usize) -> (r: Option<(Vec<Message>, usize)>)
    requires
        i <= s@.len(),
    ensures
        match parse_messages(s@, i as int, fuel as nat) {
            Some(t) => r matches Some(p) && p.0@.map_values(|m: Message| m@) == t.0 && p.1 as int
                == t.1 && p.1 <= s@.len(),
            None => r is None,
        },
{
    if i < s.len() && s[i] == ']' {
        let v: Vec<Message> = Vec::new();
        proof {
            assert(v@.map_values(|m: Message| m@) =~= Seq::<MessageView>::empty());
        }
        return Some((v, i + 1));
    }
    let (m, j) = match parse_message_chars(s, i) {
        Some(p) => p,
        None => {
            return None;
        },
    };
    match parse_messages_rest_chars(s, j, fuel) {
        Some((mut ms, k)) => {
            ms.insert(0, m);
            proof {
                assert(ms@.map_values(|mm: Message| mm@) =~= seq![
                    parse_message(s@, i as int)->Some_0.0,
                ] + parse_messages_rest(s@, j as int, fuel as nat)->Some_0.0);
            }
            Some((ms, k))
        },
        None => None,
    }
}

/// Reads a stored conversation record; fails exactly on records the
/// strict grammar rejects.
#[verifier::rlimit(100)]
pub fn from_json(s: &str) -> (r: Result<Conversation, PersistenceError>)
    ensures
        match parse_conversation(s@) {
            Some(v) => r matches Ok(c) && c@ == v && c@.wf(),
            None => r matches Err(e) && e == PersistenceError::InvalidFormat,
        },
{
    let chars = str_to_chars(s);
    let i1 = match expect_lit(&chars, 0, "{\"id\":") {
        Some(j) => j,
        None => {
            return Err(PersistenceError::InvalidFormat);
        },
    };
    let (idv, i2) = match parse_string_chars(&chars, i1) {
        Some(p) => p,
        None => {
            return Err(PersistenceError::InvalidFormat);
        },
    };
    proof {
        lemma_parse_string_advances(chars@, i1 as int);
    }
    let i3 = match expect_lit(&chars, i2, ",\"title\":") {
        Some(j) => j,
        None => {
            return Err(PersistenceError::InvalidFormat);
        },
    };
    let (titlev, i4) = match parse_string_chars(&chars, i3) {
        Some(p) => p,
        None => {
            return Err(PersistenceError::InvalidFormat);
        },
    };
    proof {
        lemma_parse_string_advances(chars@, i3 as int);
    }
    let i5 = match expect_lit(&chars, i4, ",\"messages\":[") {
        Some(j) => j,
        None => {
            return Err(PersistenceError::InvalidFormat);
        },
    };
    let (msgs, i6) = match parse_messages_chars(&chars, i5, chars.len()) {
        Some(p) => p,
        None => {
            return Err(PersistenceError::InvalidFormat);
        },
    };
    let i7 = match expect_lit(&chars, i6, ",\"model\":") {
        Some(j) => j,
        None => {
            return Err(PersistenceError::InvalidFormat);
        },
    };
    let (modelv, i8) = match parse_string_chars(&chars, i7) {
        Some(p) => p,
        None => {
            return Err(PersistenceError::InvalidFormat);
        },
    };
    proof {
        lemma_parse_string_advances(chars@, i7 as int);
    }
    let i9 = match expect_lit(&chars, i8, ",\"created_at\":") {
        Some(j) => j,
        None => {
            return Err(PersistenceError::InvalidFormat);
        },
    };
    let (ca, i10) = match parse_number_chars(&chars, i9) {
        Some(p) => p,
        None => {
            return Err(PersistenceError::InvalidFormat);
        },
    };
    proof {
        crate::codec::lemma_digits_end_bounds(chars@, i9 as int);
    }
    let i11 = match expect_lit(&chars, i10, ",\"updated_at\":") {
        Some(j) => j,
        None => {
            return Err(PersistenceError::InvalidFormat);
        },
    };
    let (ua, i12) = match parse_number_chars(&chars, i11) {
        Some(p) => p,
        None => {
            return Err(PersistenceError::InvalidFormat);
        },
    };
    proof {
        crate::codec::lemma_digits_end_bounds(chars@, i11 as int);
    }
    let i13 = match expect_lit(&chars, i12, "}") {
        Some(j) => j,
        None => {
            return Err(PersistenceError::InvalidFormat);
        },
    };
    proof {
        reveal_strlit("}");
    }
    if i13 != chars.len() || ua < ca {
        return Err(PersistenceError::InvalidFormat);
    }
    let c = Conversation {
        id: chars_to_string(&idv),
        title: chars_to_string(&titlev),
        messages: msgs,
        model: chars_to_string(&modelv),
        created_at: ca,
        updated_at: ua,
    };
    proof {
        assert(c@ =~= parse_conversation(chars@)->Some_0);
    }
    Ok(c)
}

/// A stored message is never empty text.
pub proof fn lemma_emit_message_len(m: MessageView)
    ensures
        emit_message(m).len() >= 1,
{
    reveal_strlit("{\"role\":");
}

/// The comma-joined remainder is at least one character per message.
pub proof fn lemma_emit_messages_rest_len(ms: Seq<MessageView>)
    ensures
        emit_messages_rest(ms).len() >= ms.len(),
    decreases ms.len(),
{
    if ms.len() > 0 {
        lemma_emit_messages_rest_len(ms.drop_first());
    }
}

/// A stored message list is at least one character per message.
pub proof fn lemma_emit_messages_len(ms: Seq<MessageView>)
    ensures
        emit_messages(ms).len() >= ms.len(),
{
    if ms.len() > 0 {
        lemma_emit_message_len(ms.first());
        lemma_emit_messages_rest_len(ms.drop_first());
    }
}

/// Reading a stored role field inverts writing it.
pub proof fn lemma_role_of_text_inverts(r: MessageRole)
    ensures
        role_of_text(role_str(r)) == Some(r),
{
    reveal_strlit("user");
    reveal_strlit("assistant");
    assert("user"@.len() == 4);
    assert("assistant"@.len() == 9);
}

/// Parsing inverts emission for one stored message.
pub proof fn lemma_parse_message_of_emit(m: MessageView, s: Seq<char>, i: int)
    requires
        has_at(s, i, emit_message(m)),
    ensures
        parse_message(s, i) == Some((m, i + emit_message(m).len())),
{
    let l1 = "{\"role\":"@;
    let rs = emit_string(role_str(m.role));
    let l2 = ",\"content\":"@;
    let cs = emit_string(m.content);
    let l3 = ",\"timestamp\":"@;
    let ts = u64_digits(m.timestamp as nat);
    let l4 = "}"@;
    let e = emit_message(m);
    assert(e == l1 + rs + l2 + cs + l3 + ts + l4);
    crate::codec::lemma_has_at_split(s, i, l1 + rs + l2 + cs + l3 + ts, l4);
    crate::codec::lemma_has_at_split(s, i, l1 + rs + l2 + cs + l3, ts);
    crate::codec::lemma_has_at_split(s, i, l1 + rs + l2 + cs, l3);
    crate::codec::lemma_has_at_split(s, i, l1 + rs + l2, cs);
    crate::codec::lemma_has_at_split(s, i, l1 + rs, l2);
    crate::codec::lemma_has_at_split(s, i, l1, rs);
    let p1 = i + l1.len() as int;
    let p2 = p1 + rs.len() as int;
    let p3 = p2 + l2.len() as int;
    let p4 = p3 + cs.len() as int;
    let p5 = p4 + l3.len() as int;
    let p6 = p5 + ts.len() as int;
    lemma_parse_string_of_emit(role_str(m.role), s, p1);
    lemma_role_of_text_inverts(m.role);
    lemma_parse_string_of_emit(m.content, s, p3);
    reveal_strlit("}");
    crate::codec::lemma_has_at_first(s, p6, l4);
    assert(s[p6] == '}');
    assert(!is_digit('}'));
    lemma_parse_number_of_digits(m.timestamp, s, p5);
    crate::codec::lemma_has_at_first(s, p6, l4);
    assert(MessageView { role: m.role, content: m.content, timestamp: m.timestamp } =~= m);
}

/// Parsing inverts emission for the remainder of a message list.
pub proof fn lemma_parse_messages_rest_of_emit(
    xs: Seq<MessageView>,
    s: Seq<char>,
    i: int,
    fuel: nat,
)
    requires
        has_at(s, i, emit_messages_rest(xs) + seq![']']),
        fuel >= xs.len(),
    ensures
        parse_messages_rest(s, i, fuel) == Some(
            (xs, i + emit_messages_rest(xs).len() as int + 1),
        ),
    decreases xs.len(),
{
    let u = emit_messages_rest(xs);
    let unit = u + seq![']'];
    crate::codec::lemma_has_at_first(s, i, unit);
    if xs.len() == 0 {
        assert(u =~= Seq::<char>::empty());
        assert(unit[0] == ']');
        assert(s[i] == ']');
    } else {
        let em = emit_message(xs.first());
        let rest = emit_messages_rest(xs.drop_first());
        assert(u == seq![','] + em + rest);
        assert(unit =~= seq![','] + (em + (rest + seq![']'])));
        assert(unit[0] == ',');
        assert(s[i] == ',');
        crate::codec::lemma_has_at_split(s, i, seq![','], em + (rest + seq![']']));
        crate::codec::lemma_has_at_split(s, i + 1, em, rest + seq![']']);
        lemma_parse_message_of_emit(xs.first(), s, i + 1);
        lemma_parse_messages_rest_of_emit(
            xs.drop_first(),
            s,
            i + 1 + em.len(),
            (fuel - 1) as nat,
        );
        assert(seq![xs.first()] + xs.drop_first() =~= xs);
    }
}

/// Parsing inverts emission for a whole message list.
pub proof fn lemma_parse_messages_of_emit(ms: Seq<MessageView>, s: Seq<char>, i: int, fuel: nat)
    requires
        has_at(s, i, emit_messages(ms) + seq![']']),
        fuel >= ms.len(),
    ensures
        parse_messages(s, i, fuel) == Some((ms, i + emit_messages(ms).len() as int + 1)),
{
    let u = emit_messages(ms);
    let unit = u + seq![']'];
    crate::codec::lemma_has_at_first(s, i, unit);
    if ms.len() == 0 {
        assert(u =~= Seq::<char>::empty());
        assert(unit[0] == ']');
        assert(s[i] == ']');
    } else {
        let em = emit_message(ms.first());
        let rest = emit_messages_rest(ms.drop_first());
        assert(u == em + rest);
        assert(unit =~= em + (rest + seq![']']));
        reveal_strlit("{\"role\":");
        assert(em[0] == '{') by {
            assert(emit_message(ms.first()) == "{\"role\":"@ + (emit_string(role_str(
                ms.first().role,
            )) + ",\"content\":"@ + emit_string(ms.first().content) + ",\"timestamp\":"@
                + u64_digits(ms.first().timestamp as nat) + "}"@));
        }
        assert(unit[0] == em[0]);
        assert(s[i] == '{');
        crate::codec::lemma_has_at_split(s, i, em, rest + seq![']']);
        lemma_parse_message_of_emit(ms.first(), s, i);
        lemma_parse_messages_rest_of_emit(ms.drop_first(), s, i + em.len(), fuel);
        assert(seq![ms.first()] + ms.drop_first() =~= ms);
    }
}

/// Offsets of the variable parts of a stored conversation record.
pub open spec fn pos_id(c: ConversationView) -> int {
    "{\"id\":"@.len() as int
}

pub open spec fn pos_title(c: ConversationView) -> int {
    pos_id(c) + emit_string(c.id).len() + ",\"title\":"@.len()
}

pub open spec fn pos_msgs(c: ConversationView) -> int {
    pos_title(c) + emit_string(c.title).len() + ",\"messages\":["@.len()
}

pub open spec fn pos_model(c: ConversationView) -> int {
    pos_msgs(c) + emit_messages(c.messages).len() + 1 + ",\"model\":"@.len()
}

pub open spec fn pos_created(c: ConversationView) -> int {
    pos_model(c) + emit_string(c.model).len() + ",\"created_at\":"@.len()
}

pub open spec fn pos_updated(c: ConversationView) -> int {
    pos_created(c) + u64_digits(c.created_at as nat).len() + ",\"updated_at\":"@.len()
}

pub open spec fn pos_end(c: ConversationView) -> int {
    pos_updated(c) + u64_digits(c.updated_at as nat).len()
}

/// Where each part of a stored conversation record stands.
#[verifier::rlimit(100)]
#[verifier::spinoff_prover]
pub proof fn lemma_emit_conversation_layout(c: ConversationView, s: Seq<char>)
    requires
        s == emit_conversation(c),
    ensures
        has_at(s, 0, "{\"id\":"@),
        has_at(s, pos_id(c), emit_string(c.id)),
        has_at(s, pos_id(c) + emit_string(c.id).len(), ",\"title\":"@),
        has_at(s, pos_title(c), emit_string(c.title)),
        has_at(s, pos_title(c) + emit_string(c.title).len(), ",\"messages\":["@),
        has_at(s, pos_msgs(c), emit_messages(c.messages) + seq![']']),
        has_at(s, pos_msgs(c) + emit_messages(c.messages).len() + 1, ",\"model\":"@),
        has_at(s, pos_model(c), emit_string(c.model)),
        has_at(s, pos_model(c) + emit_string(c.model).len(), ",\"created_at\":"@),
        has_at(s, pos_created(c), u64_digits(c.created_at as nat)),
        has_at(s, pos_created(c) + u64_digits(c.created_at as nat).len(), ",\"updated_at\":"@),
        has_at(s, pos_updated(c), u64_digits(c.updated_at as nat)),
        has_at(s, pos_end(c), "}"@),
        s.len() == pos_end(c) + "}"@.len(),
{
    let b1 = "{\"id\":"@;
    let s1 = emit_string(c.id);
    let b2 = ",\"title\":"@;
    let s2 = emit_string(c.title);
    let b3 = ",\"messages\":["@;
    let mm = emit_messages(c.messages) + seq![']'];
    let b4 = ",\"model\":"@;
    let s3 = emit_string(c.model);
    let b5 = ",\"created_at\":"@;
    let n1 = u64_digits(c.created_at as nat);
    let b6 = ",\"updated_at\":"@;
    let n2 = u64_digits(c.updated_at as nat);
    let b7 = "}"@;
    assert(has_at(s, 0, s)) by {
        assert(s.subrange(0, s.len() as int) =~= s);
    }
    crate::codec::lemma_has_at_split(s, 0, b1 + s1 + b2 + s2 + b3 + mm + b4 + s3 + b5 + n1 + b6
        + n2, b7);
    crate::codec::lemma_has_at_split(s, 0, b1 + s1 + b2 + s2 + b3 + mm + b4 + s3 + b5 + n1 + b6,
        n2);
    crate::codec::lemma_has_at_split(s, 0, b1 + s1 + b2 + s2 + b3 + mm + b4 + s3 + b5 + n1, b6);
    crate::codec::lemma_has_at_split(s, 0, b1 + s1 + b2 + s2 + b3 + mm + b4 + s3 + b5, n1);
    crate::codec::lemma_has_at_split(s, 0, b1 + s1 + b2 + s2 + b3 + mm + b4 + s3, b5);
    crate::codec::lemma_has_at_split(s, 0, b1 + s1 + b2 + s2 + b3 + mm + b4, s3);
    crate::codec::lemma_has_at_split(s, 0, b1 + s1 + b2 + s2 + b3 + mm, b4);
    crate::codec::lemma_has_at_split(s, 0, b1 + s1 + b2 + s2 + b3, mm);
    crate::codec::lemma_has_at_split(s, 0, b1 + s1 + b2 + s2, b3);
    crate::codec::lemma_has_at_split(s, 0, b1 + s1 + b2, s2);
    crate::codec::lemma_has_at_split(s, 0, b1 + s1, b2);
    crate::codec::lemma_has_at_split(s, 0, b1, s1);
}

/// The storage round trip: writing a well-formed conversation and
/// reading it back yields the conversation unchanged.
#[verifier::rlimit(100)]
#[verifier::spinoff_prover]
pub proof fn lemma_storage_round_trip(c: ConversationView)
    requires
        c.wf(),
    ensures
        parse_conversation(emit_conversation(c)) == Some(c),
{
    let s = emit_conversation(c);
    let b1 = "{\"id\":"@;
    let s1 = emit_string(c.id);
    let b2 = ",\"title\":"@;
    let s2 = emit_string(c.title);
    let b3 = ",\"messages\":["@;
    let mm = emit_messages(c.messages) + seq![']'];
    let b4 = ",\"model\":"@;
    let s3 = emit_string(c.model);
    let b5 = ",\"created_at\":"@;
    let n1 = u64_digits(c.created_at as nat);
    let b6 = ",\"updated_at\":"@;
    let n2 = u64_digits(c.updated_at as nat);
    let b7 = "}"@;
    lemma_emit_conversation_layout(c, s);
    let p1 = b1.len() as int;
    let p2 = p1 + s1.len() as int;
    let p3 = p2 + b2.len() as int;
    let p4 = p3 + s2.len() as int;
    let p5 = p4 + b3.len() as int;
    let p6 = p5 + mm.len() as int;
    let p7 = p6 + b4.len() as int;
    let p8 = p7 + s3.len() as int;
    let p9 = p8 + b5.len() as int;
    let p10 = p9 + n1.len() as int;
    let p11 = p10 + b6.len() as int;
    let p12 = p11 + n2.len() as int;
    lemma_parse_string_of_emit(c.id, s, p1);
    lemma_parse_string_of_emit(c.title, s, p3);
    lemma_emit_messages_len(c.messages);
    lemma_parse_messages_of_emit(c.messages, s, p5, s.len() as nat);
    lemma_parse_string_of_emit(c.model, s, p7);
    reveal_strlit(",\"updated_at\":");
    crate::codec::lemma_has_at_first(s, p10, b6);
    assert(s[p10] == ',');
    assert(!is_digit(','));
    lemma_parse_number_of_digits(c.created_at, s, p9);
    reveal_strlit("}");
    crate::codec::lemma_has_at_first(s, p12, b7);
    assert(s[p12] == '}');
    assert(!is_digit('}'));
    lemma_parse_number_of_digits(c.updated_at, s, p11);
    assert(p12 + 1 == s.len());
    assert(parse_conversation(s) matches Some(v) && v =~= c);
}

/// The views of a sequence of conversations.
pub open spec fn conv_views(s: Seq<Conversation>) -> Seq<ConversationView> {
    s.map_values(|c: Conversation| c@)
}

/// Newest first: update stamps never increase along the sequence.
pub open spec fn sorted_by_updated_desc(s: Seq<ConversationView>) -> bool {
    forall|i: int, j: int| 0 <= i < j < s.len() ==> s[i].updated_at >= s[j].updated_at
}

/// Removing an element commutes with taking views.
proof fn lemma_conv_views_remove(s: Seq<Conversation>, i: int)
    requires
        0 <= i < s.len(),
    ensures
        conv_views(s.remove(i)) == conv_views(s).remove(i),
{
    assert(conv_views(s.remove(i)) =~= conv_views(s).remove(i));
}

/// Inserting an element commutes with taking views.
proof fn lemma_conv_views_insert(s: Seq<Conversation>, i: int, c: Conversation)
    requires
        0 <= i <= s.len(),
    ensures
        conv_views(s.insert(i, c)) == conv_views(s).insert(i, c@),
{
    assert(conv_views(s.insert(i, c)) =~= conv_views(s).insert(i, c@));
}

/// Sorts conversations newest-`updated_at`-first. The result is a
/// permutation of the input.
pub fn sort_by_updated_desc(v: &mut Vec<Conversation>)
    ensures
        conv_views(final(v)@).to_multiset() == conv_views(old(v)@).to_multiset(),
        sorted_by_updated_desc(conv_views(final(v)@)),
        final(v)@.len() == old(v)@.len(),
{
    broadcast use vstd::seq_lib::group_to_multiset_ensures;
    broadcast use vstd::multiset::group_multiset_axioms;

    if v.len() <= 1 {
        return ;
    }
    let mut idx: usize = 1;
    while idx < v.len()
        invariant
            1 <= idx <= v@.len(),
            v@.len() == old(v)@.len(),
            conv_views(v@).to_multiset() == conv_views(old(v)@).to_multiset(),
            forall|a: int, b: int|
                0 <= a < b < idx ==> conv_views(v@)[a].updated_at >= conv_views(v@)[b].updated_at,
        decreases v@.len() - idx,
    {
        let ghost prev = v@;
        let c = v.remove(idx);
        let ghost w = v@;
        proof {
            lemma_conv_views_remove(prev, idx as int);
            assert(conv_views(prev).len() == prev.len());
            vstd::seq_lib::to_multiset_remove::<ConversationView>(conv_views(prev), idx as int);
            assert(conv_views(prev).remove(idx as int).to_multiset() == conv_views(
                prev,
            ).to_multiset().remove(conv_views(prev)[idx as int]));
            assert(conv_views(w).to_multiset() == conv_views(prev).to_multiset().remove(
                conv_views(prev)[idx as int],
            ));
            assert(conv_views(prev)[idx as int] == c@);
        }
        let mut j: usize = 0;
        while j < idx && v[j].updated_at >= c.updated_at
            invariant
                j <= idx,
                idx < prev.len(),
                w == v@,
                w.len() == prev.len() - 1,
                forall|k: int| 0 <= k < j ==> conv_views(w)[k].updated_at >= c@.updated_at,
            decreases idx - j,
        {
            proof {
                assert(conv_views(w)[j as int] == v@[j as int]@);
            }
            j += 1;
        }
        v.insert(j, c);
        proof {
            lemma_conv_views_insert(w, j as int, c);
            assert(conv_views(w).len() == w.len());
            vstd::seq_lib::to_multiset_insert::<ConversationView>(conv_views(w), j as int, c@);
            let ws = conv_views(w);
            let ps = conv_views(prev);
            let us = conv_views(v@);
            assert(us == ws.insert(j as int, c@));
            assert(us.to_multiset() == ws.to_multiset().insert(c@));
            assert(ps.to_multiset().count(ps[idx as int]) > 0) by {
                ps.to_multiset_ensures();
                assert((idx as int) < ps.len());
                assert(ps.contains(ps[idx as int]));
            }
            assert(us.to_multiset() =~= ps.to_multiset());
            // the sorted prefix grows by one
            assert forall|a: int, b: int| 0 <= a < b < idx + 1 implies us[a].updated_at
                >= us[b].updated_at by {
                assert(forall|k: int| 0 <= k < idx ==> ws[k] == ps[k]);
                if j < idx {
                    assert(ws[j as int].updated_at < c@.updated_at);
                }
                if a < j && b < j {
                } else if a < j && b == j {
                    assert(us[a] == ws[a] && us[b] == c@);
                } else if a < j {
                    assert(us[b] == ws[b - 1]);
                } else if a == j {
                    assert(us[a] == c@ && us[b] == ws[b - 1] && j <= b - 1 < idx);
                    assert(ws[b - 1].updated_at <= ws[j as int].updated_at);
                } else {
                    assert(us[a] == ws[a - 1] && us[b] == ws[b - 1]);
                }
            }
        }
        idx += 1;
    }
}

/// The conversations that parse successfully from a sequence of stored
/// records, in order of appearance.
pub open spec fn parsed_ok(texts: Seq<Seq<char>>) -> Seq<ConversationView>
    decreases texts.len(),
{
    if texts.len() == 0 {
        Seq::empty()
    } else {
        parsed_ok(texts.drop_last()) + (match parse_conversation(texts.last()) {
            Some(v) => seq![v],
            None => Seq::<ConversationView>::empty(),
        })
    }
}

/// A record that parses yields a well-formed conversation.
proof fn lemma_parse_conversation_wf(s: Seq<char>)
    ensures
        parse_conversation(s) matches Some(v) ==> v.wf(),
{
}

/// Everything that parses is well-formed.
proof fn lemma_parsed_ok_wf(texts: Seq<Seq<char>>)
    ensures
        forall|i: int| 0 <= i < parsed_ok(texts).len() ==> (#[trigger] parsed_ok(texts)[i]).wf(),
    decreases texts.len(),
{
    if texts.len() > 0 {
        lemma_parsed_ok_wf(texts.drop_last());
        lemma_parse_conversation_wf(texts.last());
        assert forall|i: int| 0 <= i < parsed_ok(texts).len() implies (#[trigger] parsed_ok(
            texts,
        )[i]).wf() by {
            let pre = parsed_ok(texts.drop_last());
            if i < pre.len() {
                assert(parsed_ok(texts)[i] == pre[i]);
            } else {
                assert(parsed_ok(texts)[i] == parse_conversation(texts.last())->Some_0);
            }
        }
    }
}

/// Reads every given stored record, skipping the ones that fail to
/// parse, and returns the loaded conversations newest-first.
pub fn load_all_from_texts(texts: &Vec<String>) -> (r: Vec<Conversation>)
    ensures
        conv_views(r@).to_multiset() == parsed_ok(
            texts@.map_values(|t: String| t@),
        ).to_multiset(),
        sorted_by_updated_desc(conv_views(r@)),
        forall|i: int| 0 <= i < r@.len() ==> (#[trigger] r@[i]@).wf(),
{
    broadcast use vstd::seq_lib::group_to_multiset_ensures;
    broadcast use vstd::multiset::group_multiset_axioms;

    let ghost tview = texts@.map_values(|t: String| t@);
    let mut out: Vec<Conversation> = Vec::new();
    let mut i: usize = 0;
    proof {
        assert(tview.subrange(0, 0) =~= Seq::<Seq<char>>::empty());
        assert(conv_views(out@) =~= Seq::<ConversationView>::empty());
    }
    while i < texts.len()
        invariant
            i <= texts@.len(),
            tview == texts@.map_values(|t: String| t@),
            conv_views(out@) == parsed_ok(tview.subrange(0, i as int)),
        decreases texts@.len() - i,
    {
        let ghost pre = tview.subrange(0, i as int);
        let ghost cur = tview.subrange(0, i + 1);
        match from_json(texts[i].as_str()) {
            Ok(c) => {
                out.push(c);
            },
            Err(_) => {},
        }
        proof {
            assert(cur.drop_last() =~= pre);
            assert(cur.last() == tview[i as int]);
            assert(tview[i as int] == texts@[i as int]@);
            match parse_conversation(tview[i as int]) {
                Some(v) => {
                    assert(conv_views(out@) =~= parsed_ok(pre) + seq![v]);
                },
                None => {
                    assert(conv_views(out@) =~= parsed_ok(pre));
                    assert(parsed_ok(cur) =~= parsed_ok(pre) + Seq::<ConversationView>::empty());
                },
            }
        }
        i += 1;
    }
    proof {
        assert(tview.subrange(0, texts@.len() as int) =~= tview);
    }
    let ghost collected = conv_views(out@);
    sort_by_updated_desc(&mut out);
    proof {
        lemma_parsed_ok_wf(tview);
        assert forall|k: int| 0 <= k < out@.len() implies (#[trigger] out@[k]@).wf() by {
            let vs = conv_views(out@);
            assert(vs[k] == out@[k]@);
            assert(vs.contains(vs[k]));
            assert(vs.to_multiset().count(vs[k]) > 0);
            assert(collected.to_multiset().count(vs[k]) > 0);
            assert(collected.contains(vs[k]));
            let j = choose|j: int| 0 <= j < collected.len() && collected[j] == vs[k];
            assert(parsed_ok(tview)[j].wf());
        }
    }
    out
}

} // verus!

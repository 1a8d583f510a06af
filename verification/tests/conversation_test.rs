use screensage::{Conversation, Message, MessageRole};

#[test]
fn test_message_role_conversion() {
    assert_eq!(MessageRole::User.as_str(), "user");
    assert_eq!(MessageRole::Assistant.as_str(), "assistant");

    assert_eq!(MessageRole::from_str("user"), Some(MessageRole::User));
    assert_eq!(MessageRole::from_str("USER"), Some(MessageRole::User));
    assert_eq!(MessageRole::from_str("assistant"), Some(MessageRole::Assistant));
    assert_eq!(MessageRole::from_str("ASSISTANT"), Some(MessageRole::Assistant));
    assert_eq!(MessageRole::from_str("unknown"), None);
}

#[test]
fn conversation_test_message_creation() {
    let message = Message::new(MessageRole::User, "Hello");
    assert_eq!(message.role, MessageRole::User);
    assert_eq!(message.content, "Hello");
    assert!(message.timestamp as i64 <= chrono::Utc::now().timestamp_millis());
}

#[test]
fn conversation_test_test_message_creation() {
    let content = "Test message";
    let message = Message::new(MessageRole::User, content);

    assert_eq!(message.role, MessageRole::User);
    assert_eq!(message.content, content);
    assert!(message.timestamp as i64 <= chrono::Utc::now().timestamp_millis());
}

#[test]
fn conversation_test_conversation_creation() {
    let conversation = Conversation::new("Test Conversation", "gpt-3.5-turbo");
    assert_eq!(conversation.title, "Test Conversation");
    assert_eq!(conversation.model, "gpt-3.5-turbo");
    assert!(conversation.is_empty());
    assert!(conversation.created_at as i64 <= chrono::Utc::now().timestamp_millis());
    assert_eq!(conversation.created_at, conversation.updated_at);
}

#[test]
fn conversation_test_test_conversation_creation() {
    let title = "Test Conversation";
    let model = "test-model";
    let conversation = Conversation::new(title, model);

    assert_eq!(conversation.title, title);
    assert_eq!(conversation.model, model);
    assert!(conversation.messages.is_empty());
    assert!(conversation.created_at as i64 <= chrono::Utc::now().timestamp_millis());
    assert_eq!(conversation.created_at, conversation.updated_at);
}

#[test]
fn conversation_test_add_message() {
    let mut conversation = Conversation::new("Test", "model");
    let before_update = conversation.updated_at;

    // An explicit clock reading a little later stands in for waiting.
    conversation.add_message_at(MessageRole::User, "Hello", before_update + 10);
    assert_eq!(conversation.messages.len(), 1);
    assert_eq!(conversation.messages[0].role, MessageRole::User);
    assert_eq!(conversation.messages[0].content, "Hello");
    assert!(conversation.updated_at > before_update);

    conversation.add_message_at(MessageRole::Assistant, "Hi there", before_update + 20);
    assert_eq!(conversation.messages.len(), 2);
    assert_eq!(conversation.messages[1].role, MessageRole::Assistant);
    assert_eq!(conversation.messages[1].content, "Hi there");
}

#[test]
fn conversation_test_test_add_message() {
    let mut conversation = Conversation::new("Test", "test-model");
    let before_update = conversation.updated_at;

    // An explicit clock reading a little later stands in for waiting.
    conversation.add_message_at(MessageRole::User, "Test message", before_update + 10);

    assert_eq!(conversation.messages.len(), 1);
    assert_eq!(conversation.messages[0].role, MessageRole::User);
    assert_eq!(conversation.messages[0].content, "Test message");
    assert!(conversation.updated_at > before_update);
}

#[test]
fn conversation_test_truncate() {
    let mut conversation = Conversation::new("Test", "model");

    for i in 0..5 {
        conversation.add_message(MessageRole::User, &format!("Message {}", i));
    }

    assert_eq!(conversation.messages.len(), 5);

    conversation.truncate(3);
    assert_eq!(conversation.messages.len(), 3);

    assert_eq!(conversation.messages[0].content, "Message 2");
    assert_eq!(conversation.messages[1].content, "Message 3");
    assert_eq!(conversation.messages[2].content, "Message 4");
}

#[test]
fn conversation_test_test_truncate() {
    let mut conversation = Conversation::new("Test", "test-model");

    for i in 0..5 {
        conversation.add_message(MessageRole::User, &format!("Message {}", i));
    }

    assert_eq!(conversation.messages.len(), 5);

    conversation.truncate(3);

    assert_eq!(conversation.messages.len(), 3);
    assert_eq!(conversation.messages[0].content, "Message 2");
    assert_eq!(conversation.messages[1].content, "Message 3");
    assert_eq!(conversation.messages[2].content, "Message 4");
}

#[test]
fn test_summary() {
    let mut conversation = Conversation::new("Test Summary", "model");

    assert_eq!(conversation.summary(), "Test Summary (empty)");

    conversation.add_message(MessageRole::User, "Hello");
    assert_eq!(conversation.summary(), "Test Summary - 1 messages - Last: Hello");

    let long_message = "This is a very long message that should be truncated in the summary because it exceeds the maximum length allowed for previews.";
    conversation.add_message(MessageRole::Assistant, long_message);
    assert_eq!(
        conversation.summary(),
        "Test Summary - 2 messages - Last: This is a very long message that should be trun..."
    );
}

#[test]
fn appending_n_messages_counts_and_advances_updated_at() {
    let mut conversation = Conversation::new("Counter", "model");
    let mut last_update = conversation.updated_at;
    for i in 0..8u64 {
        let now = last_update + 3;
        conversation.add_message_at(MessageRole::User, &format!("m{}", i), now);
        assert_eq!(conversation.messages.len() as u64, i + 1);
        assert!(conversation.updated_at > last_update);
        last_update = conversation.updated_at;
    }
    assert_eq!(conversation.message_count(), 8);
}

#[test]
fn truncate_within_bound_is_noop_and_idempotent() {
    let mut conversation = Conversation::new("Short", "model");
    conversation.add_message(MessageRole::User, "one");
    conversation.add_message(MessageRole::Assistant, "two");

    conversation.truncate(5);
    assert_eq!(conversation.messages.len(), 2);
    assert_eq!(conversation.messages[0].content, "one");
    assert_eq!(conversation.messages[1].content, "two");

    conversation.truncate(1);
    assert_eq!(conversation.messages.len(), 1);
    assert_eq!(conversation.messages[0].content, "two");

    // a second truncation to the same bound changes nothing
    conversation.truncate(1);
    assert_eq!(conversation.messages.len(), 1);
    assert_eq!(conversation.messages[0].content, "two");
}

#[test]
fn last_message_and_format() {
    let mut conversation = Conversation::new("Fmt", "model");
    assert!(conversation.last_message().is_none());
    conversation.add_message(MessageRole::User, "ping");
    let last = conversation.last_message().unwrap();
    assert_eq!(last.content, "ping");
    assert_eq!(last.format(), "user: ping");
    let id = conversation.id.clone();
    assert_eq!(conversation.file_name(), format!("{}.json", id));
    assert_eq!(conversation.id.len(), 36);
}

use screensage::conversation::{Conversation, Message, MessageRole};
use screensage::storage::{from_json, load_all_from_texts, PersistenceError};

#[test]
fn test_save_and_load() {
    // Create a conversation with messages and run it through the
    // storage codec, as saving and loading it would.
    let mut conversation = Conversation::new("Test Save Load", "test-model");
    conversation.add_message(MessageRole::User, "Hello");
    conversation.add_message(MessageRole::Assistant, "Hi there");

    let conversation_id = conversation.id.clone();
    let text = conversation.to_json();

    let loaded = from_json(&text);
    assert!(loaded.is_ok());

    let loaded_conversation = loaded.unwrap();
    assert_eq!(loaded_conversation.id, conversation_id);
    assert_eq!(loaded_conversation.title, "Test Save Load");
    assert_eq!(loaded_conversation.model, "test-model");
    assert_eq!(loaded_conversation.messages.len(), 2);
    assert_eq!(loaded_conversation.messages[0].role, MessageRole::User);
    assert_eq!(loaded_conversation.messages[0].content, "Hello");
    assert_eq!(loaded_conversation.messages[1].role, MessageRole::Assistant);
    assert_eq!(loaded_conversation.messages[1].content, "Hi there");
}

#[test]
fn round_trip_preserves_timestamps_and_special_characters() {
    let conversation = Conversation {
        id: String::from("id-1"),
        title: String::from("quotes \" and \\ slashes\nnewline"),
        messages: vec![
            Message {
                role: MessageRole::User,
                content: String::from("line1\nline2 \"quoted\" back\\slash"),
                timestamp: 1111,
            },
            Message { role: MessageRole::Assistant, content: String::from("héllo ✓"), timestamp: 2222 },
        ],
        model: String::from("m"),
        created_at: 1000,
        updated_at: 2222,
    };
    let text = conversation.to_json();
    let loaded = from_json(&text).unwrap();
    assert_eq!(loaded.id, conversation.id);
    assert_eq!(loaded.title, conversation.title);
    assert_eq!(loaded.model, conversation.model);
    assert_eq!(loaded.created_at, 1000);
    assert_eq!(loaded.updated_at, 2222);
    assert_eq!(loaded.messages.len(), 2);
    assert_eq!(loaded.messages[0].content, conversation.messages[0].content);
    assert_eq!(loaded.messages[0].timestamp, 1111);
    assert_eq!(loaded.messages[1].content, conversation.messages[1].content);
    assert_eq!(loaded.messages[1].timestamp, 2222);
}

#[test]
fn stored_record_has_exact_shape() {
    let conversation = Conversation {
        id: String::from("abc"),
        title: String::from("T"),
        messages: vec![Message {
            role: MessageRole::User,
            content: String::from("hi"),
            timestamp: 7,
        }],
        model: String::from("m1"),
        created_at: 5,
        updated_at: 7,
    };
    assert_eq!(
        conversation.to_json(),
        "{\"id\":\"abc\",\"title\":\"T\",\"messages\":[{\"role\":\"user\",\"content\":\"hi\",\"timestamp\":7}],\"model\":\"m1\",\"created_at\":5,\"updated_at\":7}"
    );
}

#[test]
fn malformed_records_are_rejected() {
    assert_eq!(from_json("").unwrap_err(), PersistenceError::InvalidFormat);
    assert_eq!(from_json("not a record").unwrap_err(), PersistenceError::InvalidFormat);
    // missing closing brace
    assert_eq!(
        from_json("{\"id\":\"a\",\"title\":\"t\",\"messages\":[],\"model\":\"m\",\"created_at\":1,\"updated_at\":2")
            .unwrap_err(),
        PersistenceError::InvalidFormat
    );
    // update stamp before creation violates the invariant
    assert_eq!(
        from_json("{\"id\":\"a\",\"title\":\"t\",\"messages\":[],\"model\":\"m\",\"created_at\":9,\"updated_at\":2}")
            .unwrap_err(),
        PersistenceError::InvalidFormat
    );
    // trailing garbage
    assert_eq!(
        from_json("{\"id\":\"a\",\"title\":\"t\",\"messages\":[],\"model\":\"m\",\"created_at\":1,\"updated_at\":2}x")
            .unwrap_err(),
        PersistenceError::InvalidFormat
    );
    let err = from_json("").unwrap_err();
    assert_eq!(err.message(), "invalid conversation record");
}

#[test]
fn load_all_skips_corrupt_and_sorts_newest_first() {
    let older = Conversation {
        id: String::from("older"),
        title: String::from("Old"),
        messages: vec![],
        model: String::from("m"),
        created_at: 10,
        updated_at: 100,
    };
    let newer = Conversation {
        id: String::from("newer"),
        title: String::from("New"),
        messages: vec![],
        model: String::from("m"),
        created_at: 10,
        updated_at: 200,
    };
    let texts = vec![
        older.to_json(),
        String::from("{ this file is corrupt"),
        newer.to_json(),
    ];
    let loaded = load_all_from_texts(&texts);
    assert_eq!(loaded.len(), 2);
    assert_eq!(loaded[0].id, "newer");
    assert_eq!(loaded[0].updated_at, 200);
    assert_eq!(loaded[1].id, "older");
    assert_eq!(loaded[1].updated_at, 100);
}

#[test]
fn load_all_of_no_valid_records_is_empty() {
    let texts = vec![String::from("junk"), String::from("")];
    let loaded = load_all_from_texts(&texts);
    assert_eq!(loaded.len(), 0);
}

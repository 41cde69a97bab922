use digrag::extract::openrouter_client::ChatMessage;

#[test]
fn test_chat_message_constructors() {
    let system = ChatMessage::system("System prompt");
    assert_eq!(system.role, "system");
    assert_eq!(system.content, "System prompt");

    let user = ChatMessage::user("User message");
    assert_eq!(user.role, "user");

    let assistant = ChatMessage::assistant("Assistant response");
    assert_eq!(assistant.role, "assistant");
}

#[test]
fn test_chat_message_system() {
    let msg = ChatMessage::system("You are helpful");
    assert_eq!(msg.role, "system");
    assert_eq!(msg.content, "You are helpful");
}

#[test]
fn test_chat_message_user() {
    let msg = ChatMessage::user("Hello!");
    assert_eq!(msg.role, "user");
    assert_eq!(msg.content, "Hello!");
}

#[test]
fn test_chat_message_assistant() {
    let msg = ChatMessage::assistant("Hi there!");
    assert_eq!(msg.role, "assistant");
    assert_eq!(msg.content, "Hi there!");
}


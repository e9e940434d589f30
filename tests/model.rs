use air::host::{Custom, ModelEndpointEntity, ModelEndpointResponse, OpenAI, Usage};
use air::profile::{Profile, ProfileError};
use air::{Message, Role};

#[test]
fn test_usage_defaults() {
    let usage = Usage::new();
    assert_eq!(usage.prompt_tokens, None);
    assert_eq!(usage.completion_tokens, None);
    assert_eq!(usage.total_tokens, None);
}

#[test]
fn role_tokens() {
    assert_eq!(Role::User.token(), "user");
    assert_eq!(Role::System.name(), "System");
    assert_eq!(Role::Assistant.marker(), "ASSISTANT:");
    assert_eq!(Role::all(), vec![Role::System, Role::User, Role::Assistant]);
}

#[test]
fn role_parse_ignores_case() {
    assert_eq!("ASSISTANT".parse::<Role>(), Ok(Role::Assistant));
    assert_eq!(Role::parse("sYsTeM"), Ok(Role::System));
    assert_eq!(Role::parse("bogus"), Err("bogus".to_string()));
    assert_eq!(Role::parse("users"), Err("users".to_string()));
}

#[test]
fn message_constructors() {
    let m = Message::new(Role::User, "Hello, world!".to_string());
    assert_eq!(m.role, Role::User);
    assert_eq!(m.content, "Hello, world!");
    assert_eq!(Message::system("s".to_string()).role, Role::System);
    assert_ne!(Message::user("a".to_string()), Message::assistant("a".to_string()));
}

#[test]
fn openai_endpoints() {
    assert_eq!(OpenAI::chat_url(), "https://api.openai.com/v1/chat/completions");
    assert_eq!(OpenAI::models_url(), "https://api.openai.com/v1/models");
    let o = OpenAI::new("gpt-4".to_string(), "secret".to_string());
    assert_eq!(o.name(), "gpt-4");
    assert_eq!(o.key(), "secret");
    assert_eq!(OpenAI::model_or_default(None), "gpt-3.5-turbo");
    assert_eq!(OpenAI::model_or_default(Some("x".to_string())), "x");
}

#[test]
fn model_listing_keeps_models_only() {
    let entry = |id: &str, object: &str| ModelEndpointEntity {
        id: id.to_string(),
        object: object.to_string(),
        owned_by: "openai".to_string(),
    };
    let response = ModelEndpointResponse {
        object: "list".to_string(),
        data: vec![entry("a", "model"), entry("b", "file"), entry("c", "model")],
    };
    assert_eq!(OpenAI::select_models(response), vec!["a".to_string(), "c".to_string()]);
}

#[test]
fn custom_label() {
    assert_eq!(Custom::label(Some("localhost")), "Custom model at localhost");
    assert_eq!(Custom::label(None), "Custom model at unknown location");
}

#[test]
fn profiles_cannot_be_listed() {
    assert!(matches!(Profile::list(), Err(ProfileError::ListingUnsupported)));
}

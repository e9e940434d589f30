use air::client::{fold, Client};
use air::host::{OpenAI, Usage};
use air::{Message, ModelOutput, Provider, ProviderError, ProviderResponse, Role};

/// A backend that is never reached.
struct Offline(#[allow(dead_code)] OpenAI);

impl Provider for Offline {
    fn send(&self, _context: &[Message]) -> Result<(Message, Usage), ProviderError> {
        Err(ProviderError::UnknownError)
    }

    fn models(&self) -> Result<Vec<String>, ProviderError> {
        Ok(Vec::new())
    }
}

/// A backend whose reply holds no candidate.
struct NoChoices;

impl Provider for NoChoices {
    fn send(&self, _context: &[Message]) -> Result<(Message, Usage), ProviderError> {
        self.parse(ProviderResponse { choices: Vec::new(), usage: Usage::new() })
    }

    fn models(&self) -> Result<Vec<String>, ProviderError> {
        Ok(Vec::new())
    }
}

/// A backend that echoes the last message and reports a token total.
struct Echo(Option<u64>);

impl Provider for Echo {
    fn send(&self, context: &[Message]) -> Result<(Message, Usage), ProviderError> {
        let last = context.last().unwrap();
        let output = ModelOutput {
            index: 0,
            message: vec![
                ("role".to_string(), "assistant".to_string()),
                ("content".to_string(), last.content.clone()),
            ],
            finish_reason: "stop".to_string(),
            logprobs: None,
        };
        let usage = Usage { prompt_tokens: None, completion_tokens: None, total_tokens: self.0 };
        self.parse(ProviderResponse { choices: vec![output], usage })
    }

    fn models(&self) -> Result<Vec<String>, ProviderError> {
        Ok(Vec::new())
    }
}

#[test]
fn client_test_client_context_init() {
    let name = String::from("gpt-3.5-turbo");
    let key = String::from("api-key");
    let client = Client::new(Offline(OpenAI::new(name, key)));
    assert!(client.context.is_empty());
}

#[test]
fn mod_test_client_context_init() {
    let name = String::from("gpt-3.5-turbo");
    let key = String::from("api-key");
    let client = Client::new(Offline(OpenAI::new(name, key)));
    assert!(client.context.is_empty());
}

#[test]
fn usage_fold_table() {
    assert_eq!(fold(Some(3), Some(5)), Some(8));
    assert_eq!(fold(Some(3), None), None);
    assert_eq!(fold(None, Some(5)), None);
    assert_eq!(fold(None, None), None);
    assert_eq!(fold(Some(u64::MAX), Some(1)), None);
}

#[test]
fn empty_choice_list_keeps_the_turn() {
    let mut client = Client::new(NoChoices);
    let message = Message::user("Hello, world!".to_string());
    let response = client.send(message.clone());
    assert!(matches!(response, Err(ProviderError::EmptyResponse)));
    assert_eq!(client.context.last(), Some(&message));
    assert_eq!(client.tokens_sent, Some(0));
}

#[test]
fn http_status_becomes_http_error() {
    assert!(matches!(ProviderError::from_status(Some(401)), ProviderError::HttpError(401)));
    assert!(matches!(ProviderError::from_status(None), ProviderError::UnknownError));
}

#[test]
fn reply_is_appended_and_usage_folded() {
    let mut client = Client::new(Echo(Some(7)));
    let reply = client.send(Message::user("ping".to_string())).unwrap().clone();
    assert_eq!(reply, Message::assistant("ping".to_string()));
    assert_eq!(client.context.len(), 2);
    assert_eq!(client.tokens_sent, Some(7));
    client.send(Message::user("pong".to_string())).unwrap();
    assert_eq!(client.tokens_sent, Some(14));
    client.clear();
    assert!(client.context.is_empty());
    assert_eq!(client.tokens_sent, Some(14));
}

#[test]
fn unknown_usage_is_sticky() {
    let mut client = Client::new(Echo(None));
    client.send(Message::user("one".to_string())).unwrap();
    assert_eq!(client.tokens_sent, None);
    let mut client = client.with_context(vec![Message::system("be terse".to_string())]);
    client.send(Message::user("two".to_string())).unwrap();
    assert_eq!(client.tokens_sent, None);
    assert_eq!(client.context[0].role, Role::System);
}

#[test]
fn failed_turn_stays_in_history() {
    let mut client = Client::new(Offline(OpenAI::new("m".to_string(), "k".to_string())));
    assert!(client.send(Message::user("lost".to_string())).is_err());
    assert_eq!(client.context, vec![Message::user("lost".to_string())]);
}

#[test]
fn parse_takes_first_candidate_content() {
    let first = ModelOutput {
        index: 0,
        message: vec![("content".to_string(), "first".to_string())],
        finish_reason: "stop".to_string(),
        logprobs: None,
    };
    let second = ModelOutput {
        index: 1,
        message: vec![("content".to_string(), "second".to_string())],
        finish_reason: "stop".to_string(),
        logprobs: None,
    };
    let usage = Usage { prompt_tokens: Some(1), completion_tokens: Some(2), total_tokens: Some(3) };
    let (message, got) = NoChoices
        .parse(ProviderResponse { choices: vec![first, second], usage })
        .unwrap();
    assert_eq!(message, Message::assistant("first".to_string()));
    assert_eq!(got, usage);
}

#[test]
fn parse_without_content_is_empty() {
    let output = ModelOutput {
        index: 0,
        message: vec![("role".to_string(), "assistant".to_string())],
        finish_reason: "stop".to_string(),
        logprobs: None,
    };
    let r = NoChoices.parse(ProviderResponse { choices: vec![output], usage: Usage::new() });
    assert!(matches!(r, Err(ProviderError::EmptyResponse)));
}

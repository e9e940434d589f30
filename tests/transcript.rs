use air::transcript::{decode, encode, encode_block, role_regex, Decoder, Transcript, TranscriptError};
use air::{Message, Role};
use std::collections::HashSet;
use std::io::{Cursor, Read, Seek};

#[test]
fn test_role_regex() {
    let re = role_regex();
    let re_set = HashSet::<String>::from_iter(re.split('|').map(|s| s.to_string()));
    let enum_set: HashSet<String> =
        HashSet::from_iter(Role::all().into_iter().map(|r| r.name().to_uppercase() + ":"));
    assert!(re_set == enum_set, "{:?} != {:?}", re_set, enum_set);
}

#[test]
fn role_regex_text() {
    assert_eq!(role_regex(), "SYSTEM:|USER:|ASSISTANT:");
}

#[test]
fn test_transcript_single_format() -> Result<(), std::io::Error> {
    let buffer = Vec::<u8>::new();
    let mut sink = Cursor::new(buffer);
    let mut transcript = Transcript::conditionally(Some(&mut sink))?;

    let message = Message {
        role: Role::User,
        content: "Hello, world!".to_string(),
    };
    transcript.record(&message)?;

    sink.rewind()?;
    let mut contents = String::new();
    sink.read_to_string(&mut contents)?;
    println!("{:?}", contents);

    assert_eq!(contents, "USER:\nHello, world!\n\n");
    Ok(())
}

#[test]
fn test_transcript_interleaved() -> Result<(), std::io::Error> {
    let buffer = Vec::<u8>::new();
    let mut sink = Cursor::new(buffer);
    let mut transcript = Transcript::conditionally(Some(&mut sink))?;

    let messages = vec![
        Message {
            role: Role::User,
            content: "Hello, assistant!".to_string(),
        },
        Message {
            role: Role::Assistant,
            content: "Hello, user!".to_string(),
        },
        Message {
            role: Role::Assistant,
            content: "Hello again, user!".to_string(),
        },
    ];
    for message in messages {
        transcript.record(&message)?;
    }

    sink.rewind()?;
    let mut contents = String::new();
    sink.read_to_string(&mut contents)?;
    assert_eq!(
        contents,
        "USER:\nHello, assistant!\n\nASSISTANT:\nHello, user!\n\nASSISTANT:\nHello again, user!\n\n"
    );
    Ok(())
}

#[test]
fn test_load() -> Result<(), std::io::Error> {
    let buffer = Vec::<u8>::new();
    let mut sink = Cursor::new(buffer);
    let mut transcript = Transcript::new(&mut sink)?;

    let messages = vec![
        Message {
            role: Role::User,
            content: "Hello, assistant!".to_string(),
        },
        Message {
            role: Role::Assistant,
            content: "Hello, user!".to_string(),
        },
        Message {
            role: Role::Assistant,
            content: "Hello again, user!".to_string(),
        },
    ];
    for message in &messages {
        transcript.record(message)?;
    }

    sink.rewind()?;
    let mut text = String::new();
    sink.read_to_string(&mut text)?;
    let loaded = decode(&text).expect("a transcript that was just written");
    assert_eq!(loaded.len(), messages.len());
    for (message, loaded) in messages.iter().zip(loaded.iter()) {
        assert_eq!(message.role, loaded.role);
        assert_eq!(message.content, loaded.content);
    }
    Ok(())
}

#[test]
fn decode_single_block() {
    let loaded = decode("USER:\nHello, world!\n\n").unwrap();
    assert_eq!(loaded, vec![Message::new(Role::User, "Hello, world!".to_string())]);
}

#[test]
fn encode_three_messages() {
    let messages = vec![
        Message::user("Hello, assistant!".to_string()),
        Message::assistant("Hello, user!".to_string()),
        Message::assistant("Hello again, user!".to_string()),
    ];
    assert_eq!(
        encode(&messages),
        "USER:\nHello, assistant!\n\nASSISTANT:\nHello, user!\n\nASSISTANT:\nHello again, user!\n\n"
    );
}

#[test]
fn empty_transcript() {
    assert_eq!(encode(&[]), "");
    assert!(decode("").unwrap().is_empty());
}

#[test]
fn round_trip_multiline() {
    let messages = vec![
        Message::system("Be brief.".to_string()),
        Message::user("first line\n\nthird line\n  indented".to_string()),
        Message::assistant("".to_string()),
        Message::user("\nleading blank line".to_string()),
    ];
    let text = encode(&messages);
    assert_eq!(decode(&text).unwrap(), messages);
}

#[test]
fn trailing_space_is_trimmed() {
    let text = encode(&[Message::user("hello  \n\n".to_string())]);
    assert_eq!(text, "USER:\nhello  \n\n\n");
    assert_eq!(decode(&text).unwrap(), vec![Message::user("hello".to_string())]);
}

#[test]
fn carriage_returns_before_line_feeds_are_dropped() {
    let block = encode_block(&Message::assistant("a\r\nb\rc".to_string()));
    assert_eq!(block, "ASSISTANT:\na\nb\rc\n\n");
}

#[test]
fn start_is_case_insensitive() {
    let loaded = decode("user:\nhi\n").unwrap();
    assert_eq!(loaded, vec![Message::user("hi".to_string())]);
}

#[test]
fn invalid_start_is_refused() {
    match decode("HELLO:\nthere\n") {
        Err(TranscriptError::InvalidStart(name)) => assert_eq!(name, "HELLO"),
        other => panic!("expected an invalid start, got {:?}", other),
    }
}

#[test]
fn final_role_without_body() {
    let loaded = decode("USER:\nhi\nASSISTANT:\n").unwrap();
    assert_eq!(
        loaded,
        vec![Message::user("hi".to_string()), Message::assistant("".to_string())]
    );
}

#[test]
fn marker_inside_a_line_does_not_split() {
    let loaded = decode("USER:\nsay ASSISTANT: hi\n\n").unwrap();
    assert_eq!(loaded, vec![Message::user("say ASSISTANT: hi".to_string())]);
}

#[test]
fn marker_at_line_start_splits() {
    let loaded = decode("USER:\nUSER: again\n").unwrap();
    assert_eq!(
        loaded,
        vec![Message::user("".to_string()), Message::user("".to_string())]
    );
}

#[test]
fn decoder_reads_line_by_line() {
    let mut d = Decoder::new();
    for line in ["SYSTEM:\n", "rules\n", "\n", "USER:\n", "question"] {
        d.feed(line).unwrap();
    }
    assert_eq!(
        d.finish(),
        vec![Message::system("rules".to_string()), Message::user("question".to_string())]
    );
}

#[test]
fn transcript_without_sink_writes_nothing() {
    let mut transcript = Transcript::<Cursor<Vec<u8>>>::conditionally(None).unwrap();
    assert!(transcript.record(&Message::user("ignored".to_string())).is_ok());
}

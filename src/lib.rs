//! A conversation client's protocol layer: the role-tagged message model, the
//! backend abstraction with its response normalisation and error taxonomy, the
//! session that owns the running context, and the plain-text transcript codec.
use vstd::prelude::*;

pub mod client;
pub mod host;
pub mod profile;
pub mod text;
pub mod transcript;

use host::Usage;

verus! {

/// Who wrote a message in a conversation.
#[derive(Clone, Copy, Debug, PartialEq, Eq, Structural)]
pub enum Role {
    /// A "pre-prompt" message that guides the model's output.
    System,
    /// A user prompt.
    User,
    /// A reply from the model.
    Assistant,
}

/// The display name of a role: `System`, `User`, `Assistant`.
pub open spec fn role_name(r: Role) -> Seq<char> {
    match r {
        Role::System => seq!['S', 'y', 's', 't', 'e', 'm'],
        Role::User => seq!['U', 's', 'e', 'r'],
        Role::Assistant => seq!['A', 's', 's', 'i', 's', 't', 'a', 'n', 't'],
    }
}

/// The wire token of a role: its name in lower case.
pub open spec fn role_token(r: Role) -> Seq<char> {
    text::ascii_lower(role_name(r))
}

/// The transcript marker of a role: its name in upper case, then a colon.
pub open spec fn role_marker(r: Role) -> Seq<char> {
    text::ascii_upper(role_name(r)).push(':')
}

/// Every role, each once, in declaration order.
pub open spec fn all_roles() -> Seq<Role> {
    seq![Role::System, Role::User, Role::Assistant]
}

/// The role whose wire token is `s` when compared without regard to ASCII case.
pub open spec fn role_from_name(s: Seq<char>) -> Option<Role> {
    if text::ascii_lower(s) == role_token(Role::System) {
        Some(Role::System)
    } else if text::ascii_lower(s) == role_token(Role::User) {
        Some(Role::User)
    } else if text::ascii_lower(s) == role_token(Role::Assistant) {
        Some(Role::Assistant)
    } else {
        None
    }
}

impl Role {
    /// Every role, each once.
    pub fn all() -> (r: Vec<Role>)
        ensures
            r@ == all_roles(),
    {
        vec![Role::System, Role::User, Role::Assistant]
    }

    /// The display name (`System`, `User`, `Assistant`).
    pub fn name(&self) -> (r: &'static str)
        ensures
            r@ == role_name(*self),
    {
        match self {
            Role::System => {
                proof { reveal_strlit("System"); }
                "System"
            },
            Role::User => {
                proof { reveal_strlit("User"); }
                "User"
            },
            Role::Assistant => {
                proof { reveal_strlit("Assistant"); }
                "Assistant"
            },
        }
    }

    /// The lowercase token used in wire payloads.
    pub fn token(&self) -> (r: &'static str)
        ensures
            r@ == role_token(*self),
    {
        match self {
            Role::System => {
                proof { reveal_strlit("system"); }
                assert(role_token(*self) =~= "system"@);
                "system"
            },
            Role::User => {
                proof { reveal_strlit("user"); }
                assert(role_token(*self) =~= "user"@);
                "user"
            },
            Role::Assistant => {
                proof { reveal_strlit("assistant"); }
                assert(role_token(*self) =~= "assistant"@);
                "assistant"
            },
        }
    }

    /// Whether `s`, compared without regard to ASCII case, is this role's token.
    fn names(&self, s: &[char]) -> (r: bool)
        ensures
            r == (text::ascii_lower(s@) == role_token(*self)),
    {
        let tok = text::chars_of(self.token());
        if s.len() != tok.len() {
            return false;
        }
        let mut i: usize = 0;
        while i < s.len()
            invariant
                i <= s@.len() == tok@.len(),
                tok@ == role_token(*self),
                forall|j: int| 0 <= j < i ==> text::lower_char(s@[j]) == tok@[j],
            decreases s@.len() - i,
        {
            if !text::lowers_to(s[i], tok[i]) {
                assert(text::ascii_lower(s@)[i as int] != role_token(*self)[i as int]);
                return false;
            }
            i += 1;
        }
        assert(text::ascii_lower(s@) =~= role_token(*self));
        true
    }

    /// The role whose token the characters spell, ASCII case ignored.
    pub fn from_chars(s: &[char]) -> (r: Option<Role>)
        ensures
            r == role_from_name(s@),
    {
        if Role::System.names(s) {
            Some(Role::System)
        } else if Role::User.names(s) {
            Some(Role::User)
        } else if Role::Assistant.names(s) {
            Some(Role::Assistant)
        } else {
            None
        }
    }

    /// Reads a role from its name, ASCII case ignored (`user`, `User`,
    /// `USER`); anything else is handed back as the error.
    pub fn parse(s: &str) -> (r: Result<Role, String>)
        ensures
            match role_from_name(s@) {
                Some(role) => r == Ok::<Role, String>(role),
                None => r is Err && r->Err_0@ == s@,
            },
    {
        let cs = text::chars_of(s);
        match Role::from_chars(cs.as_slice()) {
            Some(role) => Ok(role),
            None => Err(s.to_owned()),
        }
    }

    /// The marker line's text in a transcript (`SYSTEM:`, `USER:`, `ASSISTANT:`).
    pub fn marker(&self) -> (r: &'static str)
        ensures
            r@ == role_marker(*self),
    {
        match self {
            Role::System => {
                proof { reveal_strlit("SYSTEM:"); }
                assert(role_marker(*self) =~= "SYSTEM:"@);
                "SYSTEM:"
            },
            Role::User => {
                proof { reveal_strlit("USER:"); }
                assert(role_marker(*self) =~= "USER:"@);
                "USER:"
            },
            Role::Assistant => {
                proof { reveal_strlit("ASSISTANT:"); }
                assert(role_marker(*self) =~= "ASSISTANT:"@);
                "ASSISTANT:"
            },
        }
    }
}

impl std::str::FromStr for Role {
    type Err = String;

    fn from_str(s: &str) -> Result<Role, String> {
        Role::parse(s)
    }
}

/// One turn of a conversation: who wrote it, and its text (possibly empty or
/// spanning several lines).
#[derive(Clone, Debug)]
pub struct Message {
    pub role: Role,
    pub content: String,
}

impl View for Message {
    type V = (Role, Seq<char>);

    open spec fn view(&self) -> (Role, Seq<char>) {
        (self.role, self.content@)
    }
}

/// The views of a sequence of messages.
pub open spec fn views(ms: Seq<Message>) -> Seq<(Role, Seq<char>)> {
    ms.map_values(|m: Message| m@)
}

impl PartialEq for Message {
    fn eq(&self, other: &Message) -> (r: bool) {
        self.role == other.role && self.content == other.content
    }
}

impl vstd::std_specs::cmp::PartialEqSpecImpl for Message {
    open spec fn obeys_eq_spec() -> bool {
        true
    }

    open spec fn eq_spec(&self, other: &Message) -> bool {
        self@ == other@
    }
}

impl Message {
    pub fn new(role: Role, content: String) -> (r: Message)
        ensures
            r.role == role,
            r.content == content,
    {
        Message { role, content }
    }

    pub fn user(content: String) -> (r: Message)
        ensures
            r.role == Role::User,
            r.content == content,
    {
        Message { role: Role::User, content }
    }

    pub fn system(content: String) -> (r: Message)
        ensures
            r.role == Role::System,
            r.content == content,
    {
        Message { role: Role::System, content }
    }

    pub fn assistant(content: String) -> (r: Message)
        ensures
            r.role == Role::Assistant,
            r.content == content,
    {
        Message { role: Role::Assistant, content }
    }
}

/// One candidate completion in a backend's reply. Its message is the list of
/// the JSON object's fields, in any order, each key once.
pub struct ModelOutput {
    pub index: usize,
    pub message: Vec<(String, String)>,
    pub finish_reason: String,
    pub logprobs: Option<serde_json::Value>,
}

/// A reply in the "candidate completions plus usage" shape.
pub struct ProviderResponse {
    pub choices: Vec<ModelOutput>,
    pub usage: Usage,
}

/// `serde_json::Value`, carried opaquely: a candidate's log-probabilities.
#[verifier::external_type_specification]
#[verifier::external_body]
pub struct ExJsonValue(serde_json::Value);

/// `serde_json::Error`, carried opaquely: why a reply's body could not be read.
#[verifier::external_type_specification]
#[verifier::external_body]
pub struct ExJsonError(serde_json::Error);

/// How an exchange with a backend can fail.
#[derive(Debug)]
pub enum ProviderError {
    /// The backend answered with a non-success HTTP status.
    HttpError(u16),
    /// The reply's body did not have the expected shape.
    ParsingError(serde_json::Error),
    /// The reply was well-formed but held no answer.
    EmptyResponse,
    /// The transport failed without an HTTP status (refused, DNS, timeout).
    UnknownError,
}

impl ProviderError {
    /// The error for a failed request: an HTTP error when a status came back,
    /// else an unknown one.
    pub fn from_status(status: Option<u16>) -> (r: ProviderError)
        ensures
            r == match status {
                Some(code) => ProviderError::HttpError(code),
                None => ProviderError::UnknownError,
            },
    {
        match status {
            Some(code) => ProviderError::HttpError(code),
            None => ProviderError::UnknownError,
        }
    }
}

/// The key under which a candidate's message holds its text.
pub open spec fn content_key() -> Seq<char> {
    seq!['c', 'o', 'n', 't', 'e', 'n', 't']
}

/// The value of the first field named `content`, if any.
pub open spec fn content_of(fields: Seq<(String, String)>) -> Option<String>
    decreases fields.len(),
{
    if fields.len() == 0 {
        None
    } else if fields[0].0@ == content_key() {
        Some(fields[0].1)
    } else {
        content_of(fields.drop_first())
    }
}

/// The reply message and usage in a response: the text of the first
/// candidate, or `EmptyResponse` when there is no candidate or it has no text.
pub open spec fn parsed(response: ProviderResponse) -> Result<(Message, Usage), ProviderError> {
    if response.choices@.len() == 0 {
        Err(ProviderError::EmptyResponse)
    } else {
        match content_of(response.choices@[0].message@) {
            Some(text) => Ok((Message { role: Role::Assistant, content: text }, response.usage)),
            None => Err(ProviderError::EmptyResponse),
        }
    }
}

/// The position of the first field named `content`.
fn content_index(fields: &Vec<(String, String)>) -> (r: Option<usize>)
    ensures
        match r {
            Some(i) => i < fields@.len() && content_of(fields@) == Some(fields@[i as int].1),
            None => content_of(fields@) is None,
        },
{
    let key = "content".to_owned();
    proof {
        reveal_strlit("content");
        assert(key@ =~= content_key());
    }
    let mut i: usize = 0;
    assert(fields@.subrange(0, fields@.len() as int) =~= fields@);
    while i < fields.len()
        invariant
            i <= fields@.len(),
            key@ == content_key(),
            content_of(fields@) == content_of(fields@.subrange(i as int, fields@.len() as int)),
        decreases fields@.len() - i,
    {
        let ghost rest = fields@.subrange(i as int, fields@.len() as int);
        if fields[i].0 == key {
            return Some(i);
        }
        assert(rest.drop_first() =~= fields@.subrange(i + 1, fields@.len() as int));
        i += 1;
    }
    None
}

/// A backend that exchanges a conversation for a reply. Implementations make
/// the network call; the reply's normalisation is shared.
pub trait Provider {
    /// Extracts the reply and usage from a response in the "candidate
    /// completions plus usage" shape.
    fn parse(&self, response: ProviderResponse) -> (r: Result<(Message, Usage), ProviderError>)
        ensures
            r == parsed(response),
    {
        if response.choices.len() == 0 {
            return Err(ProviderError::EmptyResponse);
        }
        let usage = response.usage;
        let mut choices = response.choices;
        let first = choices.swap_remove(0);
        let mut fields = first.message;
        match content_index(&fields) {
            Some(i) => {
                let (_, text) = fields.swap_remove(i);
                Ok((Message { role: Role::Assistant, content: text }, usage))
            },
            None => Err(ProviderError::EmptyResponse),
        }
    }

    /// Sends the whole conversation and returns the backend's reply with the
    /// usage it reported.
    fn send(&self, context: &[Message]) -> Result<(Message, Usage), ProviderError>;

    /// The identifiers of the models the backend offers.
    fn models(&self) -> Result<Vec<String>, ProviderError>;
}

} // verus!

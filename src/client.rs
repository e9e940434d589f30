//! A conversation session: the running context, one backend, and the tokens
//! used so far.
use vstd::prelude::*;

use crate::host::Usage;
use crate::{parsed, Message, Provider, ProviderError, ProviderResponse};

verus! {

/// Settings fixed when a client is built.
pub struct ClientConfig {
    pub model_name: Option<String>,
    pub max_tokens: Option<usize>,
    pub verbose: bool,
}

impl Default for ClientConfig {
    fn default() -> (r: ClientConfig)
        ensures
            r.model_name is None,
            r.max_tokens is None,
            !r.verbose,
    {
        ClientConfig { model_name: None, max_tokens: None, verbose: false }
    }
}

/// The running token count after an exchange that used `total` tokens: the
/// sum while both are known and it fits in a `u64`, unknown for good after.
pub open spec fn folded(total: Option<u64>, running: Option<u64>) -> Option<u64> {
    match (total, running) {
        (Some(x), Some(y)) => if x + y <= u64::MAX {
            Some((x + y) as u64)
        } else {
            None
        },
        _ => None,
    }
}

/// Adds an exchange's token total to the running count (see `folded`).
pub fn fold(total: Option<u64>, running: Option<u64>) -> (r: Option<u64>)
    ensures
        r == folded(total, running),
{
    match (total, running) {
        (Some(x), Some(y)) => x.checked_add(y),
        _ => None,
    }
}

/// The context and token count after the backend's answer to a turn: a reply
/// is added and its usage folded in; a failure leaves both as they were.
pub open spec fn settled(
    history: Seq<Message>,
    tokens: Option<u64>,
    outcome: Result<(Message, Usage), ProviderError>,
) -> (Seq<Message>, Option<u64>) {
    match outcome {
        Ok((reply, usage)) => (history.push(reply), folded(usage.total_tokens, tokens)),
        Err(_) => (history, tokens),
    }
}

/// A backend that answers with no candidate fails the turn with
/// `EmptyResponse`, and the turn's message stays the last of the context.
pub proof fn lemma_empty_reply_keeps_turn(
    history: Seq<Message>,
    tokens: Option<u64>,
    content: Message,
    response: ProviderResponse,
)
    requires
        response.choices@.len() == 0,
    ensures
        parsed(response) == Err::<(Message, Usage), ProviderError>(ProviderError::EmptyResponse),
        settled(history.push(content), tokens, parsed(response)) == (history.push(content), tokens),
        settled(history.push(content), tokens, parsed(response)).0.last() == content,
{
}

/// A conversation with one backend. Every exchange sends the whole context.
pub struct Client<P> {
    pub context: Vec<Message>,
    pub tokens_sent: Option<u64>,
    provider: P,
    config: ClientConfig,
}

impl<P: Provider> Client<P> {
    /// The backend this client talks to.
    pub closed spec fn backend(&self) -> P {
        self.provider
    }

    /// The conversation so far.
    pub closed spec fn history(&self) -> Seq<Message> {
        self.context@
    }

    /// The tokens used so far, if known.
    pub closed spec fn tokens(&self) -> Option<u64> {
        self.tokens_sent
    }

    /// The settings this client was given.
    pub closed spec fn settings(&self) -> ClientConfig {
        self.config
    }

    /// A client with an empty context, no tokens used, and default settings.
    pub fn new(provider: P) -> (r: Client<P>)
        ensures
            r.history().len() == 0,
            r.tokens() == Some(0u64),
            r.backend() == provider,
            r.settings().model_name is None,
            r.settings().max_tokens is None,
            !r.settings().verbose,
    {
        Client { context: Vec::new(), tokens_sent: Some(0), provider, config: ClientConfig::default() }
    }

    /// The same client with other settings.
    pub fn config(self, config: ClientConfig) -> (r: Client<P>)
        ensures
            r.settings() == config,
            r.history() == self.history(),
            r.tokens() == self.tokens(),
            r.backend() == self.backend(),
    {
        let mut c = self;
        c.config = config;
        c
    }

    /// The same client with other settings.
    pub fn with(self, config: ClientConfig) -> (r: Client<P>)
        ensures
            r.settings() == config,
            r.history() == self.history(),
            r.tokens() == self.tokens(),
            r.backend() == self.backend(),
    {
        self.config(config)
    }

    /// The same client, continuing from `context`.
    pub fn with_context(self, context: Vec<Message>) -> (r: Client<P>)
        ensures
            r.history() == context@,
            r.settings() == self.settings(),
            r.tokens() == self.tokens(),
            r.backend() == self.backend(),
    {
        let mut c = self;
        c.context = context;
        c
    }

    /// Empties the context; the token count stays.
    pub fn clear(&mut self)
        ensures
            final(self).history().len() == 0,
            final(self).tokens() == old(self).tokens(),
            final(self).backend() == old(self).backend(),
            final(self).settings() == old(self).settings(),
    {
        self.context.clear();
    }

    /// Takes the backend's answer to the turn in progress: a reply is added to
    /// the context and its usage to the count; a failure changes nothing.
    pub fn settle(&mut self, outcome: Result<(Message, Usage), ProviderError>) -> (r: Result<
        &Message,
        ProviderError,
    >)
        ensures
            final(self).backend() == old(self).backend(),
            final(self).settings() == old(self).settings(),
            (final(self).history(), final(self).tokens()) == settled(
                old(self).history(),
                old(self).tokens(),
                outcome,
            ),
            match outcome {
                Ok((reply, _)) => r is Ok && *r->Ok_0 == reply,
                Err(e) => r == Err::<&Message, ProviderError>(e),
            },
    {
        match outcome {
            Ok((reply, usage)) => {
                self.context.push(reply);
                self.tokens_sent = fold(usage.total_tokens, self.tokens_sent);
                let last = self.context.len() - 1;
                Ok(&self.context[last])
            },
            Err(e) => Err(e),
        }
    }

    /// Adds `content` to the context, sends the whole context to the backend,
    /// and settles its answer (see `settle`). On failure the message stays in
    /// the context: the attempted turn is part of the history.
    pub fn send(&mut self, content: Message) -> (r: Result<&Message, ProviderError>)
        ensures
            final(self).backend() == old(self).backend(),
            final(self).settings() == old(self).settings(),
            match r {
                Ok(reply) => {
                    &&& final(self).history() == old(self).history().push(content).push(*reply)
                    &&& old(self).tokens() is None ==> final(self).tokens() is None
                },
                Err(_) => {
                    &&& final(self).history() == old(self).history().push(content)
                    &&& final(self).tokens() == old(self).tokens()
                },
            },
    {
        self.context.push(content);
        let outcome = self.provider.send(self.context.as_slice());
        self.settle(outcome)
    }
}

} // verus!

//! The backends a client can talk to, and the token usage they report.
use vstd::prelude::*;

verus! {

/// Token counts that a backend reports for one exchange; each may be unknown.
#[derive(Clone, Copy, Debug, PartialEq, Eq, Structural)]
pub struct Usage {
    pub prompt_tokens: Option<u64>,
    pub completion_tokens: Option<u64>,
    pub total_tokens: Option<u64>,
}

impl Usage {
    /// Usage with every count unknown.
    pub fn new() -> (r: Usage)
        ensures
            r.prompt_tokens is None,
            r.completion_tokens is None,
            r.total_tokens is None,
    {
        Usage { prompt_tokens: None, completion_tokens: None, total_tokens: None }
    }
}

/// The backends a client can be built for.
#[derive(Clone, Copy, Debug, PartialEq, Eq, Structural)]
pub enum Host {
    Custom,
    OpenAI,
}

/// The hosted chat-completion service. Its requests carry the model's name and
/// the key as a bearer token.
pub struct OpenAI {
    name: String,
    key: String,
}

/// One entry of the model-listing endpoint's reply.
pub struct ModelEndpointEntity {
    pub id: String,
    pub object: String,
    pub owned_by: String,
}

/// The model-listing endpoint's reply.
pub struct ModelEndpointResponse {
    pub object: String,
    pub data: Vec<ModelEndpointEntity>,
}

/// The kind that marks an entry of the listing as a model.
pub open spec fn model_kind() -> Seq<char> {
    seq!['m', 'o', 'd', 'e', 'l']
}

/// The identifiers of the entries that are models, in listing order.
pub open spec fn model_ids(entries: Seq<ModelEndpointEntity>) -> Seq<Seq<char>>
    decreases entries.len(),
{
    if entries.len() == 0 {
        Seq::empty()
    } else if entries.last().object@ == model_kind() {
        model_ids(entries.drop_last()).push(entries.last().id@)
    } else {
        model_ids(entries.drop_last())
    }
}

/// The service's address, without a trailing slash.
pub open spec fn base_url() -> Seq<char> {
    "https://api.openai.com/v1"@
}

/// The name of the model used when none is given.
pub open spec fn default_model() -> Seq<char> {
    "gpt-3.5-turbo"@
}

impl OpenAI {
    /// The model's name.
    pub closed spec fn model(&self) -> Seq<char> {
        self.name@
    }

    /// The key sent as a bearer token.
    pub closed spec fn secret(&self) -> Seq<char> {
        self.key@
    }

    pub fn new(name: String, key: String) -> (r: OpenAI)
        ensures
            r.model() == name@,
            r.secret() == key@,
    {
        OpenAI { name, key }
    }

    pub fn name(&self) -> (r: &str)
        ensures
            r@ == self.model(),
    {
        self.name.as_str()
    }

    pub fn key(&self) -> (r: &str)
        ensures
            r@ == self.secret(),
    {
        self.key.as_str()
    }

    /// The model named, or the default one.
    pub fn model_or_default(name: Option<String>) -> (r: String)
        ensures
            r@ == match name {
                Some(n) => n@,
                None => default_model(),
            },
    {
        match name {
            Some(n) => n,
            None => "gpt-3.5-turbo".to_owned(),
        }
    }

    /// Where chat completions are requested.
    pub fn chat_url() -> (r: String)
        ensures
            r@ == base_url() + "/chat/completions"@,
    {
        let mut u = "https://api.openai.com/v1".to_owned();
        u.append("/chat/completions");
        u
    }

    /// Where the model listing is requested.
    pub fn models_url() -> (r: String)
        ensures
            r@ == base_url() + "/models"@,
    {
        let mut u = "https://api.openai.com/v1".to_owned();
        u.append("/models");
        u
    }

    /// The identifiers of the listed entries that are models.
    pub fn select_models(response: ModelEndpointResponse) -> (r: Vec<String>)
        ensures
            r@.map_values(|s: String| s@) == model_ids(response.data@),
    {
        let kind = "model".to_owned();
        proof {
            reveal_strlit("model");
            assert(kind@ =~= model_kind());
        }
        let data = response.data;
        let mut r: Vec<String> = Vec::new();
        let mut i: usize = 0;
        assert(data@.subrange(0, 0) =~= Seq::<ModelEndpointEntity>::empty());
        while i < data.len()
            invariant
                i <= data@.len(),
                kind@ == model_kind(),
                r@.map_values(|s: String| s@) == model_ids(data@.subrange(0, i as int)),
            decreases data@.len() - i,
        {
            let ghost upto = data@.subrange(0, i + 1);
            assert(upto.drop_last() =~= data@.subrange(0, i as int));
            if data[i].object == kind {
                r.push(data[i].id.clone());
            }
            assert(r@.map_values(|s: String| s@) =~= model_ids(upto));
            i += 1;
        }
        assert(data@.subrange(0, i as int) =~= data@);
        r
    }
}

/// `url::Url`, carried opaquely: a custom backend's address.
#[verifier::external_type_specification]
#[verifier::external_body]
pub struct ExUrl(url::Url);

/// A backend at an address of the user's choosing, which answers a posted
/// conversation with the reply's text.
pub struct Custom {
    url: url::Url,
}

impl Custom {
    /// The backend's address.
    pub closed spec fn location(&self) -> url::Url {
        self.url
    }

    pub fn new(url: url::Url) -> (r: Custom)
        ensures
            r.location() == url,
    {
        Custom { url }
    }

    pub fn url(&self) -> (r: &url::Url)
        ensures
            *r == self.location(),
    {
        &self.url
    }

    /// How the backend presents itself, given its address's host name.
    pub fn label(host: Option<&str>) -> (r: String)
        ensures
            r@ == "Custom model at "@ + match host {
                Some(h) => h@,
                None => "unknown location"@,
            },
    {
        let mut s = "Custom model at ".to_owned();
        match host {
            Some(h) => s.append(h),
            None => s.append("unknown location"),
        }
        s
    }
}

} // verus!

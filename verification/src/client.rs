//! What the client of a llama-server decides: the URLs, the model, the request, and whether a
//! failed request is tried again.

use crate::line_format::{
    ChatCompletion, ChatMessage, ModelInfo, Models, StreamOptions, ToolChoice, ToolDefinition,
};
use crate::text::{
    decimal, is_part_of, join, joins_hold_their_parts, lemma_part, lemma_part_of_part,
    push_decimal, push_joined, same_text, texts, trim_end_char, without_trailing,
};
use vstd::prelude::*;

verus! {

/// Connection to llama-server
#[derive(Debug)]
pub struct Client {
    /// Chat endpoint URL
    url: String,
    /// Model to use
    model: String,
    /// Context size in tokens
    context_size: Option<u64>,
    /// Token usage (how much of the context is used)
    token_usage: TokenUsage,
}

/// Token counts from a completed chat request
#[derive(Clone, Copy, Debug, PartialEq, Eq, Structural)]
pub struct TokenUsage {
    /// Tokens in the prompt
    pub prompt_tokens: usize,
    /// New tokens produced
    pub completion_tokens: usize,
    /// Tokens being streamed
    pub streamed_tokens: usize,
}

impl Default for TokenUsage {
    fn default() -> (r: Self)
        ensures
            r == (TokenUsage { prompt_tokens: 0, completion_tokens: 0, streamed_tokens: 0 }),
    {
        TokenUsage { prompt_tokens: 0, completion_tokens: 0, streamed_tokens: 0 }
    }
}

impl TokenUsage {
    /// The full sum of all tokens in the context
    pub fn sum(&self) -> (r: usize)
        requires
            self.prompt_tokens + self.completion_tokens + self.streamed_tokens <= usize::MAX,
        ensures
            r == self.prompt_tokens + self.completion_tokens + self.streamed_tokens,
    {
        self.prompt_tokens + self.completion_tokens + self.streamed_tokens
    }
}

/// What came back when the server was asked for its models
#[derive(Debug)]
pub enum ModelsReply {
    /// The request or the reading of its answer failed with this error
    Unanswered(String),
    /// The server answered with a status other than success
    Refused { status: String, body: String },
    /// The answer is not a list of models
    Unreadable { body: String, error: String },
    /// The list of models
    Listed(Models),
}

/// Whether a request that could not be sent is sent again
#[derive(Debug)]
pub enum Retry {
    /// Send it again after this many milliseconds
    After(u64),
    /// Give up with this error
    GiveUp(String),
}

/// How often a chat request is sent at most
pub const MAX_ATTEMPTS: usize = 3;

/// Whether no attempt follows one that failed: the error is not benign, or enough attempts have been
/// made.
pub open spec fn gives_up(attempt: nat, max_attempts: nat, is_transient: bool) -> bool {
    !is_transient || attempt >= max_attempts
}

/// How many attempts are made in all, where attempt number `attempt` and all after it fail, each
/// with a benign error or not as `benign` tells.
pub open spec fn attempts_made(
    benign: spec_fn(nat) -> bool,
    max_attempts: nat,
    attempt: nat,
) -> nat
    decreases max_attempts - attempt,
{
    if gives_up(attempt, max_attempts, benign(attempt)) {
        attempt
    } else {
        attempts_made(benign, max_attempts, attempt + 1)
    }
}

/// A request is sent no more often than it may be, and as often as that where all errors are benign;
/// one that is not benign ends it.
pub proof fn benign_errors_are_retried(
    benign: spec_fn(nat) -> bool,
    max_attempts: nat,
    attempt: nat,
)
    requires
        1 <= attempt <= max_attempts,
    ensures
        attempt <= attempts_made(benign, max_attempts, attempt) <= max_attempts,
        (forall|i: nat| attempt <= i < max_attempts ==> #[trigger] benign(i)) ==> attempts_made(
            benign,
            max_attempts,
            attempt,
        ) == max_attempts,
        attempts_made(benign, max_attempts, attempt) < max_attempts ==> !benign(
            attempts_made(benign, max_attempts, attempt),
        ),
    decreases max_attempts - attempt,
{
    if !gives_up(attempt, max_attempts, benign(attempt)) {
        benign_errors_are_retried(benign, max_attempts, attempt + 1);
    }
}

/// A chat request is sent three times where the first two attempts fail with benign errors, and ends
/// with the first that does not.
pub proof fn chat_requests_are_sent_up_to_three_times(benign: spec_fn(nat) -> bool)
    ensures
        attempts_made(benign, MAX_ATTEMPTS as nat, 1) == if !benign(1) {
            1nat
        } else if !benign(2) {
            2nat
        } else {
            3nat
        },
{
    reveal_with_fuel(attempts_made, 4);
}

/// A base URL without the slashes at its end.
pub open spec fn server_base(base_url: Seq<char>) -> Seq<char> {
    trim_end_char(base_url, '/')
}

/// Where the server lists its models.
pub open spec fn models_url_of(base_url: Seq<char>) -> Seq<char> {
    server_base(base_url) + "/v1/models"@
}

/// Where the server takes chats.
pub open spec fn chat_url_of(base_url: Seq<char>) -> Seq<char> {
    server_base(base_url) + "/v1/chat/completions"@
}

/// Whether a model goes by a name.
pub open spec fn goes_by(model: ModelInfo, name: Seq<char>) -> bool {
    model.id@ == name || texts(model.aliases@).contains(name)
}

/// The name of the model to look for.
pub open spec fn sought_name(name: Option<Seq<char>>) -> Seq<char> {
    match name {
        Some(name) => name,
        None => "default"@,
    }
}

/// The index of the first model that goes by a name.
pub open spec fn first_named(models: Seq<ModelInfo>, name: Seq<char>) -> Option<int>
    decreases models.len(),
{
    if models.len() == 0 {
        None
    } else {
        match first_named(models.drop_last(), name) {
            Some(i) => Some(i),
            None => if goes_by(models.last(), name) {
                Some(models.len() - 1)
            } else {
                None
            },
        }
    }
}

/// The model to use: the only one where none is named, else the first that goes by the name, which
/// is `default` where none is named.
pub open spec fn chosen_model(models: Seq<ModelInfo>, name: Option<Seq<char>>) -> Option<int> {
    if name is None && models.len() == 1 {
        Some(0)
    } else {
        first_named(models, sought_name(name))
    }
}

/// An alias, as the list of available models shows it.
pub open spec fn shown_alias(alias: Seq<char>) -> Seq<char> {
    "\""@ + alias + "\")"@
}

/// A model, as the list of available models shows it.
pub open spec fn shown_model(model: ModelInfo) -> Seq<char> {
    "- "@ + model.id@ + " (aliases: "@ + join(
        texts(model.aliases@).map_values(|a: Seq<char>| shown_alias(a)),
        ", "@,
    ) + ")"@
}

/// What is said where no model goes by a name.
pub open spec fn no_model_text(models: Seq<ModelInfo>, name: Seq<char>) -> Seq<char> {
    "Model \""@ + name + "\" not found, available models:\n"@ + join(
        models.map_values(|m: ModelInfo| shown_model(m)),
        ", "@,
    )
}

/// The view of an optional name.
pub open spec fn name_view(name: Option<&str>) -> Option<Seq<char>> {
    match name {
        Some(name) => Some(name@),
        None => None,
    }
}

/// Whether a model goes by a name.
fn has_name(model: &ModelInfo, name: &str) -> (r: bool)
    ensures
        r == goes_by(*model, name@),
{
    if same_text(model.id.as_str(), name) {
        return true;
    }
    for i in 0..model.aliases.len()
        invariant
            forall|j: int| 0 <= j < i ==> model.aliases@[j]@ != name@,
    {
        if same_text(model.aliases[i].as_str(), name) {
            assert(texts(model.aliases@)[i as int] == name@);
            return true;
        }
    }
    assert forall|j: int| 0 <= j < texts(model.aliases@).len() implies texts(model.aliases@)[j]
        != name@ by {}
    false
}

/// A model, as the list of available models shows it.
fn model_line(model: &ModelInfo) -> (r: String)
    ensures
        r@ == shown_model(*model),
{
    let mut shown: Vec<String> = Vec::new();
    for i in 0..model.aliases.len()
        invariant
            texts(shown@) == texts(model.aliases@).take(i as int).map_values(
                |a: Seq<char>| shown_alias(a),
            ),
    {
        let mut alias = String::new();
        alias.append("\"");
        alias.append(model.aliases[i].as_str());
        alias.append("\")");
        let ghost before = shown@;
        shown.push(alias);
        proof {
            assert(alias@ =~= shown_alias(model.aliases@[i as int]@));
            assert(texts(shown@) =~= texts(before).push(alias@));
            assert(texts(model.aliases@).take(i + 1) =~= texts(model.aliases@).take(i as int).push(
                model.aliases@[i as int]@,
            ));
            assert(texts(shown@) =~= texts(model.aliases@).take(i + 1).map_values(
                |a: Seq<char>| shown_alias(a),
            ));
        }
    }
    assert(texts(model.aliases@).take(model.aliases@.len() as int) =~= texts(model.aliases@));
    let mut out = String::new();
    out.append("- ");
    out.append(model.id.as_str());
    out.append(" (aliases: ");
    push_joined(&mut out, &shown, ", ");
    out.append(")");
    assert(out@ =~= shown_model(*model));
    out
}

/// What is said where no model goes by a name.
fn no_model_message(models: &Vec<ModelInfo>, name: &str) -> (r: String)
    ensures
        r@ == no_model_text(models@, name@),
{
    let mut shown: Vec<String> = Vec::new();
    for i in 0..models.len()
        invariant
            texts(shown@) == models@.take(i as int).map_values(|m: ModelInfo| shown_model(m)),
    {
        let line = model_line(&models[i]);
        let ghost before = shown@;
        shown.push(line);
        proof {
            assert(texts(shown@) =~= texts(before).push(line@));
            assert(models@.take(i + 1) =~= models@.take(i as int).push(models@[i as int]));
            assert(texts(shown@) =~= models@.take(i + 1).map_values(
                |m: ModelInfo| shown_model(m),
            ));
        }
    }
    assert(models@.take(models@.len() as int) =~= models@);
    let mut out = String::new();
    out.append("Model \"");
    out.append(name);
    out.append("\" not found, available models:\n");
    push_joined(&mut out, &shown, ", ");
    assert(out@ =~= no_model_text(models@, name@));
    out
}

/// The URL to ask for the models that a server has.
pub fn models_url(base_url: &str) -> (r: String)
    ensures
        r@ == models_url_of(base_url@),
{
    let mut url = without_trailing(base_url, '/');
    url.append("/v1/models");
    url
}

/// The index of the model to use.
fn select_model(models: &Vec<ModelInfo>, model_name: Option<&str>) -> (r: Option<usize>)
    ensures
        match r {
            Some(i) => i < models@.len() && chosen_model(models@, name_view(model_name)) == Some(
                i as int,
            ),
            None => chosen_model(models@, name_view(model_name)) is None,
        },
{
    if model_name.is_none() && models.len() == 1 {
        return Some(0);
    }
    let name = match model_name {
        Some(name) => name,
        None => "default",
    };
    for i in 0..models.len()
        invariant
            first_named(models@.take(i as int), name@) is None,
            name@ == sought_name(name_view(model_name)),
            !(model_name is None && models@.len() == 1),
    {
        proof {
            assert(models@.take(i + 1).drop_last() =~= models@.take(i as int));
        }
        if has_name(&models[i], name) {
            proof {
                lemma_first_named(models@, name@, i + 1);
            }
            return Some(i);
        }
    }
    assert(models@.take(models@.len() as int) =~= models@);
    None
}

/// The first model by a name among the first `k` is the first among all.
proof fn lemma_first_named(models: Seq<ModelInfo>, name: Seq<char>, k: int)
    requires
        0 <= k <= models.len(),
        first_named(models.take(k), name) is Some,
    ensures
        first_named(models, name) == first_named(models.take(k), name),
    decreases models.len() - k,
{
    if k < models.len() {
        assert(models.take(k + 1).drop_last() =~= models.take(k));
        lemma_first_named(models, name, k + 1);
    } else {
        assert(models.take(k) =~= models);
    }
}

impl Client {
    /// The chat endpoint URL.
    pub closed spec fn url(&self) -> Seq<char> {
        self.url@
    }

    /// The name of the model in use.
    pub closed spec fn model(&self) -> Seq<char> {
        self.model@
    }

    /// The number of tokens that fit into the context.
    pub closed spec fn context(&self) -> Option<u64> {
        self.context_size
    }

    /// The token counts.
    pub closed spec fn usage(&self) -> TokenUsage {
        self.token_usage
    }

    /// Whether the token counts are the given ones, and all else is as in `other`.
    pub open spec fn counts(&self, usage: TokenUsage, other: &Self) -> bool {
        &&& self.usage() == usage
        &&& self.url() == other.url()
        &&& self.model() == other.model()
        &&& self.context() == other.context()
    }

    /// A client for the server at `base_url`, given what it said of its models.
    ///
    /// If `model_name` is given, select the given model from what is available on the server. If
    /// `None`, and there is only a single model, select that; if there are more, select the
    /// `"default"` model.
    pub fn new(base_url: &str, model_name: Option<&str>, reply: ModelsReply) -> (r: Result<
        Self,
        String,
    >)
        ensures
            match reply {
                ModelsReply::Unanswered(error) => r matches Err(e) && e@
                    == "Failed to query model info on "@ + models_url_of(base_url@) + ": "@
                    + error@,
                ModelsReply::Refused { status, body } => r matches Err(e) && e@
                    == "Failed to query model info on "@ + models_url_of(base_url@) + ": "@
                    + status@ + ": "@ + body@,
                ModelsReply::Unreadable { body, error } => r matches Err(e) && e@
                    == "Failed to parse model info from "@ + models_url_of(base_url@) + ": "@
                    + body@ + ": "@ + error@,
                ModelsReply::Listed(models) => match chosen_model(
                    models.data@,
                    name_view(model_name),
                ) {
                    Some(i) => r matches Ok(client) && client.url() == chat_url_of(base_url@)
                        && client.model() == models.data@[i].id@ && client.context()
                        == models.data@[i].n_ctx && client.usage() == (TokenUsage {
                        prompt_tokens: 0,
                        completion_tokens: 0,
                        streamed_tokens: 0,
                    }),
                    None => r matches Err(e) && e@ == no_model_text(
                        models.data@,
                        sought_name(name_view(model_name)),
                    ),
                },
            },
    {
        let url = models_url(base_url);
        let mut message = String::new();
        match reply {
            ModelsReply::Unanswered(error) => {
                message.append("Failed to query model info on ");
                message.append(url.as_str());
                message.append(": ");
                message.append(error.as_str());
                assert(message@ =~= "Failed to query model info on "@ + models_url_of(base_url@)
                    + ": "@ + error@);
                Err(message)
            },
            ModelsReply::Refused { status, body } => {
                message.append("Failed to query model info on ");
                message.append(url.as_str());
                message.append(": ");
                message.append(status.as_str());
                message.append(": ");
                message.append(body.as_str());
                assert(message@ =~= "Failed to query model info on "@ + models_url_of(base_url@)
                    + ": "@ + status@ + ": "@ + body@);
                Err(message)
            },
            ModelsReply::Unreadable { body, error } => {
                message.append("Failed to parse model info from ");
                message.append(url.as_str());
                message.append(": ");
                message.append(body.as_str());
                message.append(": ");
                message.append(error.as_str());
                assert(message@ =~= "Failed to parse model info from "@ + models_url_of(base_url@)
                    + ": "@ + body@ + ": "@ + error@);
                Err(message)
            },
            ModelsReply::Listed(models) => match select_model(&models.data, model_name) {
                Some(i) => {
                    let mut client = Client::for_url(base_url);
                    client.model = models.data[i].id.clone();
                    client.context_size = models.data[i].n_ctx;
                    Ok(client)
                },
                None => Err(
                    no_model_message(
                        &models.data,
                        match model_name {
                            Some(name) => name,
                            None => "default",
                        },
                    ),
                ),
            },
        }
    }

    /// A client for the server at `base_url` that uses its `"default"` model unasked.
    pub fn for_url(base_url: &str) -> (r: Self)
        ensures
            r.url() == chat_url_of(base_url@),
            r.model() == "default"@,
            r.context() is None,
            r.usage() == (TokenUsage {
                prompt_tokens: 0,
                completion_tokens: 0,
                streamed_tokens: 0,
            }),
    {
        let mut url = without_trailing(base_url, '/');
        url.append("/v1/chat/completions");
        Client {
            url,
            model: "default".to_string(),
            context_size: None,
            token_usage: TokenUsage::default(),
        }
    }

    /// The request that submits the given chat history, providing the given tools. It is sent up
    /// to [`MAX_ATTEMPTS`] times.
    pub fn chat_stream<'a, S>(
        &'a self,
        messages: &'a [ChatMessage],
        tools: &'a [ToolDefinition<S>],
        tool_choice: ToolChoice<'a>,
    ) -> (r: ChatCompletion<'a, S>)
        ensures
            r.model@ == self.model(),
            r.messages == messages,
            r.stream,
            r.stream_options.include_usage,
            !r.stream_options.include_obfuscation,
            r.tools == tools,
            r.tool_choice == tool_choice,
    {
        ChatCompletion {
            model: self.model.as_str(),
            messages,
            stream: true,
            stream_options: StreamOptions { include_usage: true, include_obfuscation: false },
            tools,
            tool_choice,
        }
    }

    /// Decides what follows when attempt number `attempt` to send a request failed: benign errors
    /// are retried until `max_attempts` have been made, each time after a longer delay.
    pub fn submit_request(
        &self,
        attempt: usize,
        max_attempts: usize,
        is_transient: bool,
        error: &str,
    ) -> (r: Retry)
        requires
            500 * attempt <= u64::MAX,
        ensures
            match r {
                Retry::After(delay) => !gives_up(
                    attempt as nat,
                    max_attempts as nat,
                    is_transient,
                ) && delay == 500 * attempt,
                Retry::GiveUp(message) => gives_up(
                    attempt as nat,
                    max_attempts as nat,
                    is_transient,
                ) && message@ == "sending chat request to "@ + self.url() + " (attempt "@ + decimal(
                    attempt as nat,
                ) + "): "@ + error@,
            },
    {
        if !is_transient || attempt >= max_attempts {
            let mut message = String::new();
            message.append("sending chat request to ");
            message.append(self.url.as_str());
            message.append(" (attempt ");
            push_decimal(&mut message, attempt);
            message.append("): ");
            message.append(error);
            assert(message@ =~= "sending chat request to "@ + self.url() + " (attempt "@ + decimal(
                attempt as nat,
            ) + "): "@ + error@);
            return Retry::GiveUp(message);
        }
        Retry::After(500 * attempt as u64)
    }

    /// What is said where the server answers with a status other than success.
    pub fn refused(status: &str, body: &str) -> (r: String)
        ensures
            r@ == "llama-server returned "@ + status@ + ": "@ + body@,
    {
        let mut message = String::new();
        message.append("llama-server returned ");
        message.append(status);
        message.append(": ");
        message.append(body);
        assert(message@ =~= "llama-server returned "@ + status@ + ": "@ + body@);
        message
    }

    /// Return the chat endpoint URL
    pub fn chat_url(&self) -> (r: &str)
        ensures
            r@ == self.url(),
    {
        self.url.as_str()
    }

    /// Return the token usage stat object
    pub fn token_usage(&self) -> (r: &TokenUsage)
        ensures
            *r == self.usage(),
    {
        &self.token_usage
    }

    /// Replaces the token usage stat object
    pub fn set_token_usage(&mut self, usage: TokenUsage)
        ensures
            final(self).counts(usage, old(self)),
    {
        self.token_usage = usage;
    }

    /// Return the name of the model in use
    pub fn model_name(&self) -> (r: &str)
        ensures
            r@ == self.model(),
    {
        self.model.as_str()
    }

    /// Return the number of tokens that fit into the context
    pub fn context_size(&self) -> (r: Option<u64>)
        ensures
            r == self.context(),
    {
        self.context_size
    }
}

/// The URLs do not depend on slashes at the end of the base URL, and have a single one before their
/// path.
pub proof fn trailing_slashes_do_not_matter(base_url: Seq<char>)
    ensures
        chat_url_of(base_url.push('/')) == chat_url_of(base_url),
        models_url_of(base_url.push('/')) == models_url_of(base_url),
        base_url.len() == 0 || base_url.last() != '/' ==> chat_url_of(base_url) == base_url
            + "/v1/chat/completions"@ && models_url_of(base_url) == base_url + "/v1/models"@,
{
    assert(base_url.push('/').drop_last() =~= base_url);
    assert(base_url.push('/').last() == '/');
}

/// The first model that goes by a name, if there is one.
proof fn lemma_where_named(models: Seq<ModelInfo>, name: Seq<char>)
    ensures
        match first_named(models, name) {
            Some(i) => 0 <= i < models.len() && goes_by(models[i], name) && (forall|j: int|
                0 <= j < i ==> !goes_by(#[trigger] models[j], name)),
            None => forall|j: int| 0 <= j < models.len() ==> !goes_by(#[trigger] models[j], name),
        },
    decreases models.len(),
{
    if models.len() > 0 {
        let fewer = models.drop_last();
        lemma_where_named(fewer, name);
        match first_named(fewer, name) {
            Some(i) => {
                assert(fewer[i] == models[i]);
                assert forall|j: int| 0 <= j < i implies !goes_by(#[trigger] models[j], name) by {
                    assert(fewer[j] == models[j]);
                }
            },
            None => {
                assert forall|j: int| 0 <= j < models.len() - 1 implies !goes_by(
                    #[trigger] models[j],
                    name,
                ) by {
                    assert(fewer[j] == models[j]);
                }
                assert(models.last() == models[models.len() - 1]);
            },
        }
    }
}

/// A model that is asked for by name is the first whose ID or one of whose aliases is that name; none
/// is chosen exactly if no model has it.
pub proof fn named_models_are_chosen(models: Seq<ModelInfo>, name: Seq<char>, i: int)
    requires
        0 <= i < models.len(),
    ensures
        ({
            let chosen = chosen_model(models, Some(name));
            let named = models[i].id@ == name || exists|j: int|
                0 <= j < models[i].aliases@.len() && (#[trigger] models[i].aliases@[j])@ == name;
            &&& named ==> chosen is Some && 0 <= chosen->0 <= i
            &&& chosen == Some(i) ==> named
            &&& chosen is Some ==> 0 <= chosen->0 < models.len() && goes_by(
                models[chosen->0],
                name,
            )
        }),
{
    lemma_where_named(models, name);
    lemma_goes_by(models[i], name);
    let chosen = chosen_model(models, Some(name));
    if goes_by(models[i], name) && chosen is Some && chosen->0 > i {
        assert(!goes_by(models[i], name));
    }
}

/// A model goes by its ID and by each of its aliases.
proof fn lemma_goes_by(model: ModelInfo, name: Seq<char>)
    ensures
        goes_by(model, name) <==> model.id@ == name || exists|j: int|
            0 <= j < model.aliases@.len() && (#[trigger] model.aliases@[j])@ == name,
{
    let own = texts(model.aliases@);
    if own.contains(name) {
        let j = own.index_of(name);
        assert(own[j] == name);
        assert(model.aliases@[j]@ == name);
    }
    if exists|j: int| 0 <= j < model.aliases@.len() && (#[trigger] model.aliases@[j])@ == name {
        let j = choose|j: int|
            0 <= j < model.aliases@.len() && (#[trigger] model.aliases@[j])@ == name;
        assert(own[j] == name);
    }
}

/// Where no model is named a single one is chosen whatever its name; of several, the one that is named
/// `default`.
pub proof fn unnamed_models_are_the_only_or_the_default_one(models: Seq<ModelInfo>)
    ensures
        models.len() == 1 ==> chosen_model(models, None) == Some(0int),
        models.len() != 1 ==> chosen_model(models, None) == chosen_model(
            models,
            Some("default"@),
        ),
{
}

/// Where no model goes by a name it is said which name that is, and which models there are.
pub proof fn missing_models_are_told_with_those_there_are(
    models: Seq<ModelInfo>,
    name: Seq<char>,
    i: int,
    j: int,
)
    requires
        0 <= i < models.len(),
    ensures
        is_part_of("\""@ + name + "\" not found"@, no_model_text(models, name)),
        is_part_of("- "@ + models[i].id@ + " (aliases: "@, no_model_text(models, name)),
        0 <= j < models[i].aliases@.len() ==> is_part_of(
            "\""@ + models[i].aliases@[j]@ + "\""@,
            no_model_text(models, name),
        ),
{
    let lines = models.map_values(|m: ModelInfo| shown_model(m));
    let all = join(lines, ", "@);
    let text = no_model_text(models, name);
    let head = "Model \""@ + name + "\" not found, available models:\n"@;
    let none: Seq<char> = seq![];
    reveal_strlit("Model \"");
    reveal_strlit("\"");
    reveal_strlit("\" not found");
    reveal_strlit("\" not found, available models:\n");
    let start = "Model \""@.drop_last();
    let rest = "\" not found, available models:\n"@.skip("\" not found"@.len() as int);
    assert("\" not found, available models:\n"@ =~= "\" not found"@ + rest);
    assert(text =~= start + ("\""@ + name + "\" not found"@) + (rest + all));
    lemma_part(start, "\""@ + name + "\" not found"@, rest + all);
    assert(text =~= head + all + none);
    lemma_part(head, all, none);
    joins_hold_their_parts(lines, ", "@, i);
    assert(lines[i] == shown_model(models[i]));
    lemma_part_of_part(shown_model(models[i]), all, text);
    let shown = texts(models[i].aliases@).map_values(|a: Seq<char>| shown_alias(a));
    let aliases = join(shown, ", "@);
    let named = "- "@ + models[i].id@ + " (aliases: "@;
    assert(shown_model(models[i]) =~= none + named + (aliases + ")"@));
    lemma_part(none, named, aliases + ")"@);
    lemma_part_of_part(named, shown_model(models[i]), text);
    if 0 <= j < models[i].aliases@.len() {
        let alias = models[i].aliases@[j]@;
        let quoted = "\""@ + alias + "\""@;
        joins_hold_their_parts(shown, ", "@, j);
        assert(shown[j] == shown_alias(alias));
        reveal_strlit("\")");
        let close: Seq<char> = seq![')'];
        assert(shown_alias(alias) =~= none + quoted + close);
        lemma_part(none, quoted, close);
        lemma_part_of_part(quoted, shown[j], aliases);
        lemma_part(named, aliases, ")"@);
        lemma_part_of_part(quoted, aliases, shown_model(models[i]));
        lemma_part_of_part(quoted, shown_model(models[i]), text);
    }
}

/// A failed request is sent again exactly if its error is benign and there are attempts left.
pub proof fn only_benign_errors_are_retried(attempt: nat, max_attempts: nat, is_transient: bool)
    ensures
        !gives_up(attempt, max_attempts, is_transient) <==> is_transient && attempt < max_attempts,
{
}

} // verus!

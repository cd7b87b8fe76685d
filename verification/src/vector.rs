//! The example store that routes by nearest neighbours: the examples it starts
//! with, the embedding models it knows, and which examples it prunes.

use vstd::prelude::*;
use crate::text::str_equal;

verus! {

/// The number of examples above which low-confidence examples are pruned.
pub const MAX_EXAMPLES: usize = 10000;

/// The size of the vectors that the store holds (that of all-MiniLM-L6-v2).
pub const VECTOR_DIM: usize = 384;

/// The embedding models that the store can load.
pub enum EmbeddingModelChoice {
    AllMiniLML6V2,
    BGESmallENV15,
    BGEBaseENV15,
    BGELargeENV15,
    NomicEmbedTextV1,
}

/// The model that a configured name stands for, if it is a known name.
pub open spec fn model_named(name: Seq<char>) -> Option<EmbeddingModelChoice> {
    if name == "all-MiniLM-L6-v2"@ {
        Some(EmbeddingModelChoice::AllMiniLML6V2)
    } else if name == "bge-small-en-v1.5"@ {
        Some(EmbeddingModelChoice::BGESmallENV15)
    } else if name == "bge-base-en-v1.5"@ {
        Some(EmbeddingModelChoice::BGEBaseENV15)
    } else if name == "bge-large-en-v1.5"@ {
        Some(EmbeddingModelChoice::BGELargeENV15)
    } else if name == "nomic-embed-text"@ {
        Some(EmbeddingModelChoice::NomicEmbedTextV1)
    } else {
        None
    }
}

/// The model named `name`, or `None` for a name that is not known (the store
/// then falls back to all-MiniLM-L6-v2).
pub fn known_embedding_model(name: &str) -> (r: Option<EmbeddingModelChoice>)
    ensures
        r == model_named(name@),
{
    if str_equal(name, "all-MiniLM-L6-v2") {
        Some(EmbeddingModelChoice::AllMiniLML6V2)
    } else if str_equal(name, "bge-small-en-v1.5") {
        Some(EmbeddingModelChoice::BGESmallENV15)
    } else if str_equal(name, "bge-base-en-v1.5") {
        Some(EmbeddingModelChoice::BGEBaseENV15)
    } else if str_equal(name, "bge-large-en-v1.5") {
        Some(EmbeddingModelChoice::BGELargeENV15)
    } else if str_equal(name, "nomic-embed-text") {
        Some(EmbeddingModelChoice::NomicEmbedTextV1)
    } else {
        None
    }
}

/// The store holds more examples than it keeps.
pub fn needs_pruning(count: usize) -> (r: bool)
    ensures
        r == (count > MAX_EXAMPLES),
{
    count > MAX_EXAMPLES
}

/// The examples to delete from a store of `count` examples, out of the
/// low-confidence `candidates` in the order found: as many of the first ones as
/// bring the store back to `MAX_EXAMPLES`, or all of them where there are fewer.
pub fn select_for_pruning<T>(count: usize, candidates: Vec<T>) -> (r: Vec<T>)
    requires
        count > MAX_EXAMPLES,
    ensures
        r@ == candidates@.take(
            if candidates@.len() < count - MAX_EXAMPLES {
                candidates@.len() as int
            } else {
                count - MAX_EXAMPLES
            },
        ),
{
    let excess = count - MAX_EXAMPLES;
    let mut r = candidates;
    r.truncate(excess);
    proof {
        if r@.len() == candidates@.len() {
            assert(candidates@.take(candidates@.len() as int) =~= candidates@);
        }
    }
    r
}

/// The category of a seed example that asks for a tool.
pub open spec fn tool_call() -> Seq<char> {
    "tool_call"@
}

/// The category of a seed example that asks for reasoning or talk.
pub open spec fn general() -> Seq<char> {
    "general"@
}

/// The prompts seeded as tool calls: requests that need a tool to answer
/// (searching, fetching, checking a server or a port, sending, querying).
pub open spec fn tool_call_seed_prompts() -> Seq<&'static str> {
    seq![
        "search the web for latest news",
        "get the current weather in New York",
        "send an email to john@example.com",
        "check if the server is running on port 8080",
        "look up the stock price of Apple",
        "is the server up?",
        "what processes are using the most memory?",
        "how much diskspace is free?",
        "fetch data from the REST API endpoint",
        "query the database for all active users",
        "check the status of my order",
        "monitor the CPU usage of the server",
        "what's running on port 8080?",
    ]
}

/// The prompts seeded as general: opinions, explanations, questions of fact and
/// talk, which need no tool.
pub open spec fn general_seed_prompts() -> Seq<&'static str> {
    seq![
        "here are my thoughts on the routing approach",
        "how can we optimize this for budget?",
        "I think the caching strategy should be different",
        "what do you think about adding prompt compression?",
        "that categorised as tool_call doesn't make sense",
        "let me explain why I think this approach is wrong",
        "can you list the pros and cons of using qdrant here?",
        "what's the capital of France?",
        "tell me a fun fact about space",
        "write a Python function to sort a list",
        "explain quantum physics simply",
        "tell me a joke",
        "compare the pros and cons of React vs Vue",
        "how do I make good coffee?",
        "why did my query go to fallback?",
    ]
}

/// The seed examples, as (prompt, category) pairs.
pub open spec fn seed_table() -> Seq<(&'static str, &'static str)> {
    seq![
        ("search the web for latest news", "tool_call"),
        ("get the current weather in New York", "tool_call"),
        ("send an email to john@example.com", "tool_call"),
        ("check if the server is running on port 8080", "tool_call"),
        ("look up the stock price of Apple", "tool_call"),
        ("is the server up?", "tool_call"),
        ("what processes are using the most memory?", "tool_call"),
        ("how much diskspace is free?", "tool_call"),
        ("fetch data from the REST API endpoint", "tool_call"),
        ("query the database for all active users", "tool_call"),
        ("check the status of my order", "tool_call"),
        ("monitor the CPU usage of the server", "tool_call"),
        ("what's running on port 8080?", "tool_call"),
        ("here are my thoughts on the routing approach", "general"),
        ("how can we optimize this for budget?", "general"),
        ("I think the caching strategy should be different", "general"),
        ("what do you think about adding prompt compression?", "general"),
        ("that categorised as tool_call doesn't make sense", "general"),
        ("let me explain why I think this approach is wrong", "general"),
        ("can you list the pros and cons of using qdrant here?", "general"),
        ("what's the capital of France?", "general"),
        ("tell me a fun fact about space", "general"),
        ("write a Python function to sort a list", "general"),
        ("explain quantum physics simply", "general"),
        ("tell me a joke", "general"),
        ("compare the pros and cons of React vs Vue", "general"),
        ("how do I make good coffee?", "general"),
        ("why did my query go to fallback?", "general"),
    ]
}

/// The examples that an empty store starts with: thirteen tool calls, then
/// fifteen general prompts, as (prompt, category) pairs.
pub fn seed_examples() -> (r: Vec<(&'static str, &'static str)>)
    ensures
        r@ == seed_table(),
        r@.len() == 28,
        forall|i: int| 0 <= i < 13 ==> (#[trigger] r@[i]).1@ == tool_call(),
        forall|i: int| 13 <= i < 28 ==> (#[trigger] r@[i]).1@ == general(),
        forall|i: int| 0 <= i < 13 ==> (#[trigger] r@[i]).0 == tool_call_seed_prompts()[i],
        forall|i: int| 13 <= i < 28 ==> (#[trigger] r@[i]).0 == general_seed_prompts()[i - 13],
{
    vec![
        ("search the web for latest news", "tool_call"),
        ("get the current weather in New York", "tool_call"),
        ("send an email to john@example.com", "tool_call"),
        ("check if the server is running on port 8080", "tool_call"),
        ("look up the stock price of Apple", "tool_call"),
        ("is the server up?", "tool_call"),
        ("what processes are using the most memory?", "tool_call"),
        ("how much diskspace is free?", "tool_call"),
        ("fetch data from the REST API endpoint", "tool_call"),
        ("query the database for all active users", "tool_call"),
        ("check the status of my order", "tool_call"),
        ("monitor the CPU usage of the server", "tool_call"),
        ("what's running on port 8080?", "tool_call"),
        ("here are my thoughts on the routing approach", "general"),
        ("how can we optimize this for budget?", "general"),
        ("I think the caching strategy should be different", "general"),
        ("what do you think about adding prompt compression?", "general"),
        ("that categorised as tool_call doesn't make sense", "general"),
        ("let me explain why I think this approach is wrong", "general"),
        ("can you list the pros and cons of using qdrant here?", "general"),
        ("what's the capital of France?", "general"),
        ("tell me a fun fact about space", "general"),
        ("write a Python function to sort a list", "general"),
        ("explain quantum physics simply", "general"),
        ("tell me a joke", "general"),
        ("compare the pros and cons of React vs Vue", "general"),
        ("how do I make good coffee?", "general"),
        ("why did my query go to fallback?", "general"),
    ]
}

/// Law: the seed examples are the tool-call prompts, each as `tool_call`, then
/// the general prompts, each as `general`; no prompt is seeded under the other
/// category.
pub proof fn lemma_seeds_by_category()
    ensures
        seed_table().len() == tool_call_seed_prompts().len() + general_seed_prompts().len(),
        forall|i: int|
            0 <= i < tool_call_seed_prompts().len() ==> #[trigger] seed_table()[i] == (
            tool_call_seed_prompts()[i],
            "tool_call",
        ),
        forall|i: int|
            0 <= i < general_seed_prompts().len() ==> #[trigger] seed_table()[i
                + tool_call_seed_prompts().len()] == (general_seed_prompts()[i], "general"),
{
}

} // verus!

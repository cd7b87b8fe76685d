//! The standalone routing proxy: its configuration, and the parts of the
//! OpenAI-compatible protocol that hold no JSON.
//!
//! The routing threshold, a float in the configuration, is carried as the bit
//! pattern of that `f32`; no function of this module reads it.

use vstd::prelude::*;
use crate::text::str_equal;

verus! {

/// Where the proxy listens.
pub struct ServerConfig {
    pub host: String,
    pub port: u16,
}

/// How prompts are routed.
pub struct RouterConfig {
    /// Embedding model name (fastembed compatible).
    pub embedding_model: String,
    /// The bit pattern of the `f32` routing threshold: below it, the fallback is used.
    pub threshold_bits: u32,
    /// Fallback backend name.
    pub fallback: String,
    /// Capability definitions with example prompts.
    pub capabilities: Vec<Capability>,
}

/// A capability, defined by the example prompts whose centroid stands for it.
pub struct Capability {
    /// Category name (e.g., "tool_call", "general").
    pub name: String,
    /// Example prompts that define this capability's centroid.
    pub examples: Vec<String>,
}

/// A model provider that prompts can be routed to.
pub struct Backend {
    /// Backend name (matches capability names or the fallback).
    pub name: String,
    /// Provider type: "openai", "ollama", "openrouter".
    pub provider: String,
    /// API base URL.
    pub base_url: String,
    /// API key (optional, for cloud providers).
    pub api_key: Option<String>,
    /// Model name to use.
    pub model: String,
}

/// The proxy's configuration.
pub struct Config {
    pub server: ServerConfig,
    pub router: RouterConfig,
    pub backends: Vec<Backend>,
}

/// Token counts of a completion.
pub struct Usage {
    pub prompt_tokens: u32,
    pub completion_tokens: u32,
    pub total_tokens: u32,
}

/// Why a configuration lookup failed.
pub enum ConfigError {
    /// No backend bears the name of the router's fallback (the name is given).
    FallbackNotFound(String),
}

/// The host used when `server.host` is absent: all interfaces.
pub fn default_host() -> (host: String)
    ensures
        host@ == seq!['0', '.', '0', '.', '0', '.', '0'],
{
    crate::config::default_host()
}

/// The port used when `server.port` is absent.
pub fn default_port() -> (port: u16)
    ensures
        port == 8420,
{
    crate::config::default_port()
}

/// `i` is the first place in `bs` of a backend named `name`.
pub open spec fn first_named(bs: Seq<Backend>, name: Seq<char>, i: int) -> bool {
    &&& 0 <= i < bs.len()
    &&& bs[i].name@ == name
    &&& forall|j: int| 0 <= j < i ==> (#[trigger] bs[j]).name@ != name
}

/// No backend in `bs` is named `name`.
pub open spec fn none_named(bs: Seq<Backend>, name: Seq<char>) -> bool {
    forall|j: int| 0 <= j < bs.len() ==> (#[trigger] bs[j]).name@ != name
}

/// The backend that `find_backend` gives: the first one named `name`.
pub open spec fn found_backend(bs: Seq<Backend>, name: Seq<char>, r: Option<&Backend>) -> bool {
    match r {
        Some(b) => exists|i: int| first_named(bs, name, i) && bs[i] == *b,
        None => none_named(bs, name),
    }
}

impl Config {
    /// The first backend named `name`.
    pub fn find_backend(&self, name: &str) -> (r: Option<&Backend>)
        ensures
            found_backend(self.backends@, name@, r),
    {
        let mut i: usize = 0;
        while i < self.backends.len()
            invariant
                i <= self.backends@.len(),
                forall|j: int| 0 <= j < i ==> (#[trigger] self.backends@[j]).name@ != name@,
            decreases self.backends@.len() - i,
        {
            if str_equal(self.backends[i].name.as_str(), name) {
                assert(first_named(self.backends@, name@, i as int));
                return Some(&self.backends[i]);
            }
            i += 1;
        }
        None
    }

    /// The backend named by the router's fallback.
    pub fn fallback_backend(&self) -> (r: Result<&Backend, ConfigError>)
        ensures
            match r {
                Ok(b) => found_backend(self.backends@, self.router.fallback@, Some(b)),
                Err(e) => none_named(self.backends@, self.router.fallback@) && (e matches ConfigError::FallbackNotFound(n) && n@ == self.router.fallback@),
            },
    {
        match self.find_backend(self.router.fallback.as_str()) {
            Some(b) => Ok(b),
            None => Err(ConfigError::FallbackNotFound(self.router.fallback.clone())),
        }
    }

    /// The backend that a prompt routed to `category` goes to: the first backend
    /// named `category`, else (no backend is tied to that capability) the first
    /// backend of the list, else none.
    pub fn backend_for(&self, category: &str) -> (r: Option<&Backend>)
        ensures
            !none_named(self.backends@, category@) ==> found_backend(
                self.backends@,
                category@,
                r,
            ),
            none_named(self.backends@, category@) && self.backends@.len() > 0 ==> r == Some(
                &self.backends@[0],
            ),
            none_named(self.backends@, category@) && self.backends@.len() == 0 ==> r is None,
    {
        match self.find_backend(category) {
            Some(b) => Some(b),
            None => if self.backends.len() > 0 {
                Some(&self.backends[0])
            } else {
                None
            },
        }
    }
}

} // verus!

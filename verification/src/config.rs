//! The configuration of the routing engine (`switchyard.json`) and the changes
//! that the dashboard makes to its list of backends.
//!
//! A price or a threshold, which the configuration holds as a float, is carried
//! here as the bit pattern of that float (`f32::to_bits`, `f64::to_bits`); no
//! function of this module reads it.

use vstd::prelude::*;
use crate::text::{push_char, str_equal};

verus! {

/// Where the routing proxy listens.
pub struct ServerConfig {
    pub host: String,
    pub port: u16,
}

/// How prompts are routed.
pub struct RouterConfig {
    /// The fastembed model that embeds the prompts.
    pub embedding_model: String,
    /// The bit pattern of the `f32` score under which the fallback is used.
    pub threshold_bits: u32,
    /// The capability, and backend, used when no capability scores high enough.
    pub fallback: String,
    pub capabilities: Vec<Capability>,
}

/// A capability, defined by example prompts.
pub struct Capability {
    pub name: String,
    pub examples: Vec<String>,
}

/// A model provider that prompts can be routed to.
pub struct Backend {
    pub name: String,
    pub provider: String,
    pub base_url: String,
    pub api_key: Option<String>,
    pub model: String,
    /// The bit pattern of the `f64` price of a million input tokens.
    pub cost_per_1m_input_tokens_bits: u64,
    /// The bit pattern of the `f64` price of a million output tokens.
    pub cost_per_1m_output_tokens_bits: u64,
}

/// Where the dashboard keeps its route events.
pub struct DashboardConfig {
    pub db_path: String,
}

/// The whole configuration.
pub struct Config {
    pub server: ServerConfig,
    pub router: RouterConfig,
    pub backends: Vec<Backend>,
    pub dashboard: DashboardConfig,
}

/// Why a configuration lookup or change failed.
pub enum ConfigError {
    /// No backend bears the name of the router's fallback (the name is given).
    FallbackNotFound(String),
    /// A backend was addressed by an index past the end of the list.
    IndexOutOfRange,
}

/// The host used when `server.host` is absent: all interfaces.
pub fn default_host() -> (host: String)
    ensures
        host@ == seq!['0', '.', '0', '.', '0', '.', '0'],
{
    let mut h = String::new();
    push_char(&mut h, '0');
    push_char(&mut h, '.');
    push_char(&mut h, '0');
    push_char(&mut h, '.');
    push_char(&mut h, '0');
    push_char(&mut h, '.');
    push_char(&mut h, '0');
    assert(h@ =~= seq!['0', '.', '0', '.', '0', '.', '0']);
    h
}

/// The port used when `server.port` is absent.
pub fn default_port() -> (port: u16)
    ensures
        port == 8420,
{
    8420
}

/// The database path used when `dashboard.db_path` is absent.
pub fn default_db_path() -> (path: String)
    ensures
        path@ == seq!['s', 'w', 'i', 't', 'c', 'h', 'y', 'a', 'r', 'd', '.', 'd', 'b'],
{
    let mut p = String::new();
    push_char(&mut p, 's');
    push_char(&mut p, 'w');
    push_char(&mut p, 'i');
    push_char(&mut p, 't');
    push_char(&mut p, 'c');
    push_char(&mut p, 'h');
    push_char(&mut p, 'y');
    push_char(&mut p, 'a');
    push_char(&mut p, 'r');
    push_char(&mut p, 'd');
    push_char(&mut p, '.');
    push_char(&mut p, 'd');
    push_char(&mut p, 'b');
    assert(p@ =~= seq!['s', 'w', 'i', 't', 'c', 'h', 'y', 'a', 'r', 'd', '.', 'd', 'b']);
    p
}

impl Default for DashboardConfig {
    fn default() -> (d: Self)
        ensures
            d.db_path@ == seq!['s', 'w', 'i', 't', 'c', 'h', 'y', 'a', 'r', 'd', '.', 'd', 'b'],
    {
        DashboardConfig { db_path: default_db_path() }
    }
}

/// `b` with its API key taken out (the key lives in the `.env` file).
pub open spec fn without_key(b: Backend) -> Backend {
    Backend {
        name: b.name,
        provider: b.provider,
        base_url: b.base_url,
        api_key: None,
        model: b.model,
        cost_per_1m_input_tokens_bits: b.cost_per_1m_input_tokens_bits,
        cost_per_1m_output_tokens_bits: b.cost_per_1m_output_tokens_bits,
    }
}

/// `i` is the first place in `bs` of a backend named `name`.
pub open spec fn first_named(bs: Seq<Backend>, name: Seq<char>, i: int) -> bool {
    &&& 0 <= i < bs.len()
    &&& bs[i].name@ == name
    &&& forall|j: int| 0 <= j < i ==> (#[trigger] bs[j]).name@ != name
}

/// No backend in `bs` is named `name`.
pub open spec fn none_named(bs: Seq<Backend>, name: Seq<char>) -> bool {
    forall|j: int| 0 <= j < bs.len() ==> (#[trigger] bs[j]).name@ != name
}

/// The backend that `find_backend` gives: the first one named `name`.
pub open spec fn found_backend(bs: Seq<Backend>, name: Seq<char>, r: Option<&Backend>) -> bool {
    match r {
        Some(b) => exists|i: int| first_named(bs, name, i) && bs[i] == *b,
        None => none_named(bs, name),
    }
}

impl Config {
    /// The first backend named `name`.
    pub fn find_backend(&self, name: &str) -> (r: Option<&Backend>)
        ensures
            found_backend(self.backends@, name@, r),
    {
        let mut i: usize = 0;
        while i < self.backends.len()
            invariant
                i <= self.backends@.len(),
                forall|j: int| 0 <= j < i ==> (#[trigger] self.backends@[j]).name@ != name@,
            decreases self.backends@.len() - i,
        {
            if str_equal(self.backends[i].name.as_str(), name) {
                assert(first_named(self.backends@, name@, i as int));
                return Some(&self.backends[i]);
            }
            i += 1;
        }
        None
    }

    /// The backend named by the router's fallback.
    pub fn fallback_backend(&self) -> (r: Result<&Backend, ConfigError>)
        ensures
            match r {
                Ok(b) => found_backend(self.backends@, self.router.fallback@, Some(b)),
                Err(e) => none_named(self.backends@, self.router.fallback@) && (e matches ConfigError::FallbackNotFound(n) && n@ == self.router.fallback@),
            },
    {
        match self.find_backend(self.router.fallback.as_str()) {
            Some(b) => Ok(b),
            None => Err(ConfigError::FallbackNotFound(self.router.fallback.clone())),
        }
    }

    /// The backend that a prompt routed to `category` goes to: the first backend
    /// named `category`, else (no backend is tied to that capability) the first
    /// backend of the list, else none.
    pub fn backend_for(&self, category: &str) -> (r: Option<&Backend>)
        ensures
            !none_named(self.backends@, category@) ==> found_backend(
                self.backends@,
                category@,
                r,
            ),
            none_named(self.backends@, category@) && self.backends@.len() > 0 ==> r == Some(
                &self.backends@[0],
            ),
            none_named(self.backends@, category@) && self.backends@.len() == 0 ==> r is None,
    {
        match self.find_backend(category) {
            Some(b) => Some(b),
            None => if self.backends.len() > 0 {
                Some(&self.backends[0])
            } else {
                None
            },
        }
    }

    /// Adds `backend` at the end of the list, without its API key.
    pub fn add_backend(&mut self, backend: Backend)
        ensures
            final(self).backends@ == old(self).backends@.push(without_key(backend)),
            final(self).server == old(self).server,
            final(self).router == old(self).router,
            final(self).dashboard == old(self).dashboard,
    {
        let b = Backend {
            name: backend.name,
            provider: backend.provider,
            base_url: backend.base_url,
            api_key: None,
            model: backend.model,
            cost_per_1m_input_tokens_bits: backend.cost_per_1m_input_tokens_bits,
            cost_per_1m_output_tokens_bits: backend.cost_per_1m_output_tokens_bits,
        };
        self.backends.push(b);
    }

    /// Puts `backend`, without its API key, in place of the backend at `index`,
    /// and gives the name that the replaced backend had; fails, changing nothing,
    /// where there is no backend at `index`.
    pub fn replace_backend(&mut self, index: usize, backend: Backend) -> (r: Result<
        String,
        ConfigError,
    >)
        ensures
            index < old(self).backends@.len() ==> (r matches Ok(n) && n@ == old(
                self,
            ).backends@[index as int].name@) && final(self).backends@ == old(
                self,
            ).backends@.update(index as int, without_key(backend)),
            index >= old(self).backends@.len() ==> (r matches Err(ConfigError::IndexOutOfRange))
                && final(self).backends@ == old(self).backends@,
            final(self).server == old(self).server,
            final(self).router == old(self).router,
            final(self).dashboard == old(self).dashboard,
    {
        if index >= self.backends.len() {
            return Err(ConfigError::IndexOutOfRange);
        }
        let old_name = self.backends[index].name.clone();
        let b = Backend {
            name: backend.name,
            provider: backend.provider,
            base_url: backend.base_url,
            api_key: None,
            model: backend.model,
            cost_per_1m_input_tokens_bits: backend.cost_per_1m_input_tokens_bits,
            cost_per_1m_output_tokens_bits: backend.cost_per_1m_output_tokens_bits,
        };
        self.backends.set(index, b);
        Ok(old_name)
    }

    /// Takes the backend at `index` out of the list and gives it; fails,
    /// changing nothing, where there is no backend at `index`.
    pub fn remove_backend(&mut self, index: usize) -> (r: Result<Backend, ConfigError>)
        ensures
            index < old(self).backends@.len() ==> (r matches Ok(b) && b == old(
                self,
            ).backends@[index as int]) && final(self).backends@ == old(self).backends@.remove(
                index as int,
            ),
            index >= old(self).backends@.len() ==> (r matches Err(ConfigError::IndexOutOfRange))
                && final(self).backends@ == old(self).backends@,
            final(self).server == old(self).server,
            final(self).router == old(self).router,
            final(self).dashboard == old(self).dashboard,
    {
        if index >= self.backends.len() {
            return Err(ConfigError::IndexOutOfRange);
        }
        Ok(self.backends.remove(index))
    }
}

} // verus!

//! Engine settings: a small struct with defaults. Reading a settings
//! file is the caller's concern; the core only picks the loaded values
//! or falls back to the defaults.

use vstd::prelude::*;

verus! {

/// The application settings relevant to the engine.
#[derive(Debug, Clone)]
pub struct AppSettings {
    pub engine: EngineSettings,
}

/// Where and how the engine serves.
#[derive(Debug, Clone)]
pub struct EngineSettings {
    pub host: String,
    pub port: u16,
    pub max_connections: usize,
    pub thread_pool_size: usize,
}

impl Default for EngineSettings {
    /// The built-in defaults: the loopback host on port 50051, ten
    /// connections, four threads.
    fn default() -> (r: Self)
        ensures
            r.host@ == "127.0.0.1"@,
            r.port == 50051,
            r.max_connections == 10,
            r.thread_pool_size == 4,
    {
        EngineSettings {
            host: String::from_str("127.0.0.1"),
            port: 50051,
            max_connections: 10,
            thread_pool_size: 4,
        }
    }
}

/// The engine settings to run with: those that were loaded, or the
/// built-in defaults when loading failed.
pub fn get_engine_settings(loaded: Option<AppSettings>) -> (r: EngineSettings)
    ensures
        loaded matches Some(s) ==> r == s.engine,
        loaded is None ==> r.host@ == "127.0.0.1"@ && r.port == 50051 && r.max_connections
            == 10 && r.thread_pool_size == 4,
{
    match loaded {
        Some(s) => s.engine,
        None => EngineSettings::default(),
    }
}

} // verus!

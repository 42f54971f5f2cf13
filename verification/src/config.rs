//! Configuration of the pipeline and its default values.
use vstd::prelude::*;

verus! {

pub struct OmegaConfig {
    pub environment: String,
    pub database: DatabaseConfig,
    pub output: OutputConfig,
    pub http: HttpConfig,
    pub providers: ProviderConfig,
}

pub struct DatabaseConfig {
    pub url: String,
    pub max_connections: u32,
}

pub struct OutputConfig {
    pub directory: String,
    pub xmltv_file: String,
    pub playlist_file: String,
    pub review_file: String,
}

pub struct HttpConfig {
    pub timeout_seconds: u64,
    pub retries: usize,
    pub user_agent: String,
}

pub struct ProviderConfig {
    pub zee5_enabled: bool,
    pub jio_enabled: bool,
    pub iptv_org_enabled: bool,
}

/// The default configuration.
pub open spec fn is_default_config(c: OmegaConfig) -> bool {
    &&& c.environment@ == "development"@
    &&& c.database.url@ == "sqlite://omega.db"@
    &&& c.database.max_connections == 10
    &&& c.output.directory@ == "output"@
    &&& c.output.xmltv_file@ == "output/omega.xml"@
    &&& c.output.playlist_file@ == "output/omega.m3u"@
    &&& c.output.review_file@ == "output/review.json"@
    &&& c.http.timeout_seconds == 20
    &&& c.http.retries == 3
    &&& c.http.user_agent@ == "Mozilla/5.0 Omega-IPTV-Rust/1.0"@
    &&& c.providers.zee5_enabled
    &&& c.providers.jio_enabled
    &&& c.providers.iptv_org_enabled
}

impl Default for OmegaConfig {
    fn default() -> (res: Self)
        ensures
            is_default_config(res),
    {
        OmegaConfig {
            environment: String::from_str("development"),
            database: DatabaseConfig { url: String::from_str("sqlite://omega.db"), max_connections: 10 },
            output: OutputConfig {
                directory: String::from_str("output"),
                xmltv_file: String::from_str("output/omega.xml"),
                playlist_file: String::from_str("output/omega.m3u"),
                review_file: String::from_str("output/review.json"),
            },
            http: HttpConfig {
                timeout_seconds: 20,
                retries: 3,
                user_agent: String::from_str("Mozilla/5.0 Omega-IPTV-Rust/1.0"),
            },
            providers: ProviderConfig { zee5_enabled: true, jio_enabled: true, iptv_org_enabled: true },
        }
    }
}

} // verus!

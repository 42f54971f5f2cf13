//! Channels and programmes as the providers deliver them.
use vstd::prelude::*;

use crate::json::{json_same, JsonValue};
use crate::playlist::clone_opt;
use crate::provider::{kind_name, ProviderKind};
use crate::text::{append_str, chars_of, opt_view, string_of, string_views};
use crate::time::{duration_seconds_spec, ts_lt, Timestamp};

verus! {

pub struct Channel {
    pub provider: ProviderKind,
    pub id: String,
    pub name: String,
    pub tvg_id: Option<String>,
    pub tvg_name: Option<String>,
    pub language: Option<String>,
    pub country: Option<String>,
    pub group: Option<String>,
    pub category: Option<String>,
    pub quality: Option<String>,
    pub logo: Option<String>,
    pub stream_url: Option<String>,
    pub premium: bool,
    pub catchup: bool,
    pub hidden: bool,
    pub raw: JsonValue,
}

/// Two channels with the same content.
pub open spec fn channel_same(a: Channel, b: Channel) -> bool {
    &&& a.provider == b.provider
    &&& a.id@ == b.id@
    &&& a.name@ == b.name@
    &&& opt_view(a.tvg_id) == opt_view(b.tvg_id)
    &&& opt_view(a.tvg_name) == opt_view(b.tvg_name)
    &&& opt_view(a.language) == opt_view(b.language)
    &&& opt_view(a.country) == opt_view(b.country)
    &&& opt_view(a.group) == opt_view(b.group)
    &&& opt_view(a.category) == opt_view(b.category)
    &&& opt_view(a.quality) == opt_view(b.quality)
    &&& opt_view(a.logo) == opt_view(b.logo)
    &&& opt_view(a.stream_url) == opt_view(b.stream_url)
    &&& a.premium == b.premium
    &&& a.catchup == b.catchup
    &&& a.hidden == b.hidden
    &&& json_same(a.raw, b.raw)
}

/// A channel that carries only its provider, id and name.
pub open spec fn bare_channel(c: Channel, provider: ProviderKind, id: Seq<char>, name: Seq<char>) -> bool {
    &&& c.provider == provider
    &&& c.id@ == id
    &&& c.name@ == name
    &&& c.tvg_id is None
    &&& c.tvg_name is None
    &&& c.language is None
    &&& c.country is None
    &&& c.group is None
    &&& c.category is None
    &&& c.quality is None
    &&& c.logo is None
    &&& c.stream_url is None
    &&& !c.premium
    &&& !c.catchup
    &&& !c.hidden
    &&& c.raw is Null
}

impl Channel {
    pub fn new(provider: ProviderKind, id: &str, name: &str) -> (res: Self)
        ensures
            bare_channel(res, provider, id@, name@),
    {
        Channel {
            provider,
            id: String::from_str(id),
            name: String::from_str(name),
            tvg_id: None,
            tvg_name: None,
            language: None,
            country: None,
            group: None,
            category: None,
            quality: None,
            logo: None,
            stream_url: None,
            premium: false,
            catchup: false,
            hidden: false,
            raw: JsonValue::Null,
        }
    }

    /// `provider:id`.
    pub fn display_key(&self) -> (res: String)
        ensures
            res@ == kind_name(self.provider) + ":"@ + self.id@,
    {
        let mut out = chars_of(self.provider.as_str());
        append_str(&mut out, ":");
        append_str(&mut out, self.id.as_str());
        string_of(&out)
    }

    /// A copy of the channel, field by field.
    pub fn duplicate(&self) -> (res: Channel)
        ensures
            channel_same(res, *self),
    {
        Channel {
            provider: self.provider,
            id: self.id.clone(),
            name: self.name.clone(),
            tvg_id: clone_opt(&self.tvg_id),
            tvg_name: clone_opt(&self.tvg_name),
            language: clone_opt(&self.language),
            country: clone_opt(&self.country),
            group: clone_opt(&self.group),
            category: clone_opt(&self.category),
            quality: clone_opt(&self.quality),
            logo: clone_opt(&self.logo),
            stream_url: clone_opt(&self.stream_url),
            premium: self.premium,
            catchup: self.catchup,
            hidden: self.hidden,
            raw: self.raw.duplicate(),
        }
    }
}

pub struct Programme {
    pub provider: ProviderKind,
    pub channel_id: String,
    pub programme_id: Option<String>,
    pub title: String,
    pub subtitle: Option<String>,
    pub description: Option<String>,
    pub start: Timestamp,
    pub stop: Timestamp,
    pub categories: Vec<String>,
    pub genres: Vec<String>,
    pub language: Option<String>,
    pub image: Option<String>,
    pub actors: Vec<String>,
    pub directors: Vec<String>,
    pub rating_system: Option<String>,
    pub rating_value: Option<String>,
    pub is_repeat: bool,
    pub is_live: bool,
    pub catchup: bool,
    pub raw: JsonValue,
}

impl Programme {
    /// Whole seconds from start to stop, rounded toward zero.
    pub fn duration_seconds(&self) -> (res: i64)
        ensures
            res == duration_seconds_spec(self.start@, self.stop@),
    {
        self.start.seconds_until(&self.stop)
    }

    /// A programme is usable when it names its channel and title and ends
    /// after it starts.
    pub fn is_valid(&self) -> (res: bool)
        ensures
            res == (self.channel_id@.len() > 0 && self.title@.len() > 0 && ts_lt(
                self.start@,
                self.stop@,
            )),
    {
        !self.channel_id.as_str().is_empty() && !self.title.as_str().is_empty() && self.start.before(&self.stop)
    }
}

} // verus!

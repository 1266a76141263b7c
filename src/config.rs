//! Settings of the metrics exporter, as read from its TOML file.

use std::collections::HashMap;
use std::time::Duration;
use vstd::prelude::*;
use crate::text::chars_of;

verus! {

/// The whole settings file: one `[otel]` table.
pub struct OtelFileConfig {
    pub otel: OtelSection,
}

/// The `[otel]` table.
pub struct OtelSection {
    pub endpoint: String,
    pub service_name: String,
    pub export_interval_secs: u64,
    /// Absent from the file: `default_true`.
    pub set_global: bool,
    /// Absent from the file: empty.
    pub resource: HashMap<String, String>,
}

/// The value of `set_global` where the file leaves it out.
pub fn default_true() -> (r: bool)
    ensures
        r,
{
    true
}

/// The exporter's settings.
pub struct OtelConfig {
    pub endpoint: String,
    pub service_name: String,
    pub export_interval: Duration,
    pub set_global: bool,
    pub resource_kvs: Vec<(String, String)>,
}

/// Why a configuration was refused.
pub enum ConfigError {
    /// The service name is empty or only white space.
    EmptyServiceName,
    /// The endpoint is neither `http://` nor `https://`; it is carried along.
    BadEndpoint(String),
}

pub ghost enum ConfigErrorView {
    EmptyServiceName,
    BadEndpoint(Seq<char>),
}

impl View for ConfigError {
    type V = ConfigErrorView;

    open spec fn view(&self) -> ConfigErrorView {
        match self {
            ConfigError::EmptyServiceName => ConfigErrorView::EmptyServiceName,
            ConfigError::BadEndpoint(e) => ConfigErrorView::BadEndpoint(e@),
        }
    }
}

/// Unicode's White_Space property, which Rust's `char::is_whitespace` and
/// `str::trim` follow.
pub open spec fn is_white_space(c: char) -> bool {
    ('\u{9}' <= c && c <= '\u{d}') || c == ' ' || c == '\u{85}' || c == '\u{a0}' || c == '\u{1680}'
        || ('\u{2000}' <= c && c <= '\u{200a}') || c == '\u{2028}' || c == '\u{2029}' || c
        == '\u{202f}' || c == '\u{205f}' || c == '\u{3000}'
}

/// Nothing but white space is left once `s` is trimmed.
pub open spec fn is_blank(s: Seq<char>) -> bool {
    forall|i: int| 0 <= i < s.len() ==> is_white_space(s[i])
}

pub open spec fn has_prefix(s: Seq<char>, p: Seq<char>) -> bool {
    p.len() <= s.len() && s.take(p.len() as int) == p
}

/// The outcome of validating a configuration with these two values.
pub open spec fn validate_spec(endpoint: Seq<char>, service_name: Seq<char>) -> Result<
    (),
    ConfigErrorView,
> {
    if is_blank(service_name) {
        Err(ConfigErrorView::EmptyServiceName)
    } else if !has_prefix(endpoint, "http://"@) && !has_prefix(endpoint, "https://"@) {
        Err(ConfigErrorView::BadEndpoint(endpoint))
    } else {
        Ok(())
    }

}

fn white_space(c: char) -> (r: bool)
    ensures
        r == is_white_space(c),
{
    ('\u{9}' <= c && c <= '\u{d}') || c == ' ' || c == '\u{85}' || c == '\u{a0}' || c == '\u{1680}'
        || ('\u{2000}' <= c && c <= '\u{200a}') || c == '\u{2028}' || c == '\u{2029}' || c
        == '\u{202f}' || c == '\u{205f}' || c == '\u{3000}'
}

fn blank(s: &str) -> (r: bool)
    ensures
        r == is_blank(s@),
{
    let v = chars_of(s);
    let mut i: usize = 0;
    while i < v.len()
        invariant
            i <= v@.len(),
            v@ == s@,
            forall|j: int| 0 <= j < i ==> is_white_space(v@[j]),
        decreases v@.len() - i,
    {
        if !white_space(v[i]) {
            return false;
        }
        i = i + 1;
    }
    true
}

fn starts_with_str(s: &str, p: &str) -> (r: bool)
    ensures
        r == has_prefix(s@, p@),
{
    let v = chars_of(s);
    let w = chars_of(p);
    if w.len() > v.len() {
        return false;
    }
    let mut i: usize = 0;
    while i < w.len()
        invariant
            i <= w@.len() <= v@.len(),
            v@ == s@,
            w@ == p@,
            forall|j: int| 0 <= j < i ==> v@[j] == w@[j],
        decreases w@.len() - i,
    {
        if v[i] != w[i] {
            assert(v@.take(w@.len() as int)[i as int] != w@[i as int]);
            return false;
        }
        i = i + 1;
    }
    assert(v@.take(w@.len() as int) =~= w@);
    true
}

impl OtelConfig {
    /// Checks that the service has a name and that the endpoint is an HTTP
    /// or HTTPS address.
    pub fn validate(&self) -> (r: Result<(), ConfigError>)
        ensures
            match r {
                Ok(()) => validate_spec(self.endpoint@, self.service_name@) is Ok,
                Err(e) => validate_spec(self.endpoint@, self.service_name@) == Err::<(), _>(e@),
            },
    {
        if blank(self.service_name.as_str()) {
            return Err(ConfigError::EmptyServiceName);
        }
        if !starts_with_str(self.endpoint.as_str(), "http://") && !starts_with_str(
            self.endpoint.as_str(),
            "https://",
        ) {
            return Err(ConfigError::BadEndpoint(self.endpoint.clone()));
        }
        Ok(())
    }

    /// The resource attributes to export under: `service.name` first, then
    /// the configured pairs in order.
    pub fn resource_attributes(&self) -> (r: Vec<(String, String)>)
        ensures
            r@.len() == self.resource_kvs@.len() + 1,
            r@[0].0@ == "service.name"@,
            r@[0].1@ == self.service_name@,
            forall|i: int|
                0 <= i < self.resource_kvs@.len() ==> r@[i + 1].0@ == self.resource_kvs@[i].0@
                    && r@[i + 1].1@ == self.resource_kvs@[i].1@,
    {
        let mut r: Vec<(String, String)> = Vec::new();
        r.push(("service.name".to_owned(), self.service_name.clone()));
        let mut i: usize = 0;
        while i < self.resource_kvs.len()
            invariant
                i <= self.resource_kvs@.len(),
                r@.len() == i + 1,
                r@[0].0@ == "service.name"@,
                r@[0].1@ == self.service_name@,
                forall|j: int|
                    0 <= j < i ==> r@[j + 1].0@ == self.resource_kvs@[j].0@ && r@[j + 1].1@
                        == self.resource_kvs@[j].1@,
            decreases self.resource_kvs@.len() - i,
        {
            let k = self.resource_kvs[i].0.clone();
            let v = self.resource_kvs[i].1.clone();
            r.push((k, v));
            i = i + 1;
        }
        r
    }
}

} // verus!

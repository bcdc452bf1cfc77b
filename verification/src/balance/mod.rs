//! Coding-plan providers: the quota records every provider reports, the
//! provider errors, the provider registry, and the per-provider handling of
//! a response once its body has been decoded.

pub mod deepseek;
pub mod glm;
pub mod kimi;
pub mod minimax;
pub mod zcode_local;
pub mod quota_history;
pub mod report;
pub mod kimi_local;

use crate::text::{chars_of, push_all, push_str, string_of};
use vstd::prelude::*;

verus! {

/// One quota window of a provider.
pub struct QuotaInfo {
    pub provider: String,
    pub window: String,
    pub limit: u64,
    pub used: u64,
    pub remaining: u64,
    pub reset_at: Option<String>,
}

/// The mathematical content of a `QuotaInfo`.
pub struct QuotaView {
    pub provider: Seq<char>,
    pub window: Seq<char>,
    pub limit: nat,
    pub used: nat,
    pub remaining: nat,
    pub reset_at: Option<Seq<char>>,
}

pub open spec fn opt_view(o: Option<String>) -> Option<Seq<char>> {
    match o {
        Some(s) => Some(s@),
        None => None,
    }
}

impl View for QuotaInfo {
    type V = QuotaView;

    open spec fn view(&self) -> QuotaView {
        QuotaView {
            provider: self.provider@,
            window: self.window@,
            limit: self.limit as nat,
            used: self.used as nat,
            remaining: self.remaining as nat,
            reset_at: opt_view(self.reset_at),
        }
    }
}

/// A provider's quota windows plus the subscription plan name when the API
/// reports one.
pub struct QuotaSet {
    pub plan: Option<String>,
    pub quotas: Vec<QuotaInfo>,
}

pub open spec fn quotas_view(q: Seq<QuotaInfo>) -> Seq<QuotaView> {
    q.map_values(|x: QuotaInfo| x@)
}

/// What a provider fetch yields. The balance payload `B` (amounts in
/// floating point) is the caller's type and passes through untouched.
pub enum ProviderResult<B> {
    Balance(B),
    Quota(QuotaSet),
    Both { balance: B, quotas: Vec<QuotaInfo> },
}

/// Why a fetch failed.
pub enum ProviderError {
    Network(String),
    Auth(String),
    Parse(String),
}

/// The mathematical content of a `ProviderError`.
pub enum ErrorView {
    Network(Seq<char>),
    Auth(Seq<char>),
    Parse(Seq<char>),
}

impl View for ProviderError {
    type V = ErrorView;

    open spec fn view(&self) -> ErrorView {
        match self {
            ProviderError::Network(s) => ErrorView::Network(s@),
            ProviderError::Auth(s) => ErrorView::Auth(s@),
            ProviderError::Parse(s) => ErrorView::Parse(s@),
        }
    }
}

/// The text of an error: "network: …", "auth: …" or "parse: …".
pub open spec fn error_text(e: ErrorView) -> Seq<char> {
    match e {
        ErrorView::Network(s) => "network: "@ + s,
        ErrorView::Auth(s) => "auth: "@ + s,
        ErrorView::Parse(s) => "parse: "@ + s,
    }
}

impl ProviderError {
    /// The error as text (its `Display` form).
    pub fn message(&self) -> (s: String)
        ensures
            s@ == error_text(self@),
    {
        let mut v: Vec<char> = Vec::new();
        match self {
            ProviderError::Network(e) => {
                push_str(&mut v, "network: ");
                push_str(&mut v, e.as_str());
            },
            ProviderError::Auth(e) => {
                push_str(&mut v, "auth: ");
                push_str(&mut v, e.as_str());
            },
            ProviderError::Parse(e) => {
                push_str(&mut v, "parse: ");
                push_str(&mut v, e.as_str());
            },
        }
        string_of(v.as_slice())
    }
}

/// The provider a monitored instance uses.
#[derive(Clone, Copy, PartialEq, Eq, Debug, Structural)]
pub enum ProviderKind {
    Kimi,
    DeepSeek,
    MiniMax,
    Glm,
}

/// The registry order: Kimi, DeepSeek, MiniMax, GLM.
pub open spec fn kind_name(k: ProviderKind) -> Seq<char> {
    match k {
        ProviderKind::Kimi => "Kimi"@,
        ProviderKind::DeepSeek => "DeepSeek"@,
        ProviderKind::MiniMax => "MiniMax"@,
        ProviderKind::Glm => "GLM"@,
    }
}

/// The provider whose name is `name`, if any.
pub open spec fn kind_named(name: Seq<char>) -> Option<ProviderKind> {
    if name == "Kimi"@ {
        Some(ProviderKind::Kimi)
    } else if name == "DeepSeek"@ {
        Some(ProviderKind::DeepSeek)
    } else if name == "MiniMax"@ {
        Some(ProviderKind::MiniMax)
    } else if name == "GLM"@ {
        Some(ProviderKind::Glm)
    } else {
        None
    }
}

/// Whether two strings hold the same text.
pub fn same_text(a: &str, b: &str) -> (r: bool)
    ensures
        r == (a@ == b@),
{
    let x = chars_of(a);
    let y = chars_of(b);
    if x.len() != y.len() {
        return false;
    }
    let mut i: usize = 0;
    while i < x.len()
        invariant
            i <= x.len() == y.len(),
            x@ == a@,
            y@ == b@,
            x@.take(i as int) == y@.take(i as int),
        decreases x.len() - i,
    {
        if x[i] != y[i] {
            assert(x@[i as int] != y@[i as int]);
            return false;
        }
        i += 1;
        assert(x@.take(i as int) =~= y@.take(i as int));
    }
    assert(x@ =~= x@.take(x.len() as int));
    assert(y@ =~= y@.take(y.len() as int));
    true
}

impl ProviderKind {
    /// The provider's display name.
    pub fn name(&self) -> (s: &'static str)
        ensures
            s@ == kind_name(*self),
    {
        match self {
            ProviderKind::Kimi => "Kimi",
            ProviderKind::DeepSeek => "DeepSeek",
            ProviderKind::MiniMax => "MiniMax",
            ProviderKind::Glm => "GLM",
        }
    }

    /// Looks a provider up by name, as the registry does.
    pub fn named(name: &str) -> (k: Option<ProviderKind>)
        ensures
            k == kind_named(name@),
    {
        if same_text(name, "Kimi") {
            Some(ProviderKind::Kimi)
        } else if same_text(name, "DeepSeek") {
            Some(ProviderKind::DeepSeek)
        } else if same_text(name, "MiniMax") {
            Some(ProviderKind::MiniMax)
        } else if same_text(name, "GLM") {
            Some(ProviderKind::Glm)
        } else {
            None
        }
    }
}

/// Every provider, in registry order.
pub fn all_providers() -> (v: Vec<ProviderKind>)
    ensures
        v@ == seq![ProviderKind::Kimi, ProviderKind::DeepSeek, ProviderKind::MiniMax, ProviderKind::Glm],
{
    let mut v: Vec<ProviderKind> = Vec::new();
    v.push(ProviderKind::Kimi);
    v.push(ProviderKind::DeepSeek);
    v.push(ProviderKind::MiniMax);
    v.push(ProviderKind::Glm);
    v
}

/// One monitor instance to fetch: `id` is the stable instance id, `provider`
/// the provider name, `key` the API key.
pub struct MonitorKey {
    pub id: String,
    pub provider: String,
    pub key: String,
}

/// The fetches a round makes: for each monitor whose provider exists, in
/// order, its index and provider. Instances of an unknown provider are
/// skipped.
pub open spec fn fetch_plan_spec(names: Seq<Seq<char>>) -> Seq<(int, ProviderKind)>
    decreases names.len(),
{
    if names.len() == 0 {
        Seq::empty()
    } else {
        let rest = fetch_plan_spec(names.drop_last());
        match kind_named(names.last()) {
            Some(k) => rest.push(((names.len() - 1) as int, k)),
            None => rest,
        }
    }
}

pub open spec fn key_names(monitors: Seq<MonitorKey>) -> Seq<Seq<char>> {
    monitors.map_values(|m: MonitorKey| m.provider@)
}

/// Which monitors a fetch round fetches, and with which provider.
pub fn fetch_plan(monitors: &Vec<MonitorKey>) -> (plan: Vec<(usize, ProviderKind)>)
    ensures
        plan@.len() == fetch_plan_spec(key_names(monitors@)).len(),
        forall|i: int| 0 <= i < plan@.len() ==> (#[trigger] plan@[i]).0 as int == fetch_plan_spec(key_names(monitors@))[i].0 && plan@[i].1 == fetch_plan_spec(key_names(monitors@))[i].1,
{
    let mut plan: Vec<(usize, ProviderKind)> = Vec::new();
    let mut i: usize = 0;
    while i < monitors.len()
        invariant
            i <= monitors.len(),
            plan@.len() == fetch_plan_spec(key_names(monitors@).take(i as int)).len(),
            forall|j: int| 0 <= j < plan@.len() ==> (#[trigger] plan@[j]).0 as int == fetch_plan_spec(key_names(monitors@).take(i as int))[j].0 && plan@[j].1 == fetch_plan_spec(key_names(monitors@).take(i as int))[j].1,
        decreases monitors.len() - i,
    {
        let ghost before = key_names(monitors@).take(i as int);
        assert(key_names(monitors@).take(i + 1).drop_last() == before);
        assert(key_names(monitors@).take(i + 1).last() == monitors@[i as int].provider@);
        match ProviderKind::named(monitors[i].provider.as_str()) {
            Some(k) => {
                plan.push((i, k));
            },
            None => {},
        }
        i += 1;
    }
    assert(key_names(monitors@).take(monitors.len() as int) == key_names(monitors@));
    plan
}

/// `"<provider>: <error>"`, the line shown for the first failure of a round.
pub fn failure_line(provider: &str, e: &ProviderError) -> (s: String)
    ensures
        s@ == provider@ + ": "@ + error_text(e@),
{
    let mut v = chars_of(provider);
    push_str(&mut v, ": ");
    let m = e.message();
    let mc = chars_of(m.as_str());
    push_all(&mut v, mc.as_slice());
    string_of(v.as_slice())
}

/// Whether an HTTP status means the key was refused (401 or 403).
pub fn is_auth_failure(status: u16) -> (r: bool)
    ensures
        r == (status == 401 || status == 403),
{
    status == 401 || status == 403
}

} // verus!

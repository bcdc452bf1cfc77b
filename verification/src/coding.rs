//! The coding panel and pill as they are drawn: the order of the provider
//! cards, the empty states, the card icons, the quota summaries and the
//! masked API key. The percentages and amounts (floating point) come in
//! already formatted.

use crate::balance::{same_text, ProviderResult, QuotaInfo};
use crate::clock::{local_time, local_time_spec, rfc3339_instant, spec_rfc3339_instant, LocalClock};
use crate::memo::{hour_minute, now_local};
use crate::fetch::FetchOutcome;
use crate::keyed::{string_keys, text_view};
use crate::tasks::ids_view;
use crate::text::{
    chars_lt, chars_of, dec, lemma_seq_lt_asym, lemma_seq_lt_total,
    lemma_seq_lt_trans, padded, push_all, push_str, seq_lt, string_of, u64_digits, zero_pad,
};
use vstd::prelude::*;
use vstd::string::StringSliceAdditionalSpecFns;
use vstd::utf8::{decode_utf8, encode_utf8_decode_utf8, is_char_boundary};

verus! {

// ---------------------------------------------------------------------------
// Card order
// ---------------------------------------------------------------------------

/// Display rank of a provider type: Kimi, GLM, DeepSeek, MiniMax, then the
/// rest.
pub open spec fn provider_rank_spec(p: Seq<char>) -> int {
    if p == "Kimi"@ {
        0
    } else if p == "GLM"@ {
        1
    } else if p == "DeepSeek"@ {
        2
    } else if p == "MiniMax"@ {
        3
    } else {
        99
    }
}

pub fn provider_rank(p: &str) -> (r: u32)
    ensures
        r as int == provider_rank_spec(p@),
{
    if same_text(p, "Kimi") {
        0
    } else if same_text(p, "GLM") {
        1
    } else if same_text(p, "DeepSeek") {
        2
    } else if same_text(p, "MiniMax") {
        3
    } else {
        99
    }
}

/// The value under key `k` of a map held as a list.
pub open spec fn lookup(m: Seq<(Seq<char>, Seq<char>)>, k: Seq<char>) -> Option<Seq<char>>
    decreases m.len(),
{
    if m.len() == 0 {
        None
    } else if m[0].0 == k {
        Some(m[0].1)
    } else {
        lookup(m.drop_first(), k)
    }
}

/// A card's rank: its provider type's, or last when the type is unknown.
pub open spec fn card_rank(meta: Seq<(Seq<char>, Seq<char>)>, id: Seq<char>) -> int {
    match lookup(meta, id) {
        Some(p) => provider_rank_spec(p),
        None => 99,
    }
}

/// Card `a` goes before card `b`: by provider type, then by instance id.
pub open spec fn card_before(meta: Seq<(Seq<char>, Seq<char>)>, a: Seq<char>, b: Seq<char>) -> bool {
    card_rank(meta, a) < card_rank(meta, b) || (card_rank(meta, a) == card_rank(meta, b) && seq_lt(a, b))
}

proof fn lemma_card_before_trans(m: Seq<(Seq<char>, Seq<char>)>, a: Seq<char>, b: Seq<char>, c: Seq<char>)
    requires
        card_before(m, a, b),
        card_before(m, b, c),
    ensures
        card_before(m, a, c),
{
    if card_rank(m, a) == card_rank(m, b) && card_rank(m, b) == card_rank(m, c) {
        lemma_seq_lt_trans(a, b, c);
    }
}

proof fn lemma_card_before_total(m: Seq<(Seq<char>, Seq<char>)>, a: Seq<char>, b: Seq<char>)
    requires
        a != b,
    ensures
        card_before(m, a, b) || card_before(m, b, a),
{
    lemma_seq_lt_total(a, b);
}

fn lookup_text(m: &Vec<(String, String)>, k: &String) -> (r: Option<String>)
    ensures
        (match r {
            Some(s) => Some(s@),
            None => None,
        }) == lookup(text_view(m@), k@),
{
    let ghost tv = text_view(m@);
    let mut i: usize = 0;
    assert(tv.skip(0) =~= tv);
    while i < m.len()
        invariant
            i <= m.len(),
            tv == text_view(m@),
            lookup(tv, k@) == lookup(tv.skip(i as int), k@),
        decreases m.len() - i,
    {
        assert(tv.skip(i as int)[0] == (m@[i as int].0@, m@[i as int].1@));
        if same_text(m[i].0.as_str(), k.as_str()) {
            return Some(m[i].1.clone());
        }
        assert(tv.skip(i as int).drop_first() =~= tv.skip(i + 1));
        i += 1;
    }
    None
}

fn card_rank_of(meta: &Vec<(String, String)>, id: &String) -> (r: u32)
    ensures
        r as int == card_rank(text_view(meta@), id@),
{
    match lookup_text(meta, id) {
        Some(p) => provider_rank(p.as_str()),
        None => 99,
    }
}

fn card_before_exec(meta: &Vec<(String, String)>, a: &String, b: &String) -> (r: bool)
    ensures
        r == card_before(text_view(meta@), a@, b@),
{
    let ra = card_rank_of(meta, a);
    let rb = card_rank_of(meta, b);
    if ra != rb {
        return ra < rb;
    }
    let ac = chars_of(a.as_str());
    let bc = chars_of(b.as_str());
    chars_lt(ac.as_slice(), bc.as_slice())
}

fn has_key<V>(l: &Vec<(String, V)>, k: &String) -> (r: bool)
    ensures
        r == string_keys(l@).contains(k@),
{
    let mut i: usize = 0;
    while i < l.len()
        invariant
            i <= l.len(),
            forall|j: int| 0 <= j < i ==> #[trigger] string_keys(l@)[j] != k@,
        decreases l.len() - i,
    {
        if same_text(l[i].0.as_str(), k.as_str()) {
            assert(string_keys(l@)[i as int] == k@);
            return true;
        }
        i += 1;
    }
    false
}

pub open spec fn no_dup(s: Seq<Seq<char>>) -> bool {
    forall|i: int, j: int| 0 <= i < j < s.len() ==> #[trigger] s[i] != #[trigger] s[j]
}

proof fn lemma_sorted_no_dup(s: Seq<Seq<char>>)
    requires
        crate::keyed::strictly_sorted(s),
    ensures
        no_dup(s),
{
    assert forall|i: int, j: int| 0 <= i < j < s.len() implies #[trigger] s[i] != #[trigger] s[j] by {
        lemma_seq_lt_asym(s[i], s[j]);
    }
}

/// The ids of the cards: every instance with a result or an error, once
/// each, ordered by provider type and then by id.
pub fn card_order<B>(o: &FetchOutcome<B>) -> (out: Vec<String>)
    requires
        o.sorted(),
    ensures
        forall|i: int, j: int|
            0 <= i < j < out@.len() ==> card_before(text_view(o.meta@), #[trigger] out@[i]@, #[trigger] out@[j]@),
        forall|k: Seq<char>|
            #[trigger] ids_view(out@).contains(k) <==> (string_keys(o.data@).contains(k) || string_keys(
                o.errors@,
            ).contains(k)),
{
    let ghost dk = string_keys(o.data@);
    let ghost ek = string_keys(o.errors@);
    let ghost mv = text_view(o.meta@);
    proof {
        lemma_sorted_no_dup(dk);
        lemma_sorted_no_dup(ek);
    }
    // Every id once: the results' ids, then the failures' ids not among them.
    let mut cand: Vec<String> = Vec::new();
    let mut i: usize = 0;
    while i < o.data.len()
        invariant
            i <= o.data.len(),
            dk == string_keys(o.data@),
            ids_view(cand@) == dk.take(i as int),
        decreases o.data.len() - i,
    {
        let ghost prev = ids_view(cand@);
        cand.push(o.data[i].0.clone());
        assert(dk[i as int] == o.data@[i as int].0@);
        assert(ids_view(cand@) =~= prev.push(dk[i as int]));
        i += 1;
        assert(ids_view(cand@) =~= dk.take(i as int));
    }
    assert(dk.take(o.data.len() as int) =~= dk);
    let mut j: usize = 0;
    while j < o.errors.len()
        invariant
            j <= o.errors.len(),
            dk == string_keys(o.data@),
            ek == string_keys(o.errors@),
            no_dup(dk),
            no_dup(ek),
            no_dup(ids_view(cand@)),
            forall|k: Seq<char>|
                #[trigger] ids_view(cand@).contains(k) <==> (dk.contains(k) || ek.take(j as int).contains(k)),
        decreases o.errors.len() - j,
    {
        let k = &o.errors[j].0;
        proof {
            assert(ek[j as int] == k@);
        }
        let ghost c0 = ids_view(cand@);
        let in_data = has_key(&o.data, k);
        if !in_data {
            proof {
                assert(!c0.contains(k@)) by {
                    if c0.contains(k@) {
                        assert(ek.take(j as int).contains(k@));
                        let w = choose|w: int| 0 <= w < j && #[trigger] ek.take(j as int)[w] == k@;
                        assert(ek[w] == ek[j as int]);
                    }
                }
            }
            cand.push(k.clone());
            proof {
                assert(ids_view(cand@) =~= c0.push(k@));
                assert forall|a: int, b: int| 0 <= a < b < ids_view(cand@).len() implies #[trigger] ids_view(cand@)[a]
                    != #[trigger] ids_view(cand@)[b] by {
                    if b == c0.len() {
                        assert(c0.contains(c0[a]));
                    }
                }
            }
        }
        proof {
            let t0 = ek.take(j as int);
            let t1 = ek.take(j + 1);
            assert(t1 =~= t0.push(k@));
            assert forall|x: Seq<char>| #[trigger] ids_view(cand@).contains(x) <==> (dk.contains(x) || t1.contains(x)) by {
                assert(t1.contains(x) <==> (t0.contains(x) || x == k@)) by {
                    if t1.contains(x) {
                        let w = choose|w: int| 0 <= w < t1.len() && #[trigger] t1[w] == x;
                        if w < j {
                            assert(t0[w] == x);
                        }
                    }
                    if t0.contains(x) {
                        let w = choose|w: int| 0 <= w < t0.len() && #[trigger] t0[w] == x;
                        assert(t1[w] == x);
                    }
                    if x == k@ {
                        assert(t1[j as int] == x);
                    }
                }
                if !in_data {
                    let c1 = ids_view(cand@);
                    assert(c1.contains(x) <==> (c0.contains(x) || x == k@)) by {
                        if c1.contains(x) {
                            let w = choose|w: int| 0 <= w < c1.len() && #[trigger] c1[w] == x;
                            if w < c0.len() {
                                assert(c0[w] == x);
                            }
                        }
                        if c0.contains(x) {
                            let w = choose|w: int| 0 <= w < c0.len() && #[trigger] c0[w] == x;
                            assert(c1[w] == x);
                        }
                        if x == k@ {
                            assert(c1[c0.len() as int] == x);
                        }
                    }
                }
            }
        }
        j += 1;
    }
    assert(ek.take(o.errors.len() as int) =~= ek);
    // Insertion sort by card order.
    let ghost cv = ids_view(cand@);
    let mut out: Vec<String> = Vec::new();
    let mut n: usize = 0;
    while n < cand.len()
        invariant
            n <= cand.len(),
            cv == ids_view(cand@),
            no_dup(cv),
            mv == text_view(o.meta@),
            forall|a: int, b: int| 0 <= a < b < out@.len() ==> card_before(mv, #[trigger] out@[a]@, #[trigger] out@[b]@),
            forall|x: Seq<char>| #[trigger] ids_view(out@).contains(x) <==> cv.take(n as int).contains(x),
        decreases cand.len() - n,
    {
        let x = cand[n].clone();
        assert(x@ == cv[n as int]);
        let ghost before = out@;
        let mut p: usize = 0;
        while p < out.len() && !card_before_exec(&o.meta, &x, &out[p])
            invariant
                p <= out.len(),
                out@ == before,
                mv == text_view(o.meta@),
                forall|a: int| 0 <= a < p ==> !card_before(mv, x@, #[trigger] out@[a]@),
            decreases out.len() - p,
        {
            p += 1;
        }
        proof {
            assert(!ids_view(before).contains(x@)) by {
                if ids_view(before).contains(x@) {
                    assert(cv.take(n as int).contains(x@));
                    let w = choose|w: int| 0 <= w < n && cv.take(n as int)[w] == x@;
                    assert(cv[w] == cv[n as int]);
                }
            }
            assert forall|a: int| 0 <= a < before.len() implies before[a]@ != x@ by {
                assert(ids_view(before)[a] == before[a]@);
            }
        }
        out.insert(p, x);
        proof {
            let nv = out@;
            assert forall|a: int, b: int| 0 <= a < b < nv.len() implies card_before(mv, #[trigger] nv[a]@, #[trigger] nv[b]@) by {
                if b < p {
                    assert(nv[a] == before[a] && nv[b] == before[b]);
                } else if b == p {
                    assert(nv[a] == before[a]);
                    lemma_card_before_total(mv, x@, before[a]@);
                } else if a == p {
                    assert(nv[b] == before[b - 1]);
                    if b - 1 > p {
                        lemma_card_before_trans(mv, x@, before[p as int]@, before[b - 1]@);
                    }
                } else if a < p {
                    assert(nv[a] == before[a] && nv[b] == before[b - 1]);
                } else {
                    assert(nv[a] == before[a - 1] && nv[b] == before[b - 1]);
                }
            }
            assert(cv.take(n + 1) =~= cv.take(n as int).push(x@));
            assert forall|y: Seq<char>| #[trigger] ids_view(out@).contains(y) <==> cv.take(n + 1).contains(y) by {
                if ids_view(out@).contains(y) {
                    let w = choose|w: int| 0 <= w < ids_view(out@).len() && ids_view(out@)[w] == y;
                    if w < p {
                        assert(ids_view(before)[w] == y);
                        assert(ids_view(before).contains(y));
                    } else if w > p {
                        assert(ids_view(before)[w - 1] == y);
                        assert(ids_view(before).contains(y));
                    }
                    if y != x@ {
                        assert(cv.take(n as int).contains(y));
                        let v = choose|v: int| 0 <= v < n && cv.take(n as int)[v] == y;
                        assert(cv.take(n + 1)[v] == y);
                    } else {
                        assert(cv.take(n + 1)[n as int] == y);
                    }
                }
                if cv.take(n + 1).contains(y) {
                    let v = choose|v: int| 0 <= v < n + 1 && #[trigger] cv.take(n + 1)[v] == y;
                    if v < n {
                        assert(cv.take(n as int)[v] == y);
                        assert(ids_view(before).contains(y));
                        let w = choose|w: int| 0 <= w < ids_view(before).len() && ids_view(before)[w] == y;
                        if w < p {
                            assert(ids_view(out@)[w] == y);
                        } else {
                            assert(ids_view(out@)[w + 1] == y);
                        }
                    } else {
                        assert(ids_view(out@)[p as int] == y);
                    }
                }
            }
        }
        n += 1;
    }
    assert(cv.take(cand.len() as int) =~= cv);
    out
}

// ---------------------------------------------------------------------------
// Empty panel, icons
// ---------------------------------------------------------------------------

/// What the panel shows when no card does.
pub enum EmptyPanel {
    /// No monitor saved: "No API keys configured." and the add row.
    NoKeys,
    /// Monitors saved but the last round failed: the error.
    FetchFailed(String),
    /// Monitors saved, first round still running: "Fetching balance...".
    Fetching,
}

/// The empty panel for `monitor_count` saved monitors and the round's first
/// error.
pub fn empty_panel(monitor_count: usize, last_error: &String) -> (r: EmptyPanel)
    ensures
        monitor_count == 0 ==> r is NoKeys,
        monitor_count > 0 && last_error@.len() > 0 ==> (r matches EmptyPanel::FetchFailed(e) && e@ == last_error@),
        monitor_count > 0 && last_error@.len() == 0 ==> r is Fetching,
{
    if monitor_count == 0 {
        EmptyPanel::NoKeys
    } else if !last_error.as_str().is_empty() {
        EmptyPanel::FetchFailed(last_error.clone())
    } else {
        EmptyPanel::Fetching
    }
}

/// A provider card's icon: its letters and CSS class.
pub fn provider_icon(p: &str) -> (r: (&'static str, &'static str))
    ensures
        p@ == "Kimi"@ ==> r.0@ == "K"@ && r.1@ == "provider-card-icon kimi"@,
        p@ == "DeepSeek"@ ==> r.0@ == "DS"@ && r.1@ == "provider-card-icon deepseek"@,
        p@ == "MiniMax"@ ==> r.0@ == "MM"@ && r.1@ == "provider-card-icon minimax"@,
        p@ == "GLM"@ ==> r.0@ == "G"@ && r.1@ == "provider-card-icon glm"@,
        p@ != "Kimi"@ && p@ != "DeepSeek"@ && p@ != "MiniMax"@ && p@ != "GLM"@ ==> r.0@ == "?"@ && r.1@
            == "provider-card-icon"@,
{
    proof {
        reveal_strlit("Kimi");
        reveal_strlit("DeepSeek");
        reveal_strlit("MiniMax");
        reveal_strlit("GLM");
        assert("Kimi"@.len() == 4 && "DeepSeek"@.len() == 8 && "MiniMax"@.len() == 7 && "GLM"@.len() == 3);
    }
    if same_text(p, "Kimi") {
        ("K", "provider-card-icon kimi")
    } else if same_text(p, "DeepSeek") {
        ("DS", "provider-card-icon deepseek")
    } else if same_text(p, "MiniMax") {
        ("MM", "provider-card-icon minimax")
    } else if same_text(p, "GLM") {
        ("G", "provider-card-icon glm")
    } else {
        ("?", "provider-card-icon")
    }
}

// ---------------------------------------------------------------------------
// Quota summaries
// ---------------------------------------------------------------------------

/// A window's short name: "weekly" shows as "7d".
pub open spec fn window_short(w: Seq<char>) -> Seq<char> {
    if w == "weekly"@ {
        "7d"@
    } else {
        w
    }
}

/// "<window> <pct>%": one window of a summary.
pub open spec fn summary_item(w: Seq<char>, pct: Seq<char>) -> Seq<char> {
    window_short(w) + " "@ + pct + "%"@
}

/// The items of the first two windows, joined by " · ".
pub open spec fn summary_spec(windows: Seq<Seq<char>>, pcts: Seq<Seq<char>>) -> Seq<char> {
    if windows.len() == 0 {
        Seq::empty()
    } else if windows.len() == 1 {
        summary_item(windows[0], pcts[0])
    } else {
        summary_item(windows[0], pcts[0]) + " · "@ + summary_item(windows[1], pcts[1])
    }
}

pub open spec fn window_names(q: Seq<QuotaInfo>) -> Seq<Seq<char>> {
    q.map_values(|x: QuotaInfo| x.window@)
}

pub open spec fn texts(v: Seq<String>) -> Seq<Seq<char>> {
    v.map_values(|s: String| s@)
}

/// The compact summary of a provider's quota windows, e.g.
/// "5h 20% · 7d 55%", from each window's formatted percentage.
pub fn quota_summary(quotas: &Vec<QuotaInfo>, pcts: &Vec<String>) -> (s: String)
    requires
        pcts@.len() >= quotas@.len() || pcts@.len() >= 2,
    ensures
        s@ == summary_spec(window_names(quotas@), texts(pcts@)),
{
    let mut v: Vec<char> = Vec::new();
    let n = quotas.len();
    let mut i: usize = 0;
    let ghost ws = window_names(quotas@);
    let ghost ps = texts(pcts@);
    proof {
        reveal_strlit(" · ");
        reveal_strlit(" ");
        reveal_strlit("%");
        reveal_strlit("7d");
        reveal_strlit("weekly");
    }
    while i < n && i < 2
        invariant
            i <= n,
            i <= 2,
            n == quotas@.len(),
            pcts@.len() >= n || pcts@.len() >= 2,
            ws == window_names(quotas@),
            ps == texts(pcts@),
            i == 0 ==> v@.len() == 0,
            i == 1 ==> v@ == summary_item(ws[0], ps[0]),
            i == 2 ==> v@ == summary_item(ws[0], ps[0]) + " · "@ + summary_item(ws[1], ps[1]),
        decreases 2 - i,
    {
        proof {
            reveal_strlit(" · ");
            reveal_strlit(" ");
            reveal_strlit("%");
            reveal_strlit("7d");
            reveal_strlit("weekly");
        }
        let ghost prev = v@;
        if i == 1 {
            push_str(&mut v, " · ");
        }
        let ghost mid = v@;
        let q = &quotas[i];
        if same_text(q.window.as_str(), "weekly") {
            push_str(&mut v, "7d");
        } else {
            push_str(&mut v, q.window.as_str());
        }
        v.push(' ');
        push_str(&mut v, pcts[i].as_str());
        v.push('%');
        proof {
            assert(ws[i as int] == q.window@);
            assert(ps[i as int] == pcts@[i as int]@);
            assert(v@ =~= mid + summary_item(ws[i as int], ps[i as int]));
        }
        i += 1;
    }
    assert(v@ =~= summary_spec(window_names(quotas@), texts(pcts@)));
    string_of(v.as_slice())
}

/// The island pill's line for a fetch result: (provider label, text). A
/// balance shows its label and amount text (`balance`, formatted by the
/// caller); quota windows show the first window's provider and the compact
/// summary, or "No data" without windows.
pub fn coding_pill_line<B>(result: &ProviderResult<B>, pcts: &Vec<String>, balance: &(String, String)) -> (r: (
    Option<String>,
    String,
))
    requires
        result matches ProviderResult::Quota(qs) ==> (pcts@.len() >= qs.quotas@.len() || pcts@.len() >= 2),
    ensures
        match result {
            ProviderResult::Quota(qs) => if qs.quotas@.len() == 0 {
                r.0 is None && r.1@ == "No data"@
            } else {
                (r.0 matches Some(l) && l@ == qs.quotas@[0].provider@) && r.1@ == summary_spec(
                    window_names(qs.quotas@),
                    texts(pcts@),
                )
            },
            _ => (r.0 matches Some(l) && l@ == balance.0@) && r.1@ == balance.1@,
        },
{
    match result {
        ProviderResult::Quota(qs) => {
            if qs.quotas.len() == 0 {
                let t = String::from_str("No data");
                proof {
                    reveal_strlit("No data");
                }
                (None, t)
            } else {
                (Some(qs.quotas[0].provider.clone()), quota_summary(&qs.quotas, pcts))
            }
        },
        _ => (Some(balance.0.clone()), balance.1.clone()),
    }
}

/// A collapsed card's quick summary: the quota summary (none when it is
/// empty), or the remaining amount (`amount`, formatted by the caller).
pub fn card_quick<B>(result: &ProviderResult<B>, pcts: &Vec<String>, amount: &String) -> (r: Option<String>)
    requires
        result matches ProviderResult::Quota(qs) ==> (pcts@.len() >= qs.quotas@.len() || pcts@.len() >= 2),
    ensures
        match result {
            ProviderResult::Quota(qs) => if qs.quotas@.len() == 0 {
                r is None
            } else {
                (r matches Some(s) && s@ == summary_spec(window_names(qs.quotas@), texts(pcts@)))
            },
            _ => (r matches Some(s) && s@ == amount@),
        },
{
    match result {
        ProviderResult::Quota(qs) => {
            let s = quota_summary(&qs.quotas, pcts);
            if qs.quotas.len() == 0 {
                None
            } else {
                Some(s)
            }
        },
        _ => Some(amount.clone()),
    }
}

// ---------------------------------------------------------------------------
// The masked key
// ---------------------------------------------------------------------------

/// An API key for display: bullets for a key of 8 bytes or fewer, else its
/// first 4 and last 3 bytes around an ellipsis. Both cuts must fall on
/// character boundaries (slicing there panics otherwise).
pub fn mask_key(key: &str) -> (m: String)
    requires
        key.spec_bytes().len() <= usize::MAX,
        key.spec_bytes().len() > 8 ==> is_char_boundary(key.spec_bytes(), 4) && is_char_boundary(
            key.spec_bytes(),
            key.spec_bytes().len() - 3,
        ),
    ensures
        key.spec_bytes().len() <= 8 ==> m@ == "••••"@,
        key.spec_bytes().len() > 8 ==> m@ == decode_utf8(key.spec_bytes().subrange(0, 4)) + "…"@ + decode_utf8(
            key.spec_bytes().subrange(key.spec_bytes().len() - 3, key.spec_bytes().len() as int),
        ),
{
    let n = key.len();
    if n <= 8 {
        return String::from_str("••••");
    }
    let (head, _) = key.split_at(4);
    let (_, tail) = key.split_at(n - 3);
    proof {
        encode_utf8_decode_utf8(head@);
        encode_utf8_decode_utf8(tail@);
    }
    let m = String::from_str(head).concat("…").concat(tail);
    m
}

// ---------------------------------------------------------------------------
// Reset times
// ---------------------------------------------------------------------------

/// The label of a quota window's reset time (RFC 3339): "HH:MM" when it is
/// today, "M-D HH:MM" otherwise; text that does not read as RFC 3339 (or
/// whose local date leaves the calendar) is shown as it is.
pub open spec fn reset_label_spec(iso: Seq<char>, c: LocalClock) -> Seq<char> {
    match spec_rfc3339_instant(iso) {
        None => iso,
        Some(t) => match local_time_spec(t, c.offset as int) {
            None => iso,
            Some(l) => if (now_local(c) matches Some(n) && n.julian == l.julian) {
                hour_minute(l)
            } else {
                dec(l.month as nat) + "-"@ + dec(l.day as nat) + " "@ + hour_minute(l)
            },
        },
    }
}

/// The reset label of `iso` at clock `c`.
pub fn reset_label_at(iso: &str, c: LocalClock) -> (r: String)
    requires
        c.wf(),
    ensures
        r@ == reset_label_spec(iso@, c),
{
    let t = match rfc3339_instant(iso) {
        Some(t) => t,
        None => return String::from_str(iso),
    };
    let l = match local_time(t, c.offset) {
        Some(l) => l,
        None => return String::from_str(iso),
    };
    let today = match local_time(c.now, c.offset) {
        Some(n) => n.julian == l.julian,
        None => false,
    };
    let mut v: Vec<char> = Vec::new();
    if !today {
        let m = u64_digits(l.month as u64);
        push_all(&mut v, m.as_slice());
        v.push('-');
        let d = u64_digits(l.day as u64);
        push_all(&mut v, d.as_slice());
        v.push(' ');
    }
    let h = padded(l.hour as i64, 2);
    push_all(&mut v, h.as_slice());
    v.push(':');
    let mi = padded(l.minute as i64, 2);
    push_all(&mut v, mi.as_slice());
    proof {
        reveal_strlit("-");
        reveal_strlit(" ");
        reveal_strlit(":");
    }
    assert(v@ =~= reset_label_spec(iso@, c));
    string_of(v.as_slice())
}

/// The label of a quota window's reset time, now.
pub fn reset_label(iso: &str) -> (r: String)
    ensures
        exists|c: LocalClock| #[trigger] c.wf() && r@ == reset_label_spec(iso@, c),
{
    let c = crate::clock::local_clock();
    reset_label_at(iso, c)
}

/// The add-monitor row's key draft on submit: the trimmed key, or nothing
/// (no monitor is added) when it is blank.
pub fn monitor_key_draft(text: &str) -> (r: Option<String>)
    ensures
        crate::text::trim(text@).len() == 0 ==> r is None,
        crate::text::trim(text@).len() > 0 ==> (r matches Some(k) && k@ == crate::text::trim(text@)),
{
    let cs = chars_of(text);
    let t = crate::text::trim_chars(cs.as_slice());
    if t.len() == 0 {
        None
    } else {
        Some(string_of(t.as_slice()))
    }
}

/// Cards order by provider type: Kimi first, then GLM, DeepSeek, MiniMax,
/// and every other type after them, all alike.
pub proof fn law_provider_order(other: Seq<char>, another: Seq<char>)
    requires
        other != "Kimi"@ && other != "GLM"@ && other != "DeepSeek"@ && other != "MiniMax"@,
        another != "Kimi"@ && another != "GLM"@ && another != "DeepSeek"@ && another != "MiniMax"@,
    ensures
        provider_rank_spec("Kimi"@) < provider_rank_spec("GLM"@),
        provider_rank_spec("GLM"@) < provider_rank_spec("DeepSeek"@),
        provider_rank_spec("DeepSeek"@) < provider_rank_spec("MiniMax"@),
        provider_rank_spec("MiniMax"@) < provider_rank_spec(other),
        provider_rank_spec(other) == provider_rank_spec(another),
{
    reveal_strlit("Kimi");
    reveal_strlit("GLM");
    reveal_strlit("DeepSeek");
    reveal_strlit("MiniMax");
    assert("Kimi"@.len() == 4 && "GLM"@.len() == 3 && "DeepSeek"@.len() == 8 && "MiniMax"@.len() == 7);
}

} // verus!

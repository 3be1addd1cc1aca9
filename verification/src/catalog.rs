//! Linked servers: whether they answer, and which models they offer.
use vstd::prelude::*;

use crate::download::minus;
use crate::json::{array_at, item_pointer, pointer_of, read_array, read_text, text_at};
use crate::listen::{base_parts, split_openai_base};
use crate::order::{ascending, sorted_unique, text_before, text_lt};
use crate::peers::api_base;
use crate::remotes::{normalize_openai_base, openai_base};
use crate::text::{decimal, number, opt_text, same, texts, trim, trimmed, Text};

verus! {

broadcast use vstd::string::group_string_axioms;

/// How long an answer is believed, in milliseconds.
pub const HEALTH_CACHE: u64 = 5_000;

/// Whether a linked server answers.
#[derive(Debug)]
pub struct RemoteHealth {
    pub ok: bool,
    pub model: Option<String>,
    pub status: Option<String>,
    pub error: Option<String>,
}

/// The view of [`RemoteHealth`].
pub struct HealthView {
    pub ok: bool,
    pub model: Option<Text>,
    pub status: Option<Text>,
    pub error: Option<Text>,
}

impl View for RemoteHealth {
    type V = HealthView;

    open spec fn view(&self) -> HealthView {
        HealthView {
            ok: self.ok,
            model: opt_text(self.model),
            status: opt_text(self.status),
            error: opt_text(self.error),
        }
    }
}

impl Clone for RemoteHealth {
    fn clone(&self) -> (r: Self)
        ensures
            r@ == self@,
    {
        RemoteHealth {
            ok: self.ok,
            model: crate::config::copy_opt(&self.model),
            status: crate::config::copy_opt(&self.status),
            error: crate::config::copy_opt(&self.error),
        }
    }
}

/// A model that a linked host offers.
#[derive(Debug)]
pub struct RemoteModelOption {
    pub id: String,
    pub model: String,
    pub base: String,
    pub port: u16,
    pub ready: bool,
    pub label: String,
}

/// The view of [`RemoteModelOption`].
#[verifier::ext_equal]
pub struct OptionView {
    pub id: Text,
    pub model: Text,
    pub base: Text,
    pub port: u16,
    pub ready: bool,
    pub label: Text,
}

impl View for RemoteModelOption {
    type V = OptionView;

    open spec fn view(&self) -> OptionView {
        OptionView {
            id: self.id@,
            model: self.model@,
            base: self.base@,
            port: self.port,
            ready: self.ready,
            label: self.label@,
        }
    }
}

impl Clone for RemoteModelOption {
    fn clone(&self) -> (r: Self)
        ensures
            r@ == self@,
    {
        RemoteModelOption {
            id: self.id.clone(),
            model: self.model.clone(),
            base: self.base.clone(),
            port: self.port,
            ready: self.ready,
            label: self.label.clone(),
        }
    }
}

/// The views of models.
pub open spec fn options(v: Seq<RemoteModelOption>) -> Seq<OptionView> {
    Seq::new(v.len(), |i: int| v[i]@)
}

/// The identifiers in an answer, of the items up to `n`.
pub open spec fn model_ids(body: Text, n: nat) -> Seq<Text>
    decreases n,
{
    if n == 0 {
        Seq::empty()
    } else {
        let init = model_ids(body, (n - 1) as nat);
        match text_at(body, "/data"@ + item_pointer((n - 1) as nat, "id"@)) {
            Some(id) => init.push(id),
            None => init,
        }
    }
}

/// The models that an answer lists.
pub open spec fn listed_models(body: Text) -> Seq<Text> {
    match array_at(body, "/data"@) {
        Some(n) => model_ids(body, n),
        None => Seq::empty(),
    }
}

/// What an answer of a linked server comes to: its status, how that is shown,
/// and its body or why that cannot be read.
pub open spec fn models_answer(status: u16, shown: Text, body: Result<Text, Text>) -> Result<
    Seq<Text>,
    Text,
> {
    if status != 200 {
        Err("Remote responded with "@ + shown)
    } else {
        match body {
            Err(e) => Err(e),
            Ok(b) => if listed_models(b).len() == 0 {
                Err("Remote /models returned no models"@)
            } else {
                Ok(listed_models(b))
            },
        }
    }
}

/// The view of the models of an answer.
pub open spec fn models_view(r: Result<Vec<String>, String>) -> Result<Seq<Text>, Text> {
    match r {
        Ok(v) => Ok(texts(v@)),
        Err(e) => Err(e@),
    }
}

/// The models that an answer lists; an answer without any is an error.
pub fn remote_models(status: u16, shown: &str, body: Result<String, String>) -> (r: Result<
    Vec<String>,
    String,
>)
    ensures
        models_view(r) == models_answer(status, shown@, crate::listen::res_text(body)),
{
    if status != 200 {
        let mut e = "Remote responded with ".to_owned();
        e.append(shown);
        return Err(e);
    }
    let body = match body {
        Ok(b) => b,
        Err(e) => {
            return Err(e);
        },
    };
    let body = body.as_str();
    let mut out: Vec<String> = Vec::new();
    proof {
        assert(texts(out@) =~= Seq::<Text>::empty());
    }
    match read_array(body, "/data") {
        Some(n) => {
            let mut i: usize = 0;
            while i < n
                invariant
                    i <= n,
                    texts(out@) == model_ids(body@, i as nat),
                decreases n - i,
            {
                let ghost was = texts(out@);
                let mut at = "/data".to_owned();
                at.append(pointer_of(i, "id").as_str());
                match read_text(body, at.as_str()) {
                    Some(id) => {
                        let ghost t = id@;
                        out.push(id);
                        proof {
                            assert(texts(out@) =~= was.push(t));
                        }
                    },
                    None => {},
                }
                i = i + 1;
            }
        },
        None => {},
    }
    proof {
        assert(texts(out@).len() == out.len());
    }
    if out.len() == 0 {
        Err("Remote /models returned no models".to_owned())
    } else {
        Ok(out)
    }
}

/// Where a linked server is asked for its models.
pub fn models_url(base: &str) -> (r: Result<String, String>)
    ensures
        crate::listen::res_text(r) == (match openai_base(base@) {
            Some(b) => Ok(b + "/models"@),
            None => Err("No remote URL configured"@),
        }),
{
    match normalize_openai_base(base) {
        Some(b) => {
            let mut url = b;
            url.append("/models");
            Ok(url)
        },
        None => Err("No remote URL configured".to_owned()),
    }
}

/// The header with which a key is sent, if there is one.
pub fn bearer(token: &str) -> (r: Option<String>)
    ensures
        opt_text(r) == (if trimmed(token@).len() > 0 {
            Some("Bearer "@ + trimmed(token@))
        } else {
            None
        }),
{
    let t = trim(token);
    if t.as_str().is_empty() {
        None
    } else {
        let mut h = "Bearer ".to_owned();
        h.append(t.as_str());
        Some(h)
    }
}

/// Whether a linked server answers, from its models or why there are none.
pub open spec fn health_of(r: Result<Seq<Text>, Text>) -> HealthView {
    match r {
        Ok(v) => HealthView {
            ok: true,
            model: if v.len() > 0 {
                Some(v[0])
            } else {
                None
            },
            status: Some("ready"@),
            error: None,
        },
        Err(e) => HealthView { ok: false, model: None, status: None, error: Some(e) },
    }
}

/// Whether a linked server answers.
pub fn remote_state(r: &Result<Vec<String>, String>) -> (h: RemoteHealth)
    ensures
        h@ == health_of(models_view(*r)),
{
    match r {
        Ok(v) => {
            let model = if v.len() > 0 {
                proof {
                    assert(texts(v@)[0] == v@[0]@);
                }
                Some(v[0].clone())
            } else {
                None
            };
            RemoteHealth { ok: true, model, status: Some("ready".to_owned()), error: None }
        },
        Err(e) => RemoteHealth { ok: false, model: None, status: None, error: Some(e.clone()) },
    }
}

/// What answers are filed under.
pub open spec fn cache_key(base: Text, token: Text) -> Text {
    base + "|"@ + token
}

fn key_text(base: &str, token: &str) -> (out: String)
    ensures
        out@ == cache_key(base@, token@),
{
    let mut out = base.to_owned();
    out.append("|");
    out.append(token);
    out
}

/// The last answer of a linked server, for a short time.
#[derive(Debug)]
pub struct HealthCache {
    pub last: Option<(String, u64, RemoteHealth)>,
}

/// The last answer, as far as it is believed.
pub open spec fn health_known(c: HealthCache, base: Text, token: Text, now: u64) -> Option<
    HealthView,
> {
    match c.last {
        Some((k, at, h)) if k@ == cache_key(base, token) && minus(now, at) < HEALTH_CACHE => Some(
            h@,
        ),
        _ => None,
    }
}

impl HealthCache {
    /// No answer yet.
    pub fn new() -> (r: HealthCache)
        ensures
            r.last is None,
    {
        HealthCache { last: None }
    }

    /// The last answer, as far as it is believed.
    pub fn peek(&self, base: &str, token: &str, now: u64) -> (r: Option<RemoteHealth>)
        ensures
            (match r {
                Some(h) => Some(h@),
                None => None::<HealthView>,
            }) == health_known(*self, base@, token@, now),
    {
        match &self.last {
            Some((k, at, h)) => {
                if same(k.as_str(), key_text(base, token).as_str()) && now.saturating_sub(*at)
                    < HEALTH_CACHE {
                    Some(h.clone())
                } else {
                    None
                }
            },
            None => None,
        }
    }

    /// Files an answer: from now on it is the one that is known.
    pub fn probe(&mut self, base: &str, token: &str, health: RemoteHealth, now: u64) -> (r:
        RemoteHealth)
        ensures
            r@ == health@,
            health_known(*final(self), base@, token@, now) == Some(health@),
            final(self).last matches Some(x) && x.0@ == cache_key(base@, token@) && x.1 == now
                && x.2@ == health@,
    {
        let copy = health.clone();
        self.last = Some((key_text(base, token), now, health));
        copy
    }
}

/// The models that a linked host offers, for a short time.
#[derive(Debug)]
pub struct CatalogCache {
    pub last: Option<(String, u64, Vec<RemoteModelOption>)>,
}

/// The models, as far as the answer is believed.
pub open spec fn catalog_known(c: CatalogCache, base: Text, token: Text, now: u64) -> Option<
    Seq<OptionView>,
> {
    match c.last {
        Some((k, at, v)) if k@ == cache_key(base, token) && minus(now, at) < HEALTH_CACHE => Some(
            options(v@),
        ),
        _ => None,
    }
}

fn copy_options(v: &Vec<RemoteModelOption>) -> (out: Vec<RemoteModelOption>)
    ensures
        options(out@) == options(v@),
{
    let mut out: Vec<RemoteModelOption> = Vec::new();
    let mut i: usize = 0;
    while i < v.len()
        invariant
            i <= v.len(),
            out.len() == i,
            forall|k: int| 0 <= k < i ==> (#[trigger] out@[k])@ == v@[k]@,
        decreases v.len() - i,
    {
        out.push(v[i].clone());
        i = i + 1;
    }
    proof {
        assert(options(out@) =~= options(v@));
    }
    out
}

impl CatalogCache {
    /// No answer yet.
    pub fn new() -> (r: CatalogCache)
        ensures
            r.last is None,
    {
        CatalogCache { last: None }
    }

    /// The models, as far as the answer is believed.
    pub fn peek(&self, base: &str, token: &str, now: u64) -> (r: Option<Vec<RemoteModelOption>>)
        ensures
            (match r {
                Some(v) => Some(options(v@)),
                None => None::<Seq<OptionView>>,
            }) == catalog_known(*self, base@, token@, now),
    {
        match &self.last {
            Some((k, at, v)) => {
                if same(k.as_str(), key_text(base, token).as_str()) && now.saturating_sub(*at)
                    < HEALTH_CACHE {
                    Some(copy_options(v))
                } else {
                    None
                }
            },
            None => None,
        }
    }

    /// Files the models: from now on they are what is known.
    pub fn probe(&mut self, base: &str, token: &str, found: Vec<RemoteModelOption>, now: u64) -> (r:
        Vec<RemoteModelOption>)
        ensures
            options(r@) == options(found@),
            catalog_known(*final(self), base@, token@, now) == Some(options(found@)),
            final(self).last matches Some(x) && x.0@ == cache_key(base@, token@) && x.1 == now
                && options(x.2@) == options(found@),
    {
        let copy = copy_options(&found);
        self.last = Some((key_text(base, token), now, found));
        copy
    }
}

/// An answer is not believed for another key, nor after its time.
pub proof fn law_answers_are_for_their_key(
    c: HealthCache,
    base: Text,
    token: Text,
    now: u64,
)
    requires
        c.last matches Some(x) ==> x.0@ != cache_key(base, token) || minus(now, x.1)
            >= HEALTH_CACHE,
    ensures
        health_known(c, base, token, now) is None,
{
}

/// The ports around one: up to four above, and up to four below that are not
/// zero.
pub open spec fn neighbours(port: u16, n: nat) -> Seq<u16>
    decreases n,
{
    if n == 0 {
        Seq::empty()
    } else {
        let above = neighbours(port, (n - 1) as nat).push(
            if port + n > u16::MAX {
                u16::MAX
            } else {
                (port + n) as u16
            },
        );
        if port > n {
            above.push((port - n) as u16)
        } else {
            above
        }
    }
}

/// The ports to ask on a linked host: its own, those it is known for, the usual
/// ones, and those around its own; each once, upwards.
pub open spec fn catalog_ports(port: u16, extra: Seq<u16>) -> Seq<u16> {
    ascending(
        seq![port] + extra + seq![8080u16, 8081u16, 8090u16, 3000u16] + neighbours(port, 4),
    )
}

/// A place to ask for models.
#[derive(Debug)]
pub struct CatalogTarget {
    pub base: String,
    pub port: u16,
    /// Whether this is the base that was linked.
    pub primary: bool,
}

/// The view of [`CatalogTarget`].
pub struct TargetView {
    pub base: Text,
    pub port: u16,
    pub primary: bool,
}

impl View for CatalogTarget {
    type V = TargetView;

    open spec fn view(&self) -> TargetView {
        TargetView { base: self.base@, port: self.port, primary: self.primary }
    }
}

/// The views of places.
pub open spec fn targets(v: Seq<CatalogTarget>) -> Seq<TargetView> {
    Seq::new(v.len(), |i: int| v[i]@)
}

/// The places to ask for models of a linked host.
pub open spec fn catalog_targets(base: Text, extra: Seq<u16>) -> Seq<TargetView> {
    match openai_base(base) {
        None => Seq::empty(),
        Some(b) => match base_parts(b) {
            None => Seq::empty(),
            Some((scheme, host, port)) => {
                let p = catalog_ports(port, extra);
                Seq::new(
                    p.len(),
                    |i: int|
                        TargetView {
                            base: api_base(scheme, host, p[i]),
                            port: p[i],
                            primary: p[i] == port,
                        },
                )
            },
        },
    }
}

/// The places to ask for models of a linked host.
pub fn plan_catalog(base: &str, extra: &Vec<u16>) -> (out: Vec<CatalogTarget>)
    ensures
        targets(out@) == catalog_targets(base@, extra@),
{
    let mut out: Vec<CatalogTarget> = Vec::new();
    proof {
        assert(targets(out@) =~= Seq::<TargetView>::empty());
    }
    let b = match normalize_openai_base(base) {
        Some(b) => b,
        None => {
            return out;
        },
    };
    let (scheme, host, port) = match split_openai_base(b.as_str()) {
        Some(p) => p,
        None => {
            return out;
        },
    };
    let mut ports: Vec<u16> = Vec::new();
    ports.push(port);
    let mut i: usize = 0;
    proof {
        assert(ports@ =~= seq![port] + extra@.take(0));
    }
    while i < extra.len()
        invariant
            i <= extra.len(),
            ports@ == seq![port] + extra@.take(i as int),
        decreases extra.len() - i,
    {
        ports.push(extra[i]);
        proof {
            assert(ports@ =~= seq![port] + extra@.take(i + 1));
        }
        i = i + 1;
    }
    let ghost head = seq![port] + extra@;
    proof {
        assert(extra@.take(extra@.len() as int) =~= extra@);
    }
    ports.push(8080);
    ports.push(8081);
    ports.push(8090);
    ports.push(3000);
    let ghost common = head + seq![8080u16, 8081u16, 8090u16, 3000u16];
    proof {
        assert(ports@ =~= common);
        assert(common + neighbours(port, 0) =~= common);
    }
    let mut n: u16 = 0;
    while n < 4
        invariant
            n <= 4,
            ports@ == common + neighbours(port, n as nat),
        decreases 4 - n,
    {
        n = n + 1;
        let ghost was = ports@;
        let up: u16 = port.saturating_add(n);
        ports.push(up);
        if port > n {
            ports.push(port - n);
        }
        proof {
            assert(ports@ =~= common + neighbours(port, n as nat));
        }
    }
    let all = sorted_unique(&ports);
    let ghost p = all@;
    let mut k: usize = 0;
    while k < all.len()
        invariant
            p == all@,
            k <= all.len(),
            out.len() == k,
            forall|j: int|
                0 <= j < k ==> (#[trigger] out@[j])@ == (TargetView {
                    base: api_base(scheme@, host@, p[j]),
                    port: p[j],
                    primary: p[j] == port,
                }),
        decreases all.len() - k,
    {
        let q: u16 = all[k];
        let mut c = scheme.clone();
        c.append("://");
        c.append(host.as_str());
        c.append(":");
        c.append(number(q as u64).as_str());
        c.append("/v1");
        out.push(CatalogTarget { base: c, port: q, primary: q == port });
        k = k + 1;
    }
    proof {
        assert(targets(out@) =~= catalog_targets(base@, extra@));
    }
    out
}

/// A model that was found at a place.
pub open spec fn option_of(base: Text, port: u16, model: Text) -> OptionView {
    OptionView {
        id: "remote|"@ + base + "|"@ + model,
        model,
        base,
        port,
        ready: true,
        label: model,
    }
}

/// What was found: for each place that answered, its models.
#[derive(Debug)]
pub struct CatalogAnswer {
    pub base: String,
    pub port: u16,
    pub models: Vec<String>,
}

/// A row of models in order of port and name with one more in its place, behind
/// those that are alike.
pub open spec fn filed(s: Seq<OptionView>, o: OptionView) -> Seq<OptionView>
    decreases s.len(),
{
    if s.len() == 0 || !(option_lt(o, s.last())) {
        s.push(o)
    } else {
        filed(s.drop_last(), o).push(s.last())
    }
}

/// Whether a model comes before another: by port, then by name.
pub open spec fn option_lt(a: OptionView, b: OptionView) -> bool {
    a.port < b.port || (a.port == b.port && text_lt(a.model, b.model))
}

/// Whether a model is there by its identifier.
pub open spec fn offered(s: Seq<OptionView>, id: Text) -> bool {
    exists|i: int| 0 <= i < s.len() && (#[trigger] s[i]).id == id
}

/// The models after those of a place up to the `n`th.
pub open spec fn with_models(
    s: Seq<OptionView>,
    base: Text,
    port: u16,
    m: Seq<Text>,
) -> Seq<OptionView>
    decreases m.len(),
{
    if m.len() == 0 {
        s
    } else {
        let init = with_models(s, base, port, m.drop_last());
        let o = option_of(base, port, m.last());
        if offered(init, o.id) {
            init
        } else {
            filed(init, o)
        }
    }
}

/// The models of all places.
pub open spec fn gathered(v: Seq<CatalogAnswer>) -> Seq<OptionView>
    decreases v.len(),
{
    if v.len() == 0 {
        Seq::empty()
    } else {
        with_models(
            gathered(v.drop_last()),
            v.last().base@,
            v.last().port,
            texts(v.last().models@),
        )
    }
}

/// The models with labels that tell the port, where there are several.
pub open spec fn labelled(s: Seq<OptionView>) -> Seq<OptionView> {
    if s.len() > 1 {
        Seq::new(
            s.len(),
            |i: int|
                OptionView {
                    label: s[i].model + " · :"@ + decimal(s[i].port as nat),
                    ..s[i]
                },
        )
    } else {
        s
    }
}

fn is_offered(v: &Vec<RemoteModelOption>, id: &str) -> (r: bool)
    ensures
        r == offered(options(v@), id@),
{
    let ghost all = options(v@);
    let mut i: usize = 0;
    while i < v.len()
        invariant
            all == options(v@),
            i <= v.len(),
            forall|k: int| 0 <= k < i ==> (#[trigger] all[k]).id != id@,
        decreases v.len() - i,
    {
        proof {
            assert(all[i as int] == v@[i as int]@);
        }
        if same(v[i].id.as_str(), id) {
            return true;
        }
        i = i + 1;
    }
    false
}

fn is_before(a: &RemoteModelOption, b: &RemoteModelOption) -> (r: bool)
    ensures
        r == option_lt(a@, b@),
{
    a.port < b.port || (a.port == b.port && text_before(a.model.as_str(), b.model.as_str()))
}

fn file_option(v: &mut Vec<RemoteModelOption>, o: RemoteModelOption)
    ensures
        options(final(v)@) == filed(options(old(v)@), o@),
{
    let ghost all = options(v@);
    let ghost ov = o@;
    let mut at: usize = v.len();
    proof {
        assert(all.take(all.len() as int) =~= all);
        assert(all.skip(all.len() as int) =~= Seq::<OptionView>::empty());
        assert(filed(all, ov) + Seq::<OptionView>::empty() =~= filed(all, ov));
    }
    while at > 0 && is_before(&o, &v[at - 1])
        invariant
            at <= v.len(),
            ov == o@,
            options(v@) == all,
            filed(all, ov) == filed(all.take(at as int), ov) + all.skip(at as int),
        decreases at,
    {
        proof {
            let t = all.take(at as int);
            assert(t.drop_last() =~= all.take(at - 1));
            assert(t.last() == v@[at - 1]@);
            assert(all.skip(at - 1) =~= seq![all[at - 1]] + all.skip(at as int));
            assert(filed(t, ov) + all.skip(at as int) =~= filed(all.take(at - 1), ov) + (
            seq![all[at - 1]] + all.skip(at as int)));
        }
        at = at - 1;
    }
    proof {
        if at > 0 {
            assert(all.take(at as int).last() == v@[at - 1]@);
        }
        assert(all =~= all.take(at as int) + all.skip(at as int));
    }
    v.insert(at, o);
    proof {
        assert(options(v@) =~= all.take(at as int).push(ov) + all.skip(at as int));
    }
}

fn add_models(out: &mut Vec<RemoteModelOption>, base: &str, port: u16, m: &Vec<String>)
    ensures
        options(final(out)@) == with_models(options(old(out)@), base@, port, texts(m@)),
{
    let ghost was = options(out@);
    let ghost all = texts(m@);
    let mut i: usize = 0;
    proof {
        assert(all.take(0) =~= Seq::<Text>::empty());
    }
    while i < m.len()
        invariant
            all == texts(m@),
            i <= m.len(),
            options(out@) == with_models(was, base@, port, all.take(i as int)),
        decreases m.len() - i,
    {
        proof {
            assert(all.take(i + 1).drop_last() =~= all.take(i as int));
            assert(all.take(i + 1).last() == m@[i as int]@);
        }
        let mut id = "remote|".to_owned();
        id.append(base);
        id.append("|");
        id.append(m[i].as_str());
        if !is_offered(out, id.as_str()) {
            let o = RemoteModelOption {
                id,
                model: m[i].clone(),
                base: base.to_owned(),
                port,
                ready: true,
                label: m[i].clone(),
            };
            file_option(out, o);
        }
        i = i + 1;
    }
    proof {
        assert(all.take(all.len() as int) =~= all);
    }
}

/// The models that a linked host offers, from the answers of its places: each
/// once, in order of port and name, with the port in the label where there are
/// several.
pub fn probe_remote_catalog(answers: &Vec<CatalogAnswer>) -> (out: Vec<RemoteModelOption>)
    ensures
        options(out@) == labelled(gathered(answers@)),
{
    let mut all: Vec<RemoteModelOption> = Vec::new();
    let mut i: usize = 0;
    proof {
        assert(answers@.take(0) =~= Seq::<CatalogAnswer>::empty());
        assert(options(all@) =~= gathered(answers@.take(0)));
    }
    while i < answers.len()
        invariant
            i <= answers.len(),
            options(all@) == gathered(answers@.take(i as int)),
        decreases answers.len() - i,
    {
        proof {
            assert(answers@.take(i + 1).drop_last() =~= answers@.take(i as int));
        }
        add_models(&mut all, answers[i].base.as_str(), answers[i].port, &answers[i].models);
        i = i + 1;
    }
    let ghost g = options(all@);
    proof {
        assert(answers@.take(answers@.len() as int) =~= answers@);
        assert(g.len() == all.len());
    }
    if all.len() <= 1 {
        return all;
    }
    let mut out: Vec<RemoteModelOption> = Vec::new();
    let mut k: usize = 0;
    while k < all.len()
        invariant
            g == options(all@),
            k <= all.len(),
            out.len() == k,
            forall|j: int|
                0 <= j < k ==> (#[trigger] out@[j])@ == (OptionView {
                    label: g[j].model + " · :"@ + decimal(g[j].port as nat),
                    ..g[j]
                }),
        decreases all.len() - k,
    {
        proof {
            assert(g[k as int] == all@[k as int]@);
        }
        let mut label = all[k].model.clone();
        label.append(" · :");
        label.append(number(all[k].port as u64).as_str());
        let mut o = all[k].clone();
        o.label = label;
        out.push(o);
        k = k + 1;
    }
    proof {
        assert(options(out@) =~= labelled(g));
    }
    out
}

/// The linked host's own port is always asked.
pub proof fn law_linked_port_is_asked(port: u16, extra: Seq<u16>)
    ensures
        catalog_ports(port, extra).contains(port),
        forall|p: u16| extra.contains(p) ==> catalog_ports(port, extra).contains(p),
{
    let v = seq![port] + extra + seq![8080u16, 8081u16, 8090u16, 3000u16] + neighbours(port, 4);
    crate::order::lemma_ascending(v);
    assert(v[0] == port);
    assert(v.contains(port));
    assert forall|p: u16| extra.contains(p) implies catalog_ports(port, extra).contains(p) by {
        let i = choose|i: int| 0 <= i < extra.len() && extra[i] == p;
        assert(v[i + 1] == p);
        assert(v.contains(p));
    }
}

proof fn lemma_neighbours(port: u16, n: nat, p: u16)
    requires
        n <= 4,
    ensures
        p != u16::MAX ==> (neighbours(port, n).contains(p) <==> p != 0 && p != port && port - n <= p
            <= port + n),
    decreases n,
{
    if n > 0 {
        lemma_neighbours(port, (n - 1) as nat, p);
        let init = neighbours(port, (n - 1) as nat);
        let up = if port + n > u16::MAX {
            u16::MAX
        } else {
            (port + n) as u16
        };
        crate::order::lemma_holds_pushed(init, up, p);
        if port > n {
            crate::order::lemma_holds_pushed(init.push(up), (port - n) as u16, p);
        }
    }
}

/// Asked are the linked port, those that devices told of, the common ones, and the
/// four above and below the linked one, each once, upwards.
pub proof fn law_near_ports_are_asked(port: u16, extra: Seq<u16>, p: u16)
    ensures
        crate::order::rises(catalog_ports(port, extra)),
        catalog_ports(port, extra).contains(port),
        extra.contains(p) ==> catalog_ports(port, extra).contains(p),
        0 < p < u16::MAX && port - 4 <= p <= port + 4 ==> catalog_ports(port, extra).contains(p),
        p == 8080 || p == 8081 || p == 8090 || p == 3000 ==> catalog_ports(port, extra).contains(p),
        p != u16::MAX && catalog_ports(port, extra).contains(p) ==> p == port || extra.contains(p)
            || p == 8080 || p == 8081 || p == 8090 || p == 3000 || port - 4 <= p <= port + 4,
{
    let a = seq![port];
    let c = seq![8080u16, 8081u16, 8090u16, 3000u16];
    let d = neighbours(port, 4);
    let all = a + extra + c + d;
    crate::order::lemma_ascending(all);
    assert forall|x: u16| #[trigger]
        all.contains(x) <==> a.contains(x) || extra.contains(x) || c.contains(x)
            || d.contains(x) by {
        crate::order::lemma_holds_both(a, extra, x);
        crate::order::lemma_holds_both(a + extra, c, x);
        crate::order::lemma_holds_both(a + extra + c, d, x);
    }
    assert(a[0] == port);
    assert(c[0] == 8080 && c[1] == 8081 && c[2] == 8090 && c[3] == 3000);
    lemma_neighbours(port, 4, p);
    if a.contains(p) {
        let i = choose|i: int| 0 <= i < a.len() && a[i] == p;
    }
    if c.contains(p) {
        let i = choose|i: int| 0 <= i < c.len() && c[i] == p;
        assert(i == 0 || i == 1 || i == 2 || i == 3);
    }
    assert(all.contains(port));
    assert(all.contains(p) <==> a.contains(p) || extra.contains(p) || c.contains(p) || d.contains(
        p,
    ));
}

/// Whether an option is of the model at the base and port.
pub open spec fn is_option(o: OptionView) -> bool {
    &&& o.id == "remote|"@ + o.base + "|"@ + o.model
    &&& o.label == o.model
    &&& o.ready
}

proof fn lemma_filed(s: Seq<OptionView>, o: OptionView)
    ensures
        filed(s, o).len() == s.len() + 1,
        forall|x: OptionView| #[trigger] filed(s, o).contains(x) <==> s.contains(x) || x == o,
    decreases s.len(),
{
    if s.len() == 0 || !(option_lt(o, s.last())) {
        assert forall|x: OptionView| #[trigger]
            filed(s, o).contains(x) <==> s.contains(x) || x == o by {
            crate::order::lemma_holds_pushed(s, o, x);
        }
    } else {
        let init = s.drop_last();
        lemma_filed(init, o);
        assert(s =~= init.push(s.last()));
        assert forall|x: OptionView| #[trigger]
            filed(s, o).contains(x) <==> s.contains(x) || x == o by {
            crate::order::lemma_holds_pushed(init, s.last(), x);
            crate::order::lemma_holds_pushed(filed(init, o), s.last(), x);
        }
    }
}

proof fn lemma_filed_offers(s: Seq<OptionView>, o: OptionView, id: Text)
    ensures
        offered(filed(s, o), id) <==> offered(s, id) || o.id == id,
{
    let r = filed(s, o);
    lemma_filed(s, o);
    if offered(s, id) {
        let i = choose|i: int| 0 <= i < s.len() && (#[trigger] s[i]).id == id;
        assert(s.contains(s[i]));
        assert(r.contains(s[i]));
        let k = choose|k: int| 0 <= k < r.len() && r[k] == s[i];
        assert(r[k].id == id);
    }
    if o.id == id {
        assert(r.contains(o));
        let k = choose|k: int| 0 <= k < r.len() && r[k] == o;
        assert(r[k].id == id);
    }
    if offered(r, id) {
        let k = choose|k: int| 0 <= k < r.len() && (#[trigger] r[k]).id == id;
        assert(r.contains(r[k]));
        if s.contains(r[k]) {
            let i = choose|i: int| 0 <= i < s.len() && s[i] == r[k];
            assert(s[i].id == id);
        }
    }
}

proof fn lemma_with_models(s: Seq<OptionView>, base: Text, port: u16, m: Seq<Text>, id: Text)
    ensures
        offered(s, id) ==> offered(with_models(s, base, port, m), id),
        forall|j: int|
            0 <= j < m.len() && id == "remote|"@ + base + "|"@ + #[trigger] m[j] ==> offered(
                with_models(s, base, port, m),
                id,
            ),
    decreases m.len(),
{
    if m.len() > 0 {
        let init = m.drop_last();
        lemma_with_models(s, base, port, init, id);
        let w = with_models(s, base, port, init);
        let o = option_of(base, port, m.last());
        lemma_filed_offers(w, o, id);
        assert forall|j: int|
            0 <= j < m.len() && id == "remote|"@ + base + "|"@ + #[trigger] m[j] implies offered(
            with_models(s, base, port, m),
            id,
        ) by {
            if j < init.len() {
                assert(init[j] == m[j]);
            }
        }
    }
}

/// Every model that a server answered with is offered, under that server.
pub proof fn law_every_answer_is_offered(v: Seq<CatalogAnswer>, i: int, j: int)
    requires
        0 <= i < v.len(),
        0 <= j < v[i].models@.len(),
    ensures
        offered(
            gathered(v),
            "remote|"@ + v[i].base@ + "|"@ + v[i].models@[j]@,
        ),
    decreases v.len(),
{
    let id = "remote|"@ + v[i].base@ + "|"@ + v[i].models@[j]@;
    let init = v.drop_last();
    let m = texts(v.last().models@);
    lemma_with_models(gathered(init), v.last().base@, v.last().port, m, id);
    if i < init.len() {
        assert(init[i] == v[i]);
        law_every_answer_is_offered(init, i, j);
    } else {
        assert(m[j] == v[i].models@[j]@);
    }
}

proof fn lemma_options_stay(s: Seq<OptionView>, base: Text, port: u16, m: Seq<Text>)
    requires
        forall|x: OptionView| #[trigger] s.contains(x) ==> is_option(x),
    ensures
        forall|x: OptionView|
            #[trigger] with_models(s, base, port, m).contains(x) ==> is_option(x) && (s.contains(x)
                || (x.base == base && x.port == port && m.contains(x.model))),
    decreases m.len(),
{
    if m.len() > 0 {
        let init = m.drop_last();
        lemma_options_stay(s, base, port, init);
        let w = with_models(s, base, port, init);
        let o = option_of(base, port, m.last());
        lemma_filed(w, o);
        assert(m =~= init.push(m.last()));
        assert forall|x: OptionView|
            #[trigger] with_models(s, base, port, m).contains(x) implies is_option(x) && (
        s.contains(x) || (x.base == base && x.port == port && m.contains(x.model))) by {
            crate::order::lemma_holds_pushed(init, m.last(), x.model);
            if !offered(w, o.id) {
                assert(w.contains(x) || x == o);
            } else {
                assert(w.contains(x));
            }
        }
    }
}

/// Whether an answer named the model of an option, at its base and port.
pub open spec fn answered(v: Seq<CatalogAnswer>, x: OptionView) -> bool {
    exists|i: int|
        0 <= i < v.len() && (#[trigger] v[i]).base@ == x.base && v[i].port == x.port && texts(
            v[i].models@,
        ).contains(x.model)
}

/// An option is of a model that the server at its base and port answered with.
pub proof fn law_options_come_from_answers(v: Seq<CatalogAnswer>)
    ensures
        forall|x: OptionView|
            #[trigger] gathered(v).contains(x) ==> is_option(x) && answered(v, x),
    decreases v.len(),
{
    if v.len() > 0 {
        let init = v.drop_last();
        law_options_come_from_answers(init);
        let l = v.last();
        lemma_options_stay(gathered(init), l.base@, l.port, texts(l.models@));
        assert forall|x: OptionView| #[trigger] gathered(v).contains(x) implies is_option(x)
            && answered(v, x) by {
            if gathered(init).contains(x) {
                assert(answered(init, x));
                let i = choose|i: int|
                    0 <= i < init.len() && (#[trigger] init[i]).base@ == x.base && init[i].port
                        == x.port && texts(init[i].models@).contains(x.model);
                assert(v[i] == init[i]);
            } else {
                assert(v[v.len() - 1] == l);
            }
        }
    }
}

/// A server that lists models is well and is told by its first; one that does not
/// answer is not, and the reason is told.
pub proof fn law_health_is_the_answer(v: Seq<Text>, reason: Text)
    ensures
        v.len() > 0 ==> health_of(Ok(v)).ok && health_of(Ok(v)).model == Some(v[0]) && health_of(
            Ok(v),
        ).error is None,
        !health_of(Err(reason)).ok,
        health_of(Err(reason)).error == Some(reason),
        health_of(Err(reason)).model is None,
{
}

} // verus!

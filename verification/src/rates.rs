//! How fast a server works, and how long such a figure is believed.
use vstd::prelude::*;

use crate::download::minus;
use crate::probe::SlotsSnapshot;

verus! {

/// The least time between two samples of the slots that a rate is taken from,
/// in milliseconds.
pub const MIN_LIVE_RATE_INTERVAL: u64 = 100;

/// How long a rate is shown without a fresh sample, in milliseconds.
pub const THROUGHPUT_STALE_AFTER: u64 = 10_000;

/// A figure: read from text, counted over a time, or a count. What was read
/// from text is kept as its bits, with whether it is above zero.
#[derive(Clone, Copy, Debug, PartialEq, Eq, Structural)]
pub enum Reading {
    Read { bits: u64, positive: bool },
    Over { tokens: u64, millis: u64 },
    Count(u64),
}

/// Whether a figure is above zero.
pub open spec fn positive(r: Reading) -> bool {
    match r {
        Reading::Read { positive, .. } => positive,
        Reading::Over { tokens, .. } => tokens > 0,
        Reading::Count(n) => n > 0,
    }
}

impl Reading {
    /// Whether the figure is above zero.
    pub fn is_positive(self) -> (r: bool)
        ensures
            r == positive(self),
    {
        match self {
            Reading::Read { positive, .. } => positive,
            Reading::Over { tokens, .. } => tokens > 0,
            Reading::Count(n) => n > 0,
        }
    }
}

/// What a server says of its work.
#[derive(Clone, Copy, Debug)]
pub struct ServerMetrics {
    pub prompt_tokens: Option<Reading>,
    pub generated_tokens: Option<Reading>,
    pub prompt_tokens_per_second: Option<Reading>,
    pub generated_tokens_per_second: Option<Reading>,
    pub requests_processing: Option<Reading>,
    pub requests_deferred: Option<Reading>,
}

/// Nothing known.
pub open spec fn no_metrics() -> ServerMetrics {
    ServerMetrics {
        prompt_tokens: None,
        generated_tokens: None,
        prompt_tokens_per_second: None,
        generated_tokens_per_second: None,
        requests_processing: None,
        requests_deferred: None,
    }
}

impl Default for ServerMetrics {
    fn default() -> (r: Self)
        ensures
            r == no_metrics(),
    {
        ServerMetrics {
            prompt_tokens: None,
            generated_tokens: None,
            prompt_tokens_per_second: None,
            generated_tokens_per_second: None,
            requests_processing: None,
            requests_deferred: None,
        }
    }
}

/// What is known of a server's work, and since when.
#[derive(Clone, Copy, Debug)]
pub struct Throughput {
    pub metrics: Option<ServerMetrics>,
    /// When the slots were last read.
    pub slots_at: Option<u64>,
    /// How many tokens the slots had made then.
    pub slots_decoded: Option<u64>,
    /// The rate at which tokens are being made.
    pub live: Option<Reading>,
    /// When a rate was last seen.
    pub seen_at: Option<u64>,
}

/// Nothing known.
pub open spec fn no_throughput() -> Throughput {
    Throughput { metrics: None, slots_at: None, slots_decoded: None, live: None, seen_at: None }
}

/// What is known, or nothing known, as a record.
pub open spec fn known(m: Option<ServerMetrics>) -> ServerMetrics {
    match m {
        Some(m) => m,
        None => no_metrics(),
    }
}

/// The figures without the two rates.
pub open spec fn without_rates(m: Option<ServerMetrics>) -> Option<ServerMetrics> {
    match m {
        Some(m) => Some(
            ServerMetrics {
                generated_tokens_per_second: None,
                prompt_tokens_per_second: None,
                ..m
            },
        ),
        None => None,
    }
}

/// Without any rate, as after a server ended.
pub open spec fn cleared(t: Throughput) -> Throughput {
    Throughput {
        metrics: without_rates(t.metrics),
        slots_at: None,
        slots_decoded: None,
        live: None,
        seen_at: None,
    }
}

/// Without rates that no sample has confirmed for too long.
pub open spec fn expired(t: Throughput, now: u64) -> Throughput {
    match t.seen_at {
        Some(at) if minus(now, at) >= THROUGHPUT_STALE_AFTER => Throughput {
            metrics: without_rates(t.metrics),
            live: None,
            seen_at: None,
            ..t
        },
        _ => t,
    }
}

/// The rate that two samples of the slots give, and whether it is fresh.
pub open spec fn live_rate(t: Throughput, s: SlotsSnapshot, now: u64) -> (Option<Reading>, bool) {
    match (t.slots_at, t.slots_decoded) {
        (Some(at), Some(was)) => {
            let millis = minus(now, at);
            if millis < MIN_LIVE_RATE_INTERVAL {
                (t.live, false)
            } else if s.decoded_tokens > was {
                (Some(Reading::Over { tokens: minus(s.decoded_tokens, was), millis }), true)
            } else if s.decoded_tokens == was {
                (t.live, false)
            } else {
                (None, false)
            }
        },
        _ => (t.live, false),
    }
}

/// After a look at the slots. Idle slots have no rate. A slot that starts anew
/// sets a new base without one.
pub open spec fn slots_seen(t: Throughput, s: SlotsSnapshot, now: u64) -> Throughput {
    if s.requests_processing == 0 {
        Throughput { slots_at: Some(now), slots_decoded: Some(0), live: None, ..t }
    } else {
        let (live, fresh) = live_rate(t, s, now);
        Throughput {
            metrics: Some(
                ServerMetrics {
                    requests_processing: Some(Reading::Count(s.requests_processing)),
                    ..known(t.metrics)
                },
            ),
            slots_at: Some(now),
            slots_decoded: Some(s.decoded_tokens),
            live,
            seen_at: if fresh {
                Some(now)
            } else {
                t.seen_at
            },
        }
    }
}

/// The new figure where there is one, else the old.
pub open spec fn newer(new: Option<Reading>, old: Option<Reading>) -> Option<Reading> {
    match new {
        Some(r) => Some(r),
        None => old,
    }
}

/// The figure where it is above zero.
pub open spec fn above_zero(r: Option<Reading>) -> Option<Reading> {
    match r {
        Some(x) if positive(x) => Some(x),
        _ => None,
    }
}

/// After the server told its figures. A live rate goes before the average.
pub open spec fn merged(t: Throughput, m: ServerMetrics, now: u64) -> Throughput {
    let was = known(t.metrics);
    let prompt = above_zero(m.prompt_tokens_per_second);
    let generated = if t.live is None {
        above_zero(m.generated_tokens_per_second)
    } else {
        None
    };
    Throughput {
        metrics: Some(
            ServerMetrics {
                prompt_tokens: newer(m.prompt_tokens, was.prompt_tokens),
                generated_tokens: newer(m.generated_tokens, was.generated_tokens),
                prompt_tokens_per_second: newer(prompt, was.prompt_tokens_per_second),
                generated_tokens_per_second: newer(generated, was.generated_tokens_per_second),
                requests_processing: newer(m.requests_processing, was.requests_processing),
                requests_deferred: newer(m.requests_deferred, was.requests_deferred),
            },
        ),
        seen_at: if prompt is Some || generated is Some {
            Some(now)
        } else {
            t.seen_at
        },
        ..t
    }
}

/// With the live rate among the figures.
pub open spec fn published(t: Throughput) -> Throughput {
    match t.live {
        Some(r) => Throughput {
            metrics: Some(
                ServerMetrics { generated_tokens_per_second: Some(r), ..known(t.metrics) },
            ),
            ..t
        },
        None => t,
    }
}

/// After a log line that told rates.
pub open spec fn line_seen(
    t: Throughput,
    generated: Option<Reading>,
    prompt: Option<Reading>,
    now: u64,
) -> Throughput {
    if generated is None && prompt is None {
        t
    } else {
        let was = known(t.metrics);
        Throughput {
            metrics: Some(
                ServerMetrics {
                    generated_tokens_per_second: newer(generated, was.generated_tokens_per_second),
                    prompt_tokens_per_second: newer(prompt, was.prompt_tokens_per_second),
                    ..was
                },
            ),
            live: newer(generated, t.live),
            seen_at: Some(now),
            ..t
        }
    }
}

/// After the answers to a probe: the slots, then the figures, then what is
/// published.
pub open spec fn probed(
    t: Throughput,
    slots: Option<SlotsSnapshot>,
    metrics: Option<ServerMetrics>,
    now: u64,
) -> Throughput {
    let t1 = match slots {
        Some(s) => slots_seen(t, s, now),
        None => t,
    };
    let t2 = match metrics {
        Some(m) => merged(t1, m, now),
        None => t1,
    };
    published(t2)
}

fn metrics_or_none(m: Option<ServerMetrics>) -> (r: ServerMetrics)
    ensures
        r == known(m),
{
    match m {
        Some(m) => m,
        None => ServerMetrics::default(),
    }
}

fn newest(new: Option<Reading>, old: Option<Reading>) -> (r: Option<Reading>)
    ensures
        r == newer(new, old),
{
    match new {
        Some(x) => Some(x),
        None => old,
    }
}

fn only_positive(r: Option<Reading>) -> (out: Option<Reading>)
    ensures
        out == above_zero(r),
{
    match r {
        Some(x) => if x.is_positive() {
            Some(x)
        } else {
            None
        },
        None => None,
    }
}

impl Throughput {
    /// Nothing known yet.
    pub fn new() -> (r: Throughput)
        ensures
            r == no_throughput(),
    {
        Throughput { metrics: None, slots_at: None, slots_decoded: None, live: None, seen_at: None }
    }

    fn drop_rates(&mut self)
        ensures
            *final(self) == (Throughput { metrics: without_rates(old(self).metrics), ..*old(self) }),
    {
        match self.metrics {
            Some(m) => {
                self.metrics = Some(
                    ServerMetrics {
                        generated_tokens_per_second: None,
                        prompt_tokens_per_second: None,
                        ..m
                    },
                );
            },
            None => {},
        }
    }

    /// Forgets every rate.
    pub fn clear(&mut self)
        ensures
            *final(self) == cleared(*old(self)),
    {
        self.slots_at = None;
        self.slots_decoded = None;
        self.live = None;
        self.seen_at = None;
        self.drop_rates();
    }

    /// Forgets rates that no sample has confirmed for too long.
    pub fn expire(&mut self, now: u64)
        ensures
            *final(self) == expired(*old(self), now),
    {
        match self.seen_at {
            Some(at) => {
                if now.saturating_sub(at) >= THROUGHPUT_STALE_AFTER {
                    self.live = None;
                    self.seen_at = None;
                    self.drop_rates();
                }
            },
            None => {},
        }
    }

    /// Takes in a look at the slots.
    pub fn see_slots(&mut self, s: SlotsSnapshot, now: u64)
        ensures
            *final(self) == slots_seen(*old(self), s, now),
    {
        if s.requests_processing == 0 {
            self.slots_at = Some(now);
            self.slots_decoded = Some(0);
            self.live = None;
            return;
        }
        match (self.slots_at, self.slots_decoded) {
            (Some(at), Some(was)) => {
                let millis: u64 = now.saturating_sub(at);
                if millis >= MIN_LIVE_RATE_INTERVAL {
                    if s.decoded_tokens > was {
                        self.live = Some(
                            Reading::Over { tokens: s.decoded_tokens.saturating_sub(was), millis },
                        );
                        self.seen_at = Some(now);
                    } else if s.decoded_tokens < was {
                        self.live = None;
                    }
                }
            },
            _ => {},
        }
        self.slots_at = Some(now);
        self.slots_decoded = Some(s.decoded_tokens);
        let m = metrics_or_none(self.metrics);
        self.metrics = Some(
            ServerMetrics { requests_processing: Some(Reading::Count(s.requests_processing)), ..m },
        );
    }

    /// Takes in the figures that the server told.
    pub fn merge(&mut self, m: ServerMetrics, now: u64)
        ensures
            *final(self) == merged(*old(self), m, now),
    {
        let was = metrics_or_none(self.metrics);
        let prompt = only_positive(m.prompt_tokens_per_second);
        let generated = if self.live.is_none() {
            only_positive(m.generated_tokens_per_second)
        } else {
            None
        };
        self.metrics = Some(
            ServerMetrics {
                prompt_tokens: newest(m.prompt_tokens, was.prompt_tokens),
                generated_tokens: newest(m.generated_tokens, was.generated_tokens),
                prompt_tokens_per_second: newest(prompt, was.prompt_tokens_per_second),
                generated_tokens_per_second: newest(generated, was.generated_tokens_per_second),
                requests_processing: newest(m.requests_processing, was.requests_processing),
                requests_deferred: newest(m.requests_deferred, was.requests_deferred),
            },
        );
        if prompt.is_some() || generated.is_some() {
            self.seen_at = Some(now);
        }
    }

    /// Puts the live rate among the figures.
    pub fn publish(&mut self)
        ensures
            *final(self) == published(*old(self)),
    {
        match self.live {
            Some(r) => {
                let m = metrics_or_none(self.metrics);
                self.metrics = Some(
                    ServerMetrics { generated_tokens_per_second: Some(r), ..m },
                );
            },
            None => {},
        }
    }

    /// Takes in the rates that a log line told.
    pub fn see_line(&mut self, generated: Option<Reading>, prompt: Option<Reading>, now: u64)
        ensures
            *final(self) == line_seen(*old(self), generated, prompt, now),
    {
        if generated.is_none() && prompt.is_none() {
            return;
        }
        let m = metrics_or_none(self.metrics);
        self.metrics = Some(
            ServerMetrics {
                generated_tokens_per_second: newest(generated, m.generated_tokens_per_second),
                prompt_tokens_per_second: newest(prompt, m.prompt_tokens_per_second),
                ..m
            },
        );
        self.live = newest(generated, self.live);
        self.seen_at = Some(now);
    }

    /// Takes in the answers to a probe.
    pub fn see_probe(
        &mut self,
        slots: Option<SlotsSnapshot>,
        metrics: Option<ServerMetrics>,
        now: u64,
    )
        ensures
            *final(self) == probed(*old(self), slots, metrics, now),
    {
        match slots {
            Some(s) => self.see_slots(s, now),
            None => {},
        }
        match metrics {
            Some(m) => self.merge(m, now),
            None => {},
        }
        self.publish();
    }
}

/// No rate outlives the time that it is believed, whatever was seen before.
pub proof fn law_rates_grow_stale(t: Throughput, now: u64)
    requires
        t.seen_at matches Some(at) && minus(now, at) >= THROUGHPUT_STALE_AFTER,
    ensures
        expired(t, now).live is None,
        expired(t, now).metrics matches Some(m) ==> m.generated_tokens_per_second is None
            && m.prompt_tokens_per_second is None,
{
}

/// A server that starts a new request, so that its count falls, shows no rate
/// for it.
pub proof fn law_no_rate_across_a_reset(t: Throughput, s: SlotsSnapshot, now: u64)
    requires
        s.requests_processing > 0,
        t.slots_at matches Some(at) && minus(now, at) >= MIN_LIVE_RATE_INTERVAL,
        t.slots_decoded matches Some(was) && s.decoded_tokens < was,
    ensures
        slots_seen(t, s, now).live is None,
        slots_seen(t, s, now).slots_decoded == Some(s.decoded_tokens),
{
}

/// A live rate is over what was decoded between two looks at the slots.
pub proof fn law_live_rate_is_between_two_looks(
    t: Throughput,
    s: SlotsSnapshot,
    at: u64,
    was: u64,
    now: u64,
)
    requires
        t.slots_at == Some(at),
        t.slots_decoded == Some(was),
        s.requests_processing > 0,
        now >= at + 100,
        s.decoded_tokens > was,
    ensures
        ({
            let x = slots_seen(t, s, now);
            &&& x.live == Some(
                Reading::Over {
                    tokens: (s.decoded_tokens - was) as u64,
                    millis: (now - at) as u64,
                },
            )
            &&& x.seen_at == Some(now)
            &&& x.slots_at == Some(now)
            &&& x.slots_decoded == Some(s.decoded_tokens)
            &&& x.metrics matches Some(m) && m.requests_processing == Some(
                Reading::Count(s.requests_processing),
            ) && m.prompt_tokens == known(t.metrics).prompt_tokens && m.generated_tokens == known(
                t.metrics,
            ).generated_tokens
        }),
{
}

/// Each number that the server tells takes the place of its own old one; what it
/// does not tell stays.
pub proof fn law_told_numbers_take_their_place(t: Throughput, m: ServerMetrics, now: u64)
    ensures
        ({
            let x = merged(t, m, now).metrics->0;
            let o = known(t.metrics);
            &&& merged(t, m, now).metrics is Some
            &&& m.prompt_tokens is Some ==> x.prompt_tokens == m.prompt_tokens
            &&& m.prompt_tokens is None ==> x.prompt_tokens == o.prompt_tokens
            &&& m.generated_tokens is Some ==> x.generated_tokens == m.generated_tokens
            &&& m.generated_tokens is None ==> x.generated_tokens == o.generated_tokens
            &&& m.requests_processing is Some ==> x.requests_processing == m.requests_processing
            &&& m.requests_processing is None ==> x.requests_processing == o.requests_processing
            &&& m.requests_deferred is Some ==> x.requests_deferred == m.requests_deferred
            &&& m.requests_deferred is None ==> x.requests_deferred == o.requests_deferred
            &&& (m.prompt_tokens_per_second matches Some(r) && positive(r))
                ==> x.prompt_tokens_per_second == m.prompt_tokens_per_second
            &&& !(m.prompt_tokens_per_second matches Some(r) && positive(r))
                ==> x.prompt_tokens_per_second == o.prompt_tokens_per_second
            &&& (m.generated_tokens_per_second matches Some(r) && positive(r)) && t.live is None
                ==> x.generated_tokens_per_second == m.generated_tokens_per_second
            &&& t.live is Some ==> x.generated_tokens_per_second == o.generated_tokens_per_second
        }),
{
}

/// A line of the log that tells how fast the model reads or writes sets that rate
/// and no other.
pub proof fn law_log_line_sets_its_rate(t: Throughput, r: Reading, now: u64)
    ensures
        ({
            let g = line_seen(t, Some(r), None, now);
            let p = line_seen(t, None, Some(r), now);
            &&& g.live == Some(r)
            &&& known(g.metrics).generated_tokens_per_second == Some(r)
            &&& known(g.metrics).prompt_tokens_per_second == known(
                t.metrics,
            ).prompt_tokens_per_second
            &&& known(p.metrics).prompt_tokens_per_second == Some(r)
            &&& known(p.metrics).generated_tokens_per_second == known(
                t.metrics,
            ).generated_tokens_per_second
            &&& p.live == t.live
            &&& g.seen_at == Some(now) && p.seen_at == Some(now)
        }),
{
}

} // verus!

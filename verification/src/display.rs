//! How the page words settings and downloads.
use vstd::prelude::*;

use crate::bind::label_of;
use crate::config::{Config, ConfigView, RuntimeView};
use crate::download::{
    minus, part_of, rate_of, time_left, Download, DownloadView, LibraryFetch, LibraryView, Rate,
};
use crate::text::{
    contains, decimal, join, joined, lower, number, occurs, opt_text, same, split, split_on, texts,
    to_lower, Text,
};
use crate::units::{
    duration_text, format_bytes, format_eta, format_tokens, nearest, size_text, token_text,
};

verus! {

broadcast use vstd::string::group_string_axioms;

/// What the settings say of the server's work.
pub open spec fn runtime_text(r: RuntimeView) -> Text {
    (if r.cpu_only {
        "CPU"@
    } else {
        "GPU offload"@
    }) + " · "@ + token_text(r.context_size) + " context · batch "@ + decimal(r.batch_size as nat)
        + " · "@ + decimal(r.parallel as nat) + " "@ + (if r.parallel == 1 {
        "slot"@
    } else {
        "slots"@
    })
}

/// What the settings say of the server's work.
pub fn runtime_summary(config: &Config) -> (out: String)
    ensures
        out@ == runtime_text(config@.runtime),
{
    let r = &config.runtime;
    let mut out = if r.cpu_only {
        "CPU".to_owned()
    } else {
        "GPU offload".to_owned()
    };
    out.append(" · ");
    out.append(format_tokens(r.context_size).as_str());
    out.append(" context · batch ");
    out.append(number(r.batch_size as u64).as_str());
    out.append(" · ");
    out.append(number(r.parallel as u64).as_str());
    out.append(" ");
    if r.parallel == 1 {
        out.append("slot");
    } else {
        out.append("slots");
    }
    out
}

/// How the model's weights are reached, in words.
pub open spec fn access_parts(c: ConfigView) -> Seq<Text> {
    let model = lower(label_of(c.model.source));
    let parts = seq![
        if c.runtime.mmap {
            "mmap"@
        } else {
            "loaded"@
        },
        if c.runtime.warmup {
            "warmup"@
        } else {
            "no warmup"@
        },
        if c.runtime.repack {
            "repack"@
        } else {
            "no repack"@
        },
    ];
    if occurs(model, "gpt-oss-120b"@) {
        parts.push("MoE · 5.1B active/token"@)
    } else if occurs(model, "gpt-oss-20b"@) {
        parts.push("MoE · 3.6B active/token"@)
    } else {
        parts
    }
}

/// How the model's weights are reached.
pub fn access_summary(config: &Config) -> (out: String)
    ensures
        out@ == joined(access_parts(config@), " · "@),
{
    let mmap = if config.runtime.mmap {
        "mmap".to_owned()
    } else {
        "loaded".to_owned()
    };
    let warmup = if config.runtime.warmup {
        "warmup".to_owned()
    } else {
        "no warmup".to_owned()
    };
    let repack = if config.runtime.repack {
        "repack".to_owned()
    } else {
        "no repack".to_owned()
    };
    let mut parts = vec![mmap, warmup, repack];
    let ghost first = texts(parts@);
    let model = to_lower(config.model_label().as_str());
    if contains(model.as_str(), "gpt-oss-120b") {
        parts.push("MoE · 5.1B active/token".to_owned());
        proof {
            assert(texts(parts@) =~= first.push("MoE · 5.1B active/token"@));
        }
    } else if contains(model.as_str(), "gpt-oss-20b") {
        parts.push("MoE · 3.6B active/token".to_owned());
        proof {
            assert(texts(parts@) =~= first.push("MoE · 3.6B active/token"@));
        }
    }
    proof {
        assert(texts(parts@) =~= access_parts(config@));
    }
    join(&parts, " · ")
}

/// Whether two repository names are the same but for their tags.
pub open spec fn same_repo(left: Text, right: Text) -> bool {
    left == right || split_on(left, ':')[0] == split_on(right, ':')[0]
}

/// Whether two repository names are the same but for their tags.
pub fn repos_match(left: &str, right: &str) -> (r: bool)
    ensures
        r == same_repo(left@, right@),
{
    let a = split(left, ':');
    let b = split(right, ':');
    proof {
        crate::text::lemma_split_some(left@, ':');
        crate::text::lemma_split_some(right@, ':');
        assert(texts(a@)[0] == a@[0]@);
        assert(texts(b@)[0] == b@[0]@);
    }
    same(left, right) || same(a[0].as_str(), b[0].as_str())
}

/// What a download is of.
pub open spec fn fetching(file: Option<Text>, repo: Text) -> Text {
    match file {
        Some(f) => "Downloading "@ + f + " · "@ + repo,
        None => "Downloading "@ + repo,
    }
}

/// What a download is of.
pub fn download_summary(file: &Option<String>, repo: &str) -> (out: String)
    ensures
        out@ == fetching(opt_text(*file), repo@),
{
    let mut out = "Downloading ".to_owned();
    match file {
        Some(f) => {
            out.append(f.as_str());
            out.append(" · ");
        },
        None => {},
    }
    out.append(repo);
    out
}

/// The whole bytes of a second at a rate.
pub open spec fn per_second(r: Rate) -> nat {
    ((r.bytes * 1000) / r.millis as int) as nat
}

/// The nearest whole number of bytes of a second at a rate.
pub open spec fn per_second_rounded(r: Rate) -> nat {
    ((r.bytes * 2000 + r.millis) / (2 * r.millis)) as nat
}

proof fn lemma_rate_fits(bytes: u64, millis: u64)
    requires
        millis >= 1000,
    ensures
        (bytes * 1000) / millis as int <= bytes,
        (bytes * 2000 + millis) / (2 * millis) <= bytes + 1,
{
    assert((bytes * 1000) / millis as int <= bytes) by (nonlinear_arith)
        requires
            millis >= 1000,
            bytes >= 0,
    ;
    assert((bytes * 2000 + millis) / (2 * millis) <= bytes + 1) by (nonlinear_arith)
        requires
            millis >= 1000,
            bytes >= 0,
    ;
}

/// A time that is left, in whole seconds.
pub open spec fn seconds_left(millis: int) -> u64 {
    (millis / 1000) as u64
}

proof fn lemma_time_left(downloaded: u64, total: Option<u64>, rate: Option<Rate>)
    ensures
        time_left(downloaded, total, rate) matches Some(n) ==> 0 <= n / 1000 <= u64::MAX,
{
    match (total, rate) {
        (Some(t), Some(r)) => {
            if r.bytes * 1000 > r.millis {
                let rest = minus(t, downloaded) as int;
                let m = r.millis as int;
                let b = r.bytes as int;
                assert(0 <= rest * m / b <= rest * 1000) by (nonlinear_arith)
                    requires
                        0 <= rest,
                        0 <= m,
                        0 < b,
                        b * 1000 > m,
                ;
            }
        },
        _ => {},
    }
}

/// How far a download of the library is.
pub open spec fn library_progress(f: LibraryView) -> Text {
    let have = size_text(f.downloaded);
    match (f.total, rate_of(f.samples), time_left(f.downloaded, f.total, rate_of(f.samples))) {
        (Some(t), Some(r), Some(eta)) => have + " / "@ + size_text(t) + " · "@ + size_text(
            per_second(r) as u64,
        ) + "/s · ETA "@ + duration_text(seconds_left(eta)),
        (Some(t), Some(r), None) => have + " / "@ + size_text(t) + " · "@ + size_text(
            per_second(r) as u64,
        ) + "/s"@,
        (Some(t), None, _) => have + " / "@ + size_text(t),
        _ => have,
    }
}

fn eta_seconds(eta: Option<u128>) -> (r: Option<u64>)
    requires
        eta matches Some(n) ==> n / 1000 <= u64::MAX,
    ensures
        r == (match eta {
            Some(n) => Some(seconds_left(n as int)),
            None => None,
        }),
{
    match eta {
        Some(n) => Some((n / 1000) as u64),
        None => None,
    }
}

/// The whole seconds that are left of a download.
pub fn download_eta(d: &Download) -> (r: Option<u64>)
    ensures
        r == (match time_left(d@.downloaded, d@.total, rate_of(d@.samples)) {
            Some(n) => Some(seconds_left(n)),
            None => None,
        }),
{
    proof {
        lemma_time_left(d@.downloaded, d@.total, rate_of(d@.samples));
    }
    eta_seconds(d.eta())
}

/// The whole seconds that are left of a fetch into the library.
pub fn library_eta(f: &LibraryFetch) -> (r: Option<u64>)
    ensures
        r == (match time_left(f@.downloaded, f@.total, rate_of(f@.samples)) {
            Some(n) => Some(seconds_left(n)),
            None => None,
        }),
{
    proof {
        lemma_time_left(f@.downloaded, f@.total, rate_of(f@.samples));
    }
    eta_seconds(f.eta())
}

/// How far a download of the library is.
pub fn library_download_progress(fetch: &LibraryFetch) -> (out: String)
    ensures
        out@ == library_progress(fetch@),
{
    let mut out = format_bytes(fetch.downloaded);
    let rate = fetch.rate();
    let left = library_eta(fetch);
    match fetch.total {
        Some(t) => {
            out.append(" / ");
            out.append(format_bytes(t).as_str());
            match rate {
                Some(r) => {
                    proof {
                        lemma_rate_fits(r.bytes, r.millis);
                    }
                    let speed: u64 = ((r.bytes as u128 * 1000) / r.millis as u128) as u64;
                    out.append(" · ");
                    out.append(format_bytes(speed).as_str());
                    match left {
                        Some(s) => {
                            out.append("/s · ETA ");
                            out.append(format_eta(s).as_str());
                        },
                        None => {
                            out.append("/s");
                        },
                    }
                },
                None => {},
            }
        },
        None => {},
    }
    out
}

/// The nearest whole percentage of a part.
pub open spec fn percent(part: (u64, u64)) -> nat {
    nearest((part.0 * 100) as nat, part.1 as nat)
}

/// How much a download has, in words: the parts before its rate.
pub open spec fn amount_parts(d: DownloadView) -> Seq<Text> {
    let fetched = if d.downloaded == 0 {
        "preparing"@
    } else {
        size_text(d.downloaded) + " fetched"@
    };
    if d.listing_error is Some {
        seq!["progress unavailable"@, fetched]
    } else {
        match (part_of(d.downloaded, d.total), d.total) {
            (Some(p), Some(t)) => seq![
                decimal(percent(p)) + "%"@,
                size_text(d.downloaded) + " of "@ + size_text(t),
            ],
            _ => seq![fetched],
        }
    }
}

/// How far a download is, in words.
pub open spec fn progress_parts(d: DownloadView) -> Seq<Text> {
    let rate = rate_of(d.samples);
    amount_parts(d) + (match rate {
        Some(r) => seq![size_text(per_second_rounded(r) as u64) + "/s"@],
        None => Seq::empty(),
    }) + (match time_left(d.downloaded, d.total, rate) {
        Some(eta) => seq![duration_text(seconds_left(eta)) + " left"@],
        None => Seq::empty(),
    })
}

fn fetched_text(downloaded: u64) -> (out: String)
    ensures
        out@ == (if downloaded == 0 {
            "preparing"@
        } else {
            size_text(downloaded) + " fetched"@
        }),
{
    if downloaded == 0 {
        "preparing".to_owned()
    } else {
        let mut out = format_bytes(downloaded);
        out.append(" fetched");
        out
    }
}

fn percent_text(part: (u64, u64)) -> (out: String)
    requires
        part.0 <= part.1,
        part.1 > 0,
    ensures
        out@ == decimal(percent(part)) + "%"@,
{
    let n: u128 = part.0 as u128 * 100;
    let d: u128 = part.1 as u128;
    let q: u128 = n / d;
    let rest: u128 = n % d;
    proof {
        assert(q <= 100) by (nonlinear_arith)
            requires
                q == n / d,
                n <= d * 100,
                d > 0,
        ;
    }
    let p: u128 = if 2 * rest > d || (2 * rest == d && q % 2 == 1) {
        q + 1
    } else {
        q
    };
    let mut out = number(p as u64);
    out.append("%");
    out
}

fn amount(d: &Download) -> (out: Vec<String>)
    ensures
        texts(out@) == amount_parts(d@),
{
    if d.listing_error.is_some() {
        let out = vec!["progress unavailable".to_owned(), fetched_text(d.downloaded)];
        proof {
            assert(texts(out@) =~= amount_parts(d@));
        }
        return out;
    }
    match (d.fraction(), d.total) {
        (Some(p), Some(t)) => {
            let mut of = format_bytes(d.downloaded);
            of.append(" of ");
            of.append(format_bytes(t).as_str());
            let out = vec![percent_text(p), of];
            proof {
                assert(texts(out@) =~= amount_parts(d@));
            }
            out
        },
        _ => {
            let out = vec![fetched_text(d.downloaded)];
            proof {
                assert(texts(out@) =~= amount_parts(d@));
            }
            out
        },
    }
}

/// How far a download is.
pub fn download_progress(d: &Download) -> (out: String)
    ensures
        out@ == joined(progress_parts(d@), "  ·  "@),
{
    let mut parts = amount(d);
    let ghost first = texts(parts@);
    let rate = d.rate();
    match rate {
        Some(r) => {
            proof {
                lemma_rate_fits(r.bytes, r.millis);
            }
            let whole: u128 = (r.bytes as u128 * 2000 + r.millis as u128) / (2 * (r.millis as u128));
            proof {
                lemma_rounded_fits(r.bytes, r.millis);
            }
            let mut speed = format_bytes(whole as u64);
            speed.append("/s");
            parts.push(speed);
            proof {
                assert(texts(parts@) =~= first + seq![speed@]);
            }
        },
        None => {
            proof {
                assert(texts(parts@) =~= first + Seq::<Text>::empty());
            }
        },
    }
    let ghost second = texts(parts@);
    match download_eta(d) {
        Some(s) => {
            let mut left = format_eta(s);
            left.append(" left");
            parts.push(left);
            proof {
                assert(texts(parts@) =~= second + seq![left@]);
            }
        },
        None => {
            proof {
                assert(texts(parts@) =~= second + Seq::<Text>::empty());
            }
        },
    }
    join(&parts, "  ·  ")
}

proof fn lemma_rounded_fits(bytes: u64, millis: u64)
    requires
        millis >= 1000,
    ensures
        (bytes * 2000 + millis) / (2 * millis) <= u64::MAX,
{
    if bytes == u64::MAX {
        assert((bytes * 2000 + millis) / (2 * millis) <= bytes) by (nonlinear_arith)
            requires
                millis >= 1000,
                bytes >= 1,
        ;
    } else {
        lemma_rate_fits(bytes, millis);
    }
}

/// The percentage that is shown is nearest to the part: nothing is nought and
/// all is a hundred.
pub proof fn law_percentage_is_the_part(n: u64, t: u64)
    requires
        0 < t,
        n <= t,
    ensures
        percent((0, t)) == 0,
        percent((t, t)) == 100,
        2 * (n * 100) <= 2 * (percent((n, t)) * t) + t,
        2 * (percent((n, t)) * t) <= 2 * (n * 100) + t,
{
    crate::units::law_nearest_is_near((n * 100) as nat, t as nat);
    assert((t * 100) as nat / t as nat == 100 && (t * 100) as nat % t as nat == 0)
        by (nonlinear_arith)
        requires
            t > 0,
    ;
    assert(0nat / t as nat == 0 && 0nat % t as nat == 0) by (nonlinear_arith)
        requires
            t > 0,
    ;
}

/// So many bytes in so many seconds are that many in one.
pub proof fn law_rate_is_per_second(bytes: u64, seconds: u64)
    requires
        1 <= seconds <= 1_000_000,
    ensures
        per_second(Rate { bytes, millis: (seconds * 1000) as u64 }) == bytes / seconds,
        per_second_rounded(Rate { bytes, millis: (seconds * 1000) as u64 }) == (bytes * 2 + seconds)
            / (seconds * 2),
{
    let b = bytes as int;
    let s = seconds as int;
    assert((b * 1000) / (s * 1000) == b / s) by {
        vstd::arithmetic::div_mod::lemma_div_denominator(b * 1000, 1000, s);
        assert(1000 * s == s * 1000);
        assert((b * 1000) / 1000 == b);
    }
    assert((b * 2000 + s * 1000) / (2 * (s * 1000)) == (b * 2 + s) / (s * 2)) by {
        let x = b * 2 + s;
        assert(b * 2000 + s * 1000 == x * 1000);
        vstd::arithmetic::div_mod::lemma_div_denominator(x * 1000, 1000, s * 2);
        assert(1000 * (s * 2) == 2 * (s * 1000));
        assert((x * 1000) / 1000 == x);
    }
}

/// The summary of the settings begins with where the model runs and ends with
/// the number of slots; between them it tells the context and the batch.
pub proof fn law_summary_tells_the_settings(r: RuntimeView)
    ensures
        "CPU"@.is_prefix_of(runtime_text(r)) <==> r.cpu_only,
        r.parallel == 1 ==> (" · "@ + decimal(1) + " slot"@).is_suffix_of(runtime_text(r)),
        r.parallel != 1 ==> (" · "@ + decimal(r.parallel as nat) + " slots"@).is_suffix_of(
            runtime_text(r),
        ),
        occurs(runtime_text(r), " · "@ + token_text(r.context_size) + " context · "@),
        occurs(runtime_text(r), " batch "@ + decimal(r.batch_size as nat) + " · "@),
{
    let t = runtime_text(r);
    let head = if r.cpu_only {
        "CPU"@
    } else {
        "GPU offload"@
    };
    let word = if r.parallel == 1 {
        "slot"@
    } else {
        "slots"@
    };
    reveal_strlit("CPU");
    reveal_strlit("GPU offload");
    assert(t[0] == head[0]);
    if r.cpu_only {
        assert(t.subrange(0, 3) =~= "CPU"@);
    } else if "CPU"@.is_prefix_of(t) {
        assert(t.subrange(0, 3)[0] == t[0]);
    }
    reveal_strlit(" ");
    reveal_strlit("slot");
    reveal_strlit("slots");
    reveal_strlit(" slot");
    reveal_strlit(" slots");
    assert(" "@ + "slot"@ =~= " slot"@);
    assert(" "@ + "slots"@ =~= " slots"@);
    let tail = " · "@ + decimal(r.parallel as nat) + (" "@ + word);
    assert(t.subrange(t.len() - tail.len(), t.len() as int) =~= tail);
    reveal_strlit(" context · batch ");
    reveal_strlit(" context · ");
    reveal_strlit(" batch ");
    let c = " · "@ + token_text(r.context_size) + " context · "@;
    let k = head.len() as int;
    assert(t.subrange(k, k + c.len()) =~= c);
    assert(crate::text::occurs_at(t, c, k));
    let b = " batch "@ + decimal(r.batch_size as nat) + " · "@;
    let j = k + c.len() - 1;
    assert(t.subrange(j, j + b.len()) =~= b);
    assert(crate::text::occurs_at(t, b, j));
}

} // verus!

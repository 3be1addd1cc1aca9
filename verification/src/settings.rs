//! The settings page: its fields, what may be entered, and what an entry
//! changes.
use vstd::arithmetic::power2::{
    lemma2_to64, lemma2_to64_rest, lemma_pow2_adds, lemma_pow2_pos, lemma_pow2_strictly_increases,
    pow2,
};
use vstd::prelude::*;

use crate::config::{
    all_cache_types, cache_type, cache_types, named_cache_type, normalize_cache_type, Config,
    ConfigView, ModelSource, ModelView, RuntimeConfig, RuntimeView, ServerView, SourceView, CACHE_TYPE_COUNT,
};
use crate::floats::{lemma_small, power};
use crate::text::{
    decimal, index_in, is_space, lemma_decimal, lemma_index_in, lower, number, parse, parsed, same, slice, split, split_on,
    starts_with, texts, to_lower, trim, trimmed, Text,
};

verus! {

broadcast use vstd::string::group_string_axioms;

/// A field of the settings page.
#[derive(Clone, Copy, Debug, PartialEq, Eq, Structural)]
pub enum SettingField {
    SourceKind,
    Model,
    EstimatedSize,
    Executable,
    Host,
    Port,
    Context,
    Batch,
    MicroBatch,
    Parallel,
    CpuOnly,
    Mmap,
    Fit,
    Repack,
    Warmup,
    FlashAttn,
    CacheTypeK,
    CacheTypeV,
    CacheRam,
    Checkpoints,
    Mmproj,
    Jinja,
}

/// All fields, in the order of the page.
pub open spec fn all_fields() -> Seq<SettingField> {
    seq![
        SettingField::SourceKind,
        SettingField::Model,
        SettingField::EstimatedSize,
        SettingField::Executable,
        SettingField::Host,
        SettingField::Port,
        SettingField::Context,
        SettingField::Batch,
        SettingField::MicroBatch,
        SettingField::Parallel,
        SettingField::CpuOnly,
        SettingField::Mmap,
        SettingField::Fit,
        SettingField::Repack,
        SettingField::Warmup,
        SettingField::FlashAttn,
        SettingField::CacheTypeK,
        SettingField::CacheTypeV,
        SettingField::CacheRam,
        SettingField::Checkpoints,
        SettingField::Mmproj,
        SettingField::Jinja,
    ]
}

/// What a field is called.
pub open spec fn field_label(f: SettingField) -> Text {
    match f {
        SettingField::SourceKind => "Model source"@,
        SettingField::Model => "Model"@,
        SettingField::EstimatedSize => "Mapped file size"@,
        SettingField::Executable => "Server executable"@,
        SettingField::Host => "Listen address"@,
        SettingField::Port => "Port"@,
        SettingField::Context => "Context"@,
        SettingField::Batch => "Batch"@,
        SettingField::MicroBatch => "Micro-batch"@,
        SettingField::Parallel => "Parallel slots"@,
        SettingField::CpuOnly => "CPU only"@,
        SettingField::Mmap => "Memory map"@,
        SettingField::Fit => "Auto-fit"@,
        SettingField::Repack => "Repack weights"@,
        SettingField::Warmup => "Warm up"@,
        SettingField::FlashAttn => "Flash attention"@,
        SettingField::CacheTypeK => "Key (K)"@,
        SettingField::CacheTypeV => "Value (V)"@,
        SettingField::CacheRam => "Prompt cache RAM"@,
        SettingField::Checkpoints => "Context checkpoints"@,
        SettingField::Mmproj => "Multimodal projector"@,
        SettingField::Jinja => "Jinja template"@,
    }
}

/// The name by which a request speaks of a field.
pub open spec fn field_id(f: SettingField) -> Text {
    match f {
        SettingField::SourceKind => "source_kind"@,
        SettingField::Model => "model"@,
        SettingField::EstimatedSize => "estimated_size"@,
        SettingField::Executable => "executable"@,
        SettingField::Host => "host"@,
        SettingField::Port => "port"@,
        SettingField::Context => "context"@,
        SettingField::Batch => "batch"@,
        SettingField::MicroBatch => "micro_batch"@,
        SettingField::Parallel => "parallel"@,
        SettingField::CpuOnly => "cpu_only"@,
        SettingField::Mmap => "mmap"@,
        SettingField::Fit => "fit"@,
        SettingField::Repack => "repack"@,
        SettingField::Warmup => "warmup"@,
        SettingField::FlashAttn => "flash_attn"@,
        SettingField::CacheTypeK => "cache_type_k"@,
        SettingField::CacheTypeV => "cache_type_v"@,
        SettingField::CacheRam => "cache_ram"@,
        SettingField::Checkpoints => "checkpoints"@,
        SettingField::Mmproj => "mmproj"@,
        SettingField::Jinja => "jinja"@,
    }
}

/// Whether a field takes text.
pub open spec fn editable(f: SettingField) -> bool {
    match f {
        SettingField::Model
        | SettingField::EstimatedSize
        | SettingField::Executable
        | SettingField::Port
        | SettingField::Context
        | SettingField::Batch
        | SettingField::MicroBatch
        | SettingField::Parallel
        | SettingField::CacheTypeK
        | SettingField::CacheTypeV
        | SettingField::CacheRam
        | SettingField::Checkpoints => true,
        _ => false,
    }
}

/// Whether a field is a switch.
pub open spec fn toggle(f: SettingField) -> bool {
    match f {
        SettingField::SourceKind
        | SettingField::CpuOnly
        | SettingField::Mmap
        | SettingField::Fit
        | SettingField::Repack
        | SettingField::Warmup
        | SettingField::FlashAttn
        | SettingField::Mmproj
        | SettingField::Jinja => true,
        _ => false,
    }
}

impl SettingField {
    /// All fields, in the order of the page.
    pub fn all() -> (out: Vec<SettingField>)
        ensures
            out@ == all_fields(),
    {
        let out = vec![
            SettingField::SourceKind,
            SettingField::Model,
            SettingField::EstimatedSize,
            SettingField::Executable,
            SettingField::Host,
            SettingField::Port,
            SettingField::Context,
            SettingField::Batch,
            SettingField::MicroBatch,
            SettingField::Parallel,
            SettingField::CpuOnly,
            SettingField::Mmap,
            SettingField::Fit,
            SettingField::Repack,
            SettingField::Warmup,
            SettingField::FlashAttn,
            SettingField::CacheTypeK,
            SettingField::CacheTypeV,
            SettingField::CacheRam,
            SettingField::Checkpoints,
            SettingField::Mmproj,
            SettingField::Jinja,
        ];
        proof {
            assert(out@ =~= all_fields());
        }
        out
    }

    /// What the field is called.
    pub fn label(self) -> (r: &'static str)
        ensures
            r@ == field_label(self),
    {
        match self {
            SettingField::SourceKind => "Model source",
            SettingField::Model => "Model",
            SettingField::EstimatedSize => "Mapped file size",
            SettingField::Executable => "Server executable",
            SettingField::Host => "Listen address",
            SettingField::Port => "Port",
            SettingField::Context => "Context",
            SettingField::Batch => "Batch",
            SettingField::MicroBatch => "Micro-batch",
            SettingField::Parallel => "Parallel slots",
            SettingField::CpuOnly => "CPU only",
            SettingField::Mmap => "Memory map",
            SettingField::Fit => "Auto-fit",
            SettingField::Repack => "Repack weights",
            SettingField::Warmup => "Warm up",
            SettingField::FlashAttn => "Flash attention",
            SettingField::CacheTypeK => "Key (K)",
            SettingField::CacheTypeV => "Value (V)",
            SettingField::CacheRam => "Prompt cache RAM",
            SettingField::Checkpoints => "Context checkpoints",
            SettingField::Mmproj => "Multimodal projector",
            SettingField::Jinja => "Jinja template",
        }
    }

    /// Whether the field takes text.
    pub fn is_editable(self) -> (r: bool)
        ensures
            r == editable(self),
    {
        match self {
            SettingField::Model
            | SettingField::EstimatedSize
            | SettingField::Executable
            | SettingField::Port
            | SettingField::Context
            | SettingField::Batch
            | SettingField::MicroBatch
            | SettingField::Parallel
            | SettingField::CacheTypeK
            | SettingField::CacheTypeV
            | SettingField::CacheRam
            | SettingField::Checkpoints => true,
            _ => false,
        }
    }

    /// Whether the field is a switch.
    pub fn is_toggle(self) -> (r: bool)
        ensures
            r == toggle(self),
    {
        match self {
            SettingField::SourceKind
            | SettingField::CpuOnly
            | SettingField::Mmap
            | SettingField::Fit
            | SettingField::Repack
            | SettingField::Warmup
            | SettingField::FlashAttn
            | SettingField::Mmproj
            | SettingField::Jinja => true,
            _ => false,
        }
    }

    /// What may be chosen, where the field offers a choice.
    pub fn choices(self) -> (r: Option<Vec<String>>)
        ensures
            (match r {
                Some(v) => Some(texts(v@)),
                None => None::<Seq<Text>>,
            }) == (if self == SettingField::CacheTypeK || self == SettingField::CacheTypeV {
                Some(cache_types())
            } else {
                None
            }),
    {
        match self {
            SettingField::CacheTypeK | SettingField::CacheTypeV => Some(all_cache_types()),
            _ => None,
        }
    }

    /// The name by which a request speaks of the field.
    pub fn id(self) -> (r: &'static str)
        ensures
            r@ == field_id(self),
    {
        match self {
            SettingField::SourceKind => "source_kind",
            SettingField::Model => "model",
            SettingField::EstimatedSize => "estimated_size",
            SettingField::Executable => "executable",
            SettingField::Host => "host",
            SettingField::Port => "port",
            SettingField::Context => "context",
            SettingField::Batch => "batch",
            SettingField::MicroBatch => "micro_batch",
            SettingField::Parallel => "parallel",
            SettingField::CpuOnly => "cpu_only",
            SettingField::Mmap => "mmap",
            SettingField::Fit => "fit",
            SettingField::Repack => "repack",
            SettingField::Warmup => "warmup",
            SettingField::FlashAttn => "flash_attn",
            SettingField::CacheTypeK => "cache_type_k",
            SettingField::CacheTypeV => "cache_type_v",
            SettingField::CacheRam => "cache_ram",
            SettingField::Checkpoints => "checkpoints",
            SettingField::Mmproj => "mmproj",
            SettingField::Jinja => "jinja",
        }
    }
}

/// No field is both a switch and a place for text.
pub proof fn law_switches_take_no_text(f: SettingField)
    ensures
        !(editable(f) && toggle(f)),
{
}

/// What a text says of a switch.
pub open spec fn switch_of(value: Text) -> Result<bool, Text> {
    let t = lower(trimmed(value));
    if t == "true"@ || t == "1"@ || t == "on"@ || t == "yes"@ {
        Ok(true)
    } else if t == "false"@ || t == "0"@ || t == "off"@ || t == "no"@ {
        Ok(false)
    } else {
        Err("Enter true or false."@)
    }
}

/// The view of a result with text as its error.
pub open spec fn outcome<T>(r: Result<T, String>) -> Result<T, Text> {
    match r {
        Ok(v) => Ok(v),
        Err(e) => Err(e@),
    }
}

/// Reads a switch.
pub fn parse_bool(value: &str) -> (r: Result<bool, String>)
    ensures
        outcome(r) == switch_of(value@),
{
    let t = to_lower(trim(value).as_str());
    let t = t.as_str();
    if same(t, "true") || same(t, "1") || same(t, "on") || same(t, "yes") {
        Ok(true)
    } else if same(t, "false") || same(t, "0") || same(t, "off") || same(t, "no") {
        Ok(false)
    } else {
        Err("Enter true or false.".to_owned())
    }
}

/// A value moved by `delta` and kept on the side it moves to: at most `max` on
/// the way up, at least `min` on the way down.
pub open spec fn moved(value: u32, delta: int, min: u32, max: u32) -> u32 {
    let n = value + delta;
    if delta >= 0 {
        if n > max {
            max
        } else {
            n as u32
        }
    } else {
        if n < min {
            min
        } else {
            n as u32
        }
    }
}

/// Moves a value within its bounds.
pub fn adjust_u32(value: u32, delta: i32, min: u32, max: u32) -> (r: u32)
    ensures
        r == moved(value, delta as int, min, max),
{
    let n: i64 = value as i64 + delta as i64;
    if delta >= 0 {
        if n > max as i64 {
            max
        } else {
            n as u32
        }
    } else {
        if n < min as i64 {
            min
        } else {
            n as u32
        }
    }
}

/// A value doubled or halved, within its bounds.
pub open spec fn doubled(value: u32, increase: bool, min: u32, max: u32) -> u32 {
    if increase {
        if value * 2 > max {
            max
        } else {
            (value * 2) as u32
        }
    } else {
        if value / 2 < min {
            min
        } else {
            value / 2
        }
    }
}

/// Doubles or halves a value within its bounds.
pub fn adjust_power_of_two(value: u32, increase: bool, min: u32, max: u32) -> (r: u32)
    ensures
        r == doubled(value, increase, min, max),
{
    if increase {
        let n: u64 = value as u64 * 2;
        if n > max as u64 {
            max
        } else {
            n as u32
        }
    } else {
        if value / 2 < min {
            min
        } else {
            value / 2
        }
    }
}

/// What a text says of a whole number with bounds.
pub open spec fn bounded(value: Text, label: Text, min: u32, max: u32) -> Result<u32, Text> {
    match parsed(value, u32::MAX as nat) {
        None => Err("Enter "@ + label + " as a whole number."@),
        Some(n) => if min <= n <= max {
            Ok(n as u32)
        } else {
            Err(
                label + " must be between "@ + decimal(min as nat) + " and "@ + decimal(max as nat)
                    + "."@,
            )
        },
    }
}

/// Reads a whole number with bounds.
pub fn parse_bounded_u32(value: &str, label: &str, min: u32, max: u32) -> (r: Result<u32, String>)
    ensures
        outcome(r) == bounded(value@, label@, min, max),
{
    match parse(value, u32::MAX as u64) {
        None => {
            let mut e = "Enter ".to_owned();
            e.append(label);
            e.append(" as a whole number.");
            Err(e)
        },
        Some(n) => {
            if min as u64 <= n && n <= max as u64 {
                Ok(n as u32)
            } else {
                let mut e = label.to_owned();
                e.append(" must be between ");
                e.append(number(min as u64).as_str());
                e.append(" and ");
                e.append(number(max as u64).as_str());
                e.append(".");
                Err(e)
            }
        },
    }
}

/// What a text reads as: a number `mantissa * 2^exponent`, below or above zero,
/// or one beyond all bounds.
#[derive(Clone, Copy, Debug, PartialEq, Eq, Structural)]
pub enum ReadNumber {
    Value { negative: bool, mantissa: u64, exponent: i16 },
    Unbounded,
}

/// The number in a token count, and how many times it is doubled: `k` stands
/// for 1024 and `m` for 1024 times that.
pub open spec fn token_parts(value: Text) -> (Text, nat) {
    let t = lower(trimmed(value));
    if t.len() > 0 && t.last() == 'k' {
        (t.drop_last(), 10)
    } else if t.len() > 0 && t.last() == 'm' {
        (t.drop_last(), 20)
    } else {
        (t, 0)
    }
}

/// The number in a token count, and how many times it is doubled.
pub fn token_number(value: &str) -> (r: (String, u32))
    ensures
        (r.0@, r.1 as nat) == token_parts(value@),
{
    let t = to_lower(trim(value).as_str());
    let n: usize = t.as_str().unicode_len();
    if n > 0 {
        let last: char = t.as_str().get_char(n - 1);
        if last == 'k' || last == 'm' {
            let head = slice(t.as_str(), 0, n - 1);
            proof {
                assert(head@ =~= t@.drop_last());
            }
            return (head, if last == 'k' { 10 } else { 20 });
        }
    }
    (t, 0)
}

/// The whole number that `m * 2^e` is, if it is one.
pub open spec fn whole(m: nat, e: int) -> Option<nat> {
    if e >= 0 {
        Some(m * pow2(e as nat))
    } else if m % pow2((-e) as nat) == 0 {
        Some(m / pow2((-e) as nat))
    } else {
        None
    }
}

/// Whether `m * 2^e` is beyond what a number can hold.
pub open spec fn beyond(m: nat, e: int) -> bool {
    e >= 0 && m * pow2(e as nat) >= pow2(1024)
}

/// The token count that a number gives, doubled so many times.
pub open spec fn token_count_of(
    n: Option<ReadNumber>,
    doublings: nat,
    min: u32,
    max: u32,
) -> Result<u32, Text> {
    match n {
        None => Err("Enter a token count such as 8192 or 8k."@),
        Some(ReadNumber::Unbounded) => Err("Token count must resolve to a whole number."@),
        Some(ReadNumber::Value { negative, mantissa, exponent }) => {
            let e = exponent + doublings;
            match whole(mantissa as nat, e) {
                Some(k) if !beyond(mantissa as nat, e) => if (!negative || k == 0) && min <= k
                    <= max {
                    Ok(k as u32)
                } else {
                    Err(
                        "Token count must be between "@ + decimal(min as nat) + " and "@ + decimal(
                            max as nat,
                        ) + "."@,
                    )
                },
                _ => Err("Token count must resolve to a whole number."@),
            }
        },
    }
}

proof fn lemma_large(m: nat, e: nat)
    requires
        m >= 1,
        e >= 32,
    ensures
        m * pow2(e) > u32::MAX,
{
    lemma2_to64();
    if e > 32 {
        lemma_pow2_strictly_increases(32, e);
    }
    assert(m * pow2(e) >= pow2(e)) by (nonlinear_arith)
        requires
            m >= 1,
    ;
}

fn is_beyond(m: u64, e: i32) -> (r: bool)
    ensures
        r == beyond(m as nat, e as int),
{
    if e < 0 {
        return false;
    }
    if m == 0 {
        proof {
            lemma_pow2_pos(1024);
            assert(0 * pow2(e as nat) == 0);
        }
        return false;
    }
    if e >= 1024 {
        proof {
            if e > 1024 {
                lemma_pow2_strictly_increases(1024, e as nat);
            }
            assert(m * pow2(e as nat) >= pow2(e as nat)) by (nonlinear_arith)
                requires
                    m >= 1,
            ;
        }
        return true;
    }
    let k: u32 = (1024 - e) as u32;
    proof {
        lemma_pow2_adds(k as nat, e as nat);
        lemma_pow2_pos(e as nat);
    }
    if k >= 64 {
        proof {
            lemma_small(m, k as nat);
            assert(m * pow2(e as nat) < pow2(k as nat) * pow2(e as nat)) by (nonlinear_arith)
                requires
                    m < pow2(k as nat),
                    pow2(e as nat) > 0,
            ;
        }
        return false;
    }
    let p: u64 = power(k);
    proof {
        if m >= p {
            assert(m * pow2(e as nat) >= p * pow2(e as nat)) by (nonlinear_arith)
                requires
                    m >= p,
                    pow2(e as nat) > 0,
            ;
        } else {
            assert(m * pow2(e as nat) < p * pow2(e as nat)) by (nonlinear_arith)
                requires
                    m < p,
                    pow2(e as nat) > 0,
            ;
        }
    }
    m >= p
}

/// What `m * 2^e` comes to, as far as token counts go.
enum Scaled {
    Broken,
    Whole(u32),
    TooLarge,
}

fn scale(m: u64, e: i32) -> (r: Scaled)
    ensures
        match r {
            Scaled::Broken => whole(m as nat, e as int) is None,
            Scaled::Whole(n) => whole(m as nat, e as int) == Some(n as nat),
            Scaled::TooLarge => whole(m as nat, e as int) matches Some(k) && k > u32::MAX,
        },
{
    if e >= 0 {
        if m == 0 {
            proof {
                assert(0 * pow2(e as nat) == 0);
            }
            return Scaled::Whole(0);
        }
        if e >= 32 {
            proof {
                lemma_large(m as nat, e as nat);
            }
            return Scaled::TooLarge;
        }
        let p: u64 = power(e as u32);
        proof {
            lemma2_to64();
            if e < 32 {
                lemma_pow2_strictly_increases(e as nat, 32);
            }
            assert(0 <= m * p <= 0xffff_ffff_ffff_ffff * 0x1_0000_0000) by (nonlinear_arith)
                requires
                    0 <= m <= 0xffff_ffff_ffff_ffff,
                    0 <= p <= 0x1_0000_0000,
            ;
        }
        let n: u128 = (m as u128) * (p as u128);
        if n > u32::MAX as u128 {
            Scaled::TooLarge
        } else {
            Scaled::Whole(n as u32)
        }
    } else {
        let d: u32 = (-(e as i64)) as u32;
        if d >= 64 {
            proof {
                lemma_small(m, d as nat);
                lemma_pow2_pos(d as nat);
                if m == 0 {
                    assert(0nat / pow2(d as nat) == 0) by (nonlinear_arith)
                        requires
                            pow2(d as nat) > 0,
                    ;
                }
            }
            if m == 0 {
                return Scaled::Whole(0);
            }
            return Scaled::Broken;
        }
        let p: u64 = power(d);
        proof {
            lemma_pow2_pos(d as nat);
        }
        if m % p != 0 {
            return Scaled::Broken;
        }
        let n: u64 = m / p;
        if n > u32::MAX as u64 {
            Scaled::TooLarge
        } else {
            Scaled::Whole(n as u32)
        }
    }
}

/// The token count that a number gives, doubled so many times, within bounds.
pub fn token_count(n: Option<ReadNumber>, doublings: u32, min: u32, max: u32) -> (r: Result<
    u32,
    String,
>)
    requires
        doublings <= 64,
    ensures
        outcome(r) == token_count_of(n, doublings as nat, min, max),
{
    match n {
        None => Err("Enter a token count such as 8192 or 8k.".to_owned()),
        Some(ReadNumber::Unbounded) => Err(
            "Token count must resolve to a whole number.".to_owned(),
        ),
        Some(ReadNumber::Value { negative, mantissa, exponent }) => {
            let e: i32 = exponent as i32 + doublings as i32;
            if is_beyond(mantissa, e) {
                return Err("Token count must resolve to a whole number.".to_owned());
            }
            match scale(mantissa, e) {
                Scaled::Broken => Err("Token count must resolve to a whole number.".to_owned()),
                Scaled::Whole(k) => {
                    if (!negative || k == 0) && min <= k && k <= max {
                        Ok(k)
                    } else {
                        Err(out_of_range(min, max))
                    }
                },
                Scaled::TooLarge => Err(out_of_range(min, max)),
            }
        },
    }
}

fn out_of_range(min: u32, max: u32) -> (e: String)
    ensures
        e@ == "Token count must be between "@ + decimal(min as nat) + " and "@ + decimal(
            max as nat,
        ) + "."@,
{
    let mut e = "Token count must be between ".to_owned();
    e.append(number(min as u64).as_str());
    e.append(" and ");
    e.append(number(max as u64).as_str());
    e.append(".");
    e
}

/// A text without the quotes around it.
pub open spec fn unquoted(s: Text) -> Text {
    if s.len() >= 2 && ((s[0] == '"' && s.last() == '"') || (s[0] == '\'' && s.last() == '\'')) {
        s.subrange(1, s.len() - 1)
    } else {
        s
    }
}

/// A text without the quotes around it.
pub fn trim_wrapping_quotes(s: &str) -> (out: String)
    ensures
        out@ == unquoted(s@),
{
    let n: usize = s.unicode_len();
    if n >= 2 {
        let a: char = s.get_char(0);
        let b: char = s.get_char(n - 1);
        if (a == '"' && b == '"') || (a == '\'' && b == '\'') {
            return slice(s, 1, n - 1);
        }
    }
    s.to_owned()
}

/// How many of the parts of a path name something.
pub open spec fn named_parts(p: Seq<Text>) -> nat
    decreases p.len(),
{
    if p.len() == 0 {
        0
    } else {
        named_parts(p.drop_last()) + (if p.last().len() == 0 || p.last() == "."@ {
            0nat
        } else {
            1nat
        })
    }
}

/// Whether a path is a single name, as one that is looked up among the
/// programs.
pub open spec fn single_name(path: Text) -> bool {
    let p = split_on(path, '/');
    !"/"@.is_prefix_of(path) && named_parts(p) + (if p[0] == "."@ {
        1nat
    } else {
        0nat
    }) == 1
}

/// Whether a path is a single name.
pub fn is_single_name(path: &str) -> (r: bool)
    ensures
        r == single_name(path@),
{
    if starts_with(path, "/") {
        return false;
    }
    let p = split(path, '/');
    let ghost all = texts(p@);
    let mut n: usize = 0;
    let mut i: usize = 0;
    proof {
        assert(all.take(0) =~= Seq::<Text>::empty());
    }
    while i < p.len()
        invariant
            all == texts(p@),
            n <= i <= p.len(),
            n == named_parts(all.take(i as int)),
        decreases p.len() - i,
    {
        proof {
            assert(all.take(i + 1).drop_last() =~= all.take(i as int));
            assert(all.take(i + 1).last() == p@[i as int]@);
        }
        let t = p[i].as_str();
        if !t.is_empty() && !same(t, ".") {
            n = n + 1;
        }
        i = i + 1;
    }
    proof {
        assert(all.take(all.len() as int) =~= all);
        assert(all[0] == p@[0]@);
    }
    if same(p[0].as_str(), ".") {
        n == 0
    } else {
        n == 1
    }
}

/// What the settings page edits: the configuration, and the last model of
/// either kind.
#[verifier::ext_equal]
pub struct EditView {
    pub config: ConfigView,
    pub last_hf_model: Text,
    pub last_local_model: Text,
}

/// The configuration with other runtime settings.
pub open spec fn with_runtime(e: EditView, r: RuntimeView) -> EditView {
    EditView { config: ConfigView { runtime: r, ..e.config }, ..e }
}

/// The configuration with another model.
pub open spec fn with_source(e: EditView, s: SourceView) -> EditView {
    EditView {
        config: ConfigView { model: ModelView { source: s, ..e.config.model }, ..e.config },
        ..e
    }
}

/// The other kind of source: the last model of that kind comes back.
pub open spec fn source_switched(e: EditView) -> EditView {
    match e.config.model.source {
        SourceView::HuggingFace(v) => with_source(
            EditView { last_hf_model: v, ..e },
            SourceView::Local(e.last_local_model),
        ),
        SourceView::Local(v) => with_source(
            EditView { last_local_model: v, ..e },
            SourceView::HuggingFace(e.last_hf_model),
        ),
    }
}

/// The runtime settings with one switch set.
pub open spec fn with_switch(r: RuntimeView, f: SettingField, on: bool) -> RuntimeView {
    match f {
        SettingField::CpuOnly => RuntimeView { cpu_only: on, ..r },
        SettingField::Mmap => RuntimeView { mmap: on, ..r },
        SettingField::Fit => RuntimeView { fit: on, ..r },
        SettingField::Repack => RuntimeView { repack: on, ..r },
        SettingField::Warmup => RuntimeView { warmup: on, ..r },
        SettingField::FlashAttn => RuntimeView { flash_attn: on, ..r },
        SettingField::Mmproj => RuntimeView { multimodal_projector: on, ..r },
        SettingField::Jinja => RuntimeView { jinja: on, ..r },
        _ => r,
    }
}

/// How a switch of the runtime settings stands.
pub open spec fn switch_at(r: RuntimeView, f: SettingField) -> bool {
    match f {
        SettingField::CpuOnly => r.cpu_only,
        SettingField::Mmap => r.mmap,
        SettingField::Fit => r.fit,
        SettingField::Repack => r.repack,
        SettingField::Warmup => r.warmup,
        SettingField::FlashAttn => r.flash_attn,
        SettingField::Mmproj => r.multimodal_projector,
        SettingField::Jinja => r.jinja,
        _ => false,
    }
}

/// Whether a field is a switch of the runtime settings.
pub open spec fn runtime_switch(f: SettingField) -> bool {
    toggle(f) && f != SettingField::SourceKind
}

/// The text by which the other kind of source is asked for.
pub open spec fn asks_local(value: Text) -> bool {
    let t = lower(value);
    t == "local"@ || t == "local_gguf"@ || t == "gguf"@
}

/// What an entry does: the new values, or why it is refused. The text is
/// without white space at its ends; `n` is what the number in it reads as.
pub open spec fn entered(
    e: EditView,
    f: SettingField,
    raw: Text,
    n: Option<ReadNumber>,
) -> Result<EditView, Text> {
    let value = unquoted(trimmed(raw));
    let c = e.config;
    let r = c.runtime;
    match f {
        SettingField::Model => match c.model.source {
            SourceView::HuggingFace(_) => if value.len() == 0 {
                Err("Repository cannot be empty."@)
            } else {
                Ok(
                    with_source(
                        EditView { last_hf_model: value, ..e },
                        SourceView::HuggingFace(value),
                    ),
                )
            },
            SourceView::Local(_) => if value.len() == 0 {
                Err("GGUF file path cannot be empty."@)
            } else {
                Ok(
                    with_source(
                        EditView { last_local_model: value, ..e },
                        SourceView::Local(value),
                    ),
                )
            },
        },
        SettingField::EstimatedSize => Err("Mapped file size is detected automatically."@),
        SettingField::Executable => if value.len() == 0 {
            Err("Enter llama-server or its full executable path."@)
        } else {
            Ok(
                EditView {
                    config: ConfigView {
                        server: ServerView { executable: value, ..c.server },
                        ..c
                    },
                    ..e
                },
            )
        },
        SettingField::Host => Err(
            "Listen address is controlled in Devices — change the scope there."@,
        ),
        SettingField::Port => match bounded(value, "port"@, 1, 65_535) {
            Ok(p) => Ok(
                EditView {
                    config: ConfigView {
                        server: ServerView { port: p as u16, ..c.server },
                        ..c
                    },
                    ..e
                },
            ),
            Err(m) => Err(m),
        },
        SettingField::Context => match token_count_of(n, token_parts(value).1, 1, 1_048_576) {
            Ok(k) => Ok(with_runtime(e, RuntimeView { context_size: k, ..r })),
            Err(m) => Err(m),
        },
        SettingField::Batch => match bounded(value, "batch size"@, 1, 4096) {
            Ok(b) => if b < r.micro_batch_size {
                Err(
                    "Batch must be at least the micro-batch size ("@ + decimal(
                        r.micro_batch_size as nat,
                    ) + ")."@,
                )
            } else {
                Ok(with_runtime(e, RuntimeView { batch_size: b, ..r }))
            },
            Err(m) => Err(m),
        },
        SettingField::MicroBatch => match bounded(value, "micro-batch size"@, 1, r.batch_size) {
            Ok(b) => Ok(with_runtime(e, RuntimeView { micro_batch_size: b, ..r })),
            Err(m) => Err(m),
        },
        SettingField::Parallel => match bounded(value, "parallel slots"@, 1, 64) {
            Ok(b) => Ok(with_runtime(e, RuntimeView { parallel: b as u16, ..r })),
            Err(m) => Err(m),
        },
        SettingField::CacheRam => match bounded(value, "prompt cache RAM"@, 0, 131_072) {
            Ok(b) => Ok(with_runtime(e, RuntimeView { cache_ram_mib: b, ..r })),
            Err(m) => Err(m),
        },
        SettingField::Checkpoints => match bounded(value, "context checkpoints"@, 0, 256) {
            Ok(b) => Ok(with_runtime(e, RuntimeView { context_checkpoints: b, ..r })),
            Err(m) => Err(m),
        },
        SettingField::CacheTypeK => match named_cache_type(value) {
            Ok(t) => Ok(with_runtime(e, RuntimeView { cache_type_k: t, ..r })),
            Err(m) => Err(m),
        },
        SettingField::CacheTypeV => match named_cache_type(value) {
            Ok(t) => Ok(with_runtime(e, RuntimeView { cache_type_v: t, ..r })),
            Err(m) => Err(m),
        },
        SettingField::SourceKind => if asks_local(value) != (c.model.source is Local) {
            Ok(source_switched(e))
        } else {
            Ok(e)
        },
        _ => match switch_of(value) {
            Ok(on) => Ok(with_runtime(e, with_switch(r, f, on))),
            Err(m) => Err(m),
        },
    }
}

/// The next type in the round of types.
pub open spec fn next_cache_type(current: Text, forward: bool) -> Text {
    let at = index_in(cache_types(), current);
    let i = if at < CACHE_TYPE_COUNT {
        at
    } else {
        0
    };
    if forward {
        cache_types()[(i + 1) % (CACHE_TYPE_COUNT as int)]
    } else {
        cache_types()[(i + CACHE_TYPE_COUNT - 1) % (CACHE_TYPE_COUNT as int)]
    }
}

/// Whether a field is moved by steps or switched at all.
pub open spec fn adjustable(f: SettingField) -> bool {
    f != SettingField::Model && f != SettingField::Executable && f != SettingField::Host && f
        != SettingField::EstimatedSize
}

/// The steps that a field can be moved by at once.
pub open spec fn steps_fit(f: SettingField, direction: i32) -> bool {
    &&& f == SettingField::Context ==> i32::MIN <= direction * 1024 <= i32::MAX
    &&& f == SettingField::CacheRam ==> i32::MIN <= direction * 256 <= i32::MAX
}

/// The runtime settings after one of them was moved or switched.
pub open spec fn runtime_adjusted(r: RuntimeView, f: SettingField, direction: i32) -> RuntimeView {
    let up = direction > 0;
    match f {
        SettingField::Context => RuntimeView {
            context_size: moved(r.context_size, direction * 1024, 1024, 1_048_576),
            ..r
        },
        SettingField::Batch => {
            let b = doubled(r.batch_size, up, 1, 4096);
            RuntimeView {
                batch_size: b,
                micro_batch_size: if r.micro_batch_size <= b {
                    r.micro_batch_size
                } else {
                    b
                },
                ..r
            }
        },
        SettingField::MicroBatch => RuntimeView {
            micro_batch_size: doubled(r.micro_batch_size, up, 1, r.batch_size),
            ..r
        },
        SettingField::Parallel => RuntimeView {
            parallel: moved(r.parallel as u32, direction as int, 1, 64) as u16,
            ..r
        },
        SettingField::CacheTypeK => RuntimeView {
            cache_type_k: next_cache_type(r.cache_type_k, up),
            ..r
        },
        SettingField::CacheTypeV => RuntimeView {
            cache_type_v: next_cache_type(r.cache_type_v, up),
            ..r
        },
        SettingField::CacheRam => RuntimeView {
            cache_ram_mib: moved(r.cache_ram_mib, direction * 256, 0, 131_072),
            ..r
        },
        SettingField::Checkpoints => RuntimeView {
            context_checkpoints: moved(r.context_checkpoints, direction as int, 0, 256),
            ..r
        },
        _ => with_switch(r, f, !switch_at(r, f)),
    }
}

/// The values after a field was moved or switched.
pub open spec fn adjusted(e: EditView, f: SettingField, direction: i32) -> EditView {
    let c = e.config;
    match f {
        SettingField::SourceKind => source_switched(e),
        SettingField::Port => EditView {
            config: ConfigView {
                server: ServerView {
                    port: moved(c.server.port as u32, direction as int, 1, 65_535) as u16,
                    ..c.server
                },
                ..c
            },
            ..e
        },
        _ => with_runtime(e, runtime_adjusted(c.runtime, f, direction)),
    }
}

/// What is edited.
pub open spec fn edit(c: Config, hf: String, local: String) -> EditView {
    EditView { config: c@, last_hf_model: hf@, last_local_model: local@ }
}

/// Goes to the other kind of source, with the last model of that kind.
pub fn switch_source(config: &mut Config, hf: &mut String, local: &mut String)
    ensures
        edit(*final(config), *final(hf), *final(local)) == source_switched(
            edit(*old(config), *old(hf), *old(local)),
        ),
{
    let next = match &config.model.source {
        ModelSource::HuggingFace(v) => {
            *hf = v.clone();
            ModelSource::Local(local.clone())
        },
        ModelSource::Local(v) => {
            *local = v.clone();
            ModelSource::HuggingFace(hf.clone())
        },
    };
    config.model.source = next;
}

fn set_switch(r: &mut RuntimeConfig, f: SettingField, on: bool)
    ensures
        final(r)@ == with_switch(old(r)@, f, on),
{
    match f {
        SettingField::CpuOnly => {
            r.cpu_only = on;
        },
        SettingField::Mmap => {
            r.mmap = on;
        },
        SettingField::Fit => {
            r.fit = on;
        },
        SettingField::Repack => {
            r.repack = on;
        },
        SettingField::Warmup => {
            r.warmup = on;
        },
        SettingField::FlashAttn => {
            r.flash_attn = on;
        },
        SettingField::Mmproj => {
            r.multimodal_projector = on;
        },
        SettingField::Jinja => {
            r.jinja = on;
        },
        _ => {},
    }
}

fn read_switch(r: &RuntimeConfig, f: SettingField) -> (on: bool)
    ensures
        on == switch_at(r@, f),
{
    match f {
        SettingField::CpuOnly => r.cpu_only,
        SettingField::Mmap => r.mmap,
        SettingField::Fit => r.fit,
        SettingField::Repack => r.repack,
        SettingField::Warmup => r.warmup,
        SettingField::FlashAttn => r.flash_attn,
        SettingField::Mmproj => r.multimodal_projector,
        SettingField::Jinja => r.jinja,
        _ => false,
    }
}

/// Takes in an entry, or says why it is refused; then nothing changes. `n` is
/// what the number in a token count reads as.
#[verifier::spinoff_prover]
#[verifier::rlimit(80)]
pub fn enter(
    config: &mut Config,
    hf: &mut String,
    local: &mut String,
    f: SettingField,
    raw: &str,
    n: Option<ReadNumber>,
) -> (r: Result<(), String>)
    ensures
        match entered(edit(*old(config), *old(hf), *old(local)), f, raw@, n) {
            Ok(e) => r is Ok && edit(*final(config), *final(hf), *final(local)) == e,
            Err(m) => {
                &&& r matches Err(e)
                &&& e@ == m
                &&& edit(*final(config), *final(hf), *final(local)) == edit(
                    *old(config),
                    *old(hf),
                    *old(local),
                )
            },
        },
{
    let value = trim_wrapping_quotes(trim(raw).as_str());
    let text = value.as_str();
    match f {
        SettingField::Model => {
            let hosted: bool = match &config.model.source {
                ModelSource::HuggingFace(_) => true,
                ModelSource::Local(_) => false,
            };
            if hosted {
                if text.is_empty() {
                    return Err("Repository cannot be empty.".to_owned());
                }
                *hf = text.to_owned();
                config.model.source = ModelSource::HuggingFace(text.to_owned());
            } else {
                if text.is_empty() {
                    return Err("GGUF file path cannot be empty.".to_owned());
                }
                *local = text.to_owned();
                config.model.source = ModelSource::Local(text.to_owned());
            }
            Ok(())
        },
        SettingField::EstimatedSize => Err(
            "Mapped file size is detected automatically.".to_owned(),
        ),
        SettingField::Executable => {
            if text.is_empty() {
                return Err("Enter llama-server or its full executable path.".to_owned());
            }
            config.server.executable = text.to_owned();
            Ok(())
        },
        SettingField::Host => Err(
            "Listen address is controlled in Devices — change the scope there.".to_owned(),
        ),
        SettingField::Port => match parse_bounded_u32(text, "port", 1, 65_535) {
            Ok(p) => {
                config.server.port = p as u16;
                Ok(())
            },
            Err(m) => Err(m),
        },
        SettingField::Context => {
            let (_, doublings) = token_number(text);
            match token_count(n, doublings, 1, 1_048_576) {
                Ok(k) => {
                    config.runtime.context_size = k;
                    Ok(())
                },
                Err(m) => Err(m),
            }
        },
        SettingField::Batch => match parse_bounded_u32(text, "batch size", 1, 4096) {
            Ok(b) => {
                if b < config.runtime.micro_batch_size {
                    let mut m = "Batch must be at least the micro-batch size (".to_owned();
                    m.append(number(config.runtime.micro_batch_size as u64).as_str());
                    m.append(").");
                    return Err(m);
                }
                config.runtime.batch_size = b;
                Ok(())
            },
            Err(m) => Err(m),
        },
        SettingField::MicroBatch => match parse_bounded_u32(
            text,
            "micro-batch size",
            1,
            config.runtime.batch_size,
        ) {
            Ok(b) => {
                config.runtime.micro_batch_size = b;
                Ok(())
            },
            Err(m) => Err(m),
        },
        SettingField::Parallel => match parse_bounded_u32(text, "parallel slots", 1, 64) {
            Ok(b) => {
                config.runtime.parallel = b as u16;
                Ok(())
            },
            Err(m) => Err(m),
        },
        SettingField::CacheRam => match parse_bounded_u32(text, "prompt cache RAM", 0, 131_072) {
            Ok(b) => {
                config.runtime.cache_ram_mib = b;
                Ok(())
            },
            Err(m) => Err(m),
        },
        SettingField::Checkpoints => match parse_bounded_u32(
            text,
            "context checkpoints",
            0,
            256,
        ) {
            Ok(b) => {
                config.runtime.context_checkpoints = b;
                Ok(())
            },
            Err(m) => Err(m),
        },
        SettingField::CacheTypeK => match normalize_cache_type(text) {
            Ok(t) => {
                config.runtime.cache_type_k = t;
                Ok(())
            },
            Err(m) => Err(m),
        },
        SettingField::CacheTypeV => match normalize_cache_type(text) {
            Ok(t) => {
                config.runtime.cache_type_v = t;
                Ok(())
            },
            Err(m) => Err(m),
        },
        SettingField::SourceKind => {
            let t = to_lower(text);
            let want: bool = same(t.as_str(), "local") || same(t.as_str(), "local_gguf") || same(
                t.as_str(),
                "gguf",
            );
            let is_local: bool = match &config.model.source {
                ModelSource::HuggingFace(_) => false,
                ModelSource::Local(_) => true,
            };
            if want != is_local {
                switch_source(config, hf, local);
            }
            Ok(())
        },
        _ => match parse_bool(text) {
            Ok(on) => {
                set_switch(&mut config.runtime, f, on);
                Ok(())
            },
            Err(m) => Err(m),
        },
    }
}

fn following_cache_type(current: &str, forward: bool) -> (out: String)
    ensures
        out@ == next_cache_type(current@, forward),
{
    let mut i: usize = 0;
    proof {
        lemma_index_in(cache_types(), current@);
    }
    while i < CACHE_TYPE_COUNT && !same(cache_type(i), current)
        invariant
            i <= CACHE_TYPE_COUNT,
            cache_types().len() == CACHE_TYPE_COUNT,
            forall|k: int| 0 <= k < i ==> cache_types()[k] != current@,
        decreases CACHE_TYPE_COUNT - i,
    {
        i = i + 1;
    }
    let at: usize = if i < CACHE_TYPE_COUNT {
        i
    } else {
        0
    };
    let next: usize = if forward {
        (at + 1) % CACHE_TYPE_COUNT
    } else {
        (at + CACHE_TYPE_COUNT - 1) % CACHE_TYPE_COUNT
    };
    cache_type(next).to_owned()
}

fn adjust_runtime(r: &mut RuntimeConfig, f: SettingField, direction: i32)
    requires
        steps_fit(f, direction),
    ensures
        final(r)@ == runtime_adjusted(old(r)@, f, direction),
{
    let up: bool = direction > 0;
    match f {
        SettingField::Context => {
            r.context_size = adjust_u32(r.context_size, direction * 1024, 1024, 1_048_576);
        },
        SettingField::Batch => {
            let b: u32 = adjust_power_of_two(r.batch_size, up, 1, 4096);
            r.batch_size = b;
            if r.micro_batch_size > b {
                r.micro_batch_size = b;
            }
        },
        SettingField::MicroBatch => {
            r.micro_batch_size = adjust_power_of_two(r.micro_batch_size, up, 1, r.batch_size);
        },
        SettingField::Parallel => {
            r.parallel = adjust_u32(r.parallel as u32, direction, 1, 64) as u16;
        },
        SettingField::CacheTypeK => {
            r.cache_type_k = following_cache_type(r.cache_type_k.as_str(), up);
        },
        SettingField::CacheTypeV => {
            r.cache_type_v = following_cache_type(r.cache_type_v.as_str(), up);
        },
        SettingField::CacheRam => {
            r.cache_ram_mib = adjust_u32(r.cache_ram_mib, direction * 256, 0, 131_072);
        },
        SettingField::Checkpoints => {
            r.context_checkpoints = adjust_u32(r.context_checkpoints, direction, 0, 256);
        },
        _ => {
            let on: bool = read_switch(r, f);
            set_switch(r, f, !on);
        },
    }
}

/// Moves a field by steps, or switches it.
pub fn adjust(
    config: &mut Config,
    hf: &mut String,
    local: &mut String,
    f: SettingField,
    direction: i32,
)
    requires
        steps_fit(f, direction),
    ensures
        edit(*final(config), *final(hf), *final(local)) == adjusted(
            edit(*old(config), *old(hf), *old(local)),
            f,
            direction,
        ),
{
    match f {
        SettingField::SourceKind => switch_source(config, hf, local),
        SettingField::Port => {
            config.server.port = adjust_u32(config.server.port as u32, direction, 1, 65_535) as u16;
        },
        _ => adjust_runtime(&mut config.runtime, f, direction),
    }
}

/// A switch that is switched twice is where it was.
pub proof fn law_toggle_twice(e: EditView, f: SettingField, a: i32, b: i32)
    requires
        runtime_switch(f),
    ensures
        adjusted(adjusted(e, f, a), f, b) == e,
{
}

/// Switching the kind of source and back keeps the models of both kinds.
pub proof fn law_source_switch_preserves_both(e: EditView, a: i32, b: i32)
    ensures
        ({
            let back = adjusted(adjusted(e, SettingField::SourceKind, a), SettingField::SourceKind, b);
            &&& back.config == e.config
            &&& (e.config.model.source matches SourceView::HuggingFace(v) ==> back.last_hf_model
                == v && back.last_local_model == e.last_local_model)
            &&& (e.config.model.source matches SourceView::Local(v) ==> back.last_local_model == v
                && back.last_hf_model == e.last_hf_model)
        }),
{
}

/// Whether the sizes that the page sets are within their bounds, with the
/// smaller batch no larger than the batch.
pub open spec fn sizes_hold(e: EditView) -> bool {
    let r = e.config.runtime;
    &&& 1 <= r.micro_batch_size <= r.batch_size <= 4096
    &&& 1 <= r.context_size <= 1_048_576
    &&& 1 <= r.parallel <= 64
    &&& r.cache_ram_mib <= 131_072
    &&& r.context_checkpoints <= 256
    &&& e.config.server.port >= 1
}

/// Steps do not lead out of the bounds.
pub proof fn law_steps_stay_in_bounds(e: EditView, f: SettingField, direction: i32)
    requires
        sizes_hold(e),
    ensures
        sizes_hold(adjusted(e, f, direction)),
{
}

/// Entries do not lead out of the bounds.
#[verifier::spinoff_prover]
#[verifier::rlimit(40)]
pub proof fn law_entries_stay_in_bounds(
    e: EditView,
    f: SettingField,
    raw: Text,
    n: Option<ReadNumber>,
)
    requires
        sizes_hold(e),
    ensures
        entered(e, f, raw, n) matches Ok(x) ==> sizes_hold(x),
{
    lemma_token_count_bounds(n, token_parts(unquoted(trimmed(raw))).1, 1, 1_048_576);
}

proof fn lemma_token_count_bounds(n: Option<ReadNumber>, doublings: nat, min: u32, max: u32)
    ensures
        token_count_of(n, doublings, min, max) matches Ok(k) ==> min <= k <= max,
{
}

/// An accepted entry touches neither the network settings, nor the panel, nor
/// the remembered models, nor the host and the extra arguments of the server.
pub proof fn law_entries_keep_the_rest(
    e: EditView,
    f: SettingField,
    raw: Text,
    n: Option<ReadNumber>,
)
    ensures
        entered(e, f, raw, n) matches Ok(x) ==> {
            &&& x.config.network == e.config.network
            &&& x.config.recent_models == e.config.recent_models
            &&& x.config.ui == e.config.ui
            &&& x.config.server.host == e.config.server.host
            &&& x.config.server.extra_args == e.config.server.extra_args
        },
{
}

/// Whether one field of the settings page was set and every other setting is as
/// before.
pub open spec fn only_set(e: EditView, x: EditView, f: SettingField) -> bool {
    &&& f != SettingField::Context ==> x.config.runtime.context_size == e.config.runtime.context_size
    &&& f != SettingField::Batch ==> x.config.runtime.batch_size == e.config.runtime.batch_size
    &&& f != SettingField::MicroBatch ==> x.config.runtime.micro_batch_size == e.config.runtime.micro_batch_size
    &&& f != SettingField::Parallel ==> x.config.runtime.parallel == e.config.runtime.parallel
    &&& f != SettingField::CpuOnly ==> x.config.runtime.cpu_only == e.config.runtime.cpu_only
    &&& f != SettingField::Mmap ==> x.config.runtime.mmap == e.config.runtime.mmap
    &&& f != SettingField::Fit ==> x.config.runtime.fit == e.config.runtime.fit
    &&& f != SettingField::Repack ==> x.config.runtime.repack == e.config.runtime.repack
    &&& f != SettingField::Warmup ==> x.config.runtime.warmup == e.config.runtime.warmup
    &&& f != SettingField::FlashAttn ==> x.config.runtime.flash_attn == e.config.runtime.flash_attn
    &&& f != SettingField::CacheTypeK ==> x.config.runtime.cache_type_k == e.config.runtime.cache_type_k
    &&& f != SettingField::CacheTypeV ==> x.config.runtime.cache_type_v == e.config.runtime.cache_type_v
    &&& f != SettingField::CacheRam ==> x.config.runtime.cache_ram_mib == e.config.runtime.cache_ram_mib
    &&& f != SettingField::Checkpoints ==> x.config.runtime.context_checkpoints == e.config.runtime.context_checkpoints
    &&& f != SettingField::Mmproj ==> x.config.runtime.multimodal_projector == e.config.runtime.multimodal_projector
    &&& f != SettingField::Jinja ==> x.config.runtime.jinja == e.config.runtime.jinja
    &&& f != SettingField::Port ==> x.config.server.port == e.config.server.port
    &&& f != SettingField::Executable ==> x.config.server.executable == e.config.server.executable
    &&& f != SettingField::Model && f != SettingField::SourceKind ==> x.config.model == e.config.model
    &&& x.config.server.host == e.config.server.host
    &&& x.config.server.api_key == e.config.server.api_key
    &&& x.config.server.extra_args == e.config.server.extra_args
    &&& x.config.network == e.config.network
    &&& x.config.ui == e.config.ui
    &&& x.config.recent_models == e.config.recent_models
}

/// Whether one field of the settings page was moved and every other setting is as
/// before; a batch may take the micro-batch down with it.
pub open spec fn only_stepped(e: EditView, x: EditView, f: SettingField) -> bool {
    &&& f != SettingField::Context ==> x.config.runtime.context_size == e.config.runtime.context_size
    &&& f != SettingField::Batch ==> x.config.runtime.batch_size == e.config.runtime.batch_size
    &&& f != SettingField::MicroBatch && f != SettingField::Batch ==> x.config.runtime.micro_batch_size == e.config.runtime.micro_batch_size
    &&& f != SettingField::Parallel ==> x.config.runtime.parallel == e.config.runtime.parallel
    &&& f != SettingField::CpuOnly ==> x.config.runtime.cpu_only == e.config.runtime.cpu_only
    &&& f != SettingField::Mmap ==> x.config.runtime.mmap == e.config.runtime.mmap
    &&& f != SettingField::Fit ==> x.config.runtime.fit == e.config.runtime.fit
    &&& f != SettingField::Repack ==> x.config.runtime.repack == e.config.runtime.repack
    &&& f != SettingField::Warmup ==> x.config.runtime.warmup == e.config.runtime.warmup
    &&& f != SettingField::FlashAttn ==> x.config.runtime.flash_attn == e.config.runtime.flash_attn
    &&& f != SettingField::CacheTypeK ==> x.config.runtime.cache_type_k == e.config.runtime.cache_type_k
    &&& f != SettingField::CacheTypeV ==> x.config.runtime.cache_type_v == e.config.runtime.cache_type_v
    &&& f != SettingField::CacheRam ==> x.config.runtime.cache_ram_mib == e.config.runtime.cache_ram_mib
    &&& f != SettingField::Checkpoints ==> x.config.runtime.context_checkpoints == e.config.runtime.context_checkpoints
    &&& f != SettingField::Mmproj ==> x.config.runtime.multimodal_projector == e.config.runtime.multimodal_projector
    &&& f != SettingField::Jinja ==> x.config.runtime.jinja == e.config.runtime.jinja
    &&& f != SettingField::Port ==> x.config.server.port == e.config.server.port
    &&& f != SettingField::Executable ==> x.config.server.executable == e.config.server.executable
    &&& f != SettingField::Model && f != SettingField::SourceKind ==> x.config.model == e.config.model
    &&& x.config.server.host == e.config.server.host
    &&& x.config.server.api_key == e.config.server.api_key
    &&& x.config.server.extra_args == e.config.server.extra_args
    &&& x.config.network == e.config.network
    &&& x.config.ui == e.config.ui
    &&& x.config.recent_models == e.config.recent_models
}

/// An accepted entry sets the setting that it is for and no other.
#[verifier::spinoff_prover]
#[verifier::rlimit(60)]
pub proof fn law_entry_sets_its_setting_only(
    e: EditView,
    f: SettingField,
    raw: Text,
    n: Option<ReadNumber>,
)
    ensures
        entered(e, f, raw, n) matches Ok(x) ==> only_set(e, x, f),
{
    match f {
        SettingField::SourceKind => {},
        SettingField::Model => {},
        SettingField::EstimatedSize => {},
        SettingField::Executable => {},
        SettingField::Host => {},
        SettingField::Port => {},
        SettingField::Context => {},
        SettingField::Batch => {},
        SettingField::MicroBatch => {},
        SettingField::Parallel => {},
        SettingField::CpuOnly => {},
        SettingField::Mmap => {},
        SettingField::Fit => {},
        SettingField::Repack => {},
        SettingField::Warmup => {},
        SettingField::FlashAttn => {},
        SettingField::CacheTypeK => {},
        SettingField::CacheTypeV => {},
        SettingField::CacheRam => {},
        SettingField::Checkpoints => {},
        SettingField::Mmproj => {},
        SettingField::Jinja => {},
    }
}

proof fn lemma_plain_entry(t: Text)
    requires
        t.len() > 0,
        !is_space(t[0]),
        !is_space(t.last()),
        t[0] != '"',
        t[0] != '\'',
    ensures
        unquoted(trimmed(t)) == t,
        trimmed(t) == t,
{
}

proof fn lemma_number_entry(k: nat)
    ensures
        unquoted(trimmed(decimal(k))) == decimal(k),
        k <= u32::MAX ==> parsed(decimal(k), u32::MAX as nat) == Some(k),
        k > u32::MAX ==> parsed(decimal(k), u32::MAX as nat) is None,
{
    lemma_decimal(k);
    let t = decimal(k);
    assert('0' <= t[0] <= '9');
    assert('0' <= t[t.len() - 1] <= '9');
    lemma_plain_entry(t);
}

/// A number that is entered is what the setting is then, where it is within the
/// bounds of the setting; else the entry is refused.
pub proof fn law_entered_number_is_set(e: EditView, k: nat, n: Option<ReadNumber>)
    ensures
        1 <= k <= 65_535 ==> (entered(e, SettingField::Port, decimal(k), n) matches Ok(x) && x.config.server.port
            == k),
        !(1 <= k <= 65_535) ==> entered(e, SettingField::Port, decimal(k), n) is Err,
        1 <= k <= 4096 && e.config.runtime.micro_batch_size <= k ==> (entered(e, SettingField::Batch, decimal(k), n) matches Ok(x) && x.config.runtime.batch_size
            == k),
        !(1 <= k <= 4096 && e.config.runtime.micro_batch_size <= k) ==> entered(e, SettingField::Batch, decimal(k), n) is Err,
        1 <= k <= e.config.runtime.batch_size ==> (entered(e, SettingField::MicroBatch, decimal(k), n) matches Ok(x) && x.config.runtime.micro_batch_size
            == k),
        !(1 <= k <= e.config.runtime.batch_size) ==> entered(e, SettingField::MicroBatch, decimal(k), n) is Err,
        1 <= k <= 64 ==> (entered(e, SettingField::Parallel, decimal(k), n) matches Ok(x) && x.config.runtime.parallel
            == k),
        !(1 <= k <= 64) ==> entered(e, SettingField::Parallel, decimal(k), n) is Err,
        0 <= k <= 131_072 ==> (entered(e, SettingField::CacheRam, decimal(k), n) matches Ok(x) && x.config.runtime.cache_ram_mib
            == k),
        !(0 <= k <= 131_072) ==> entered(e, SettingField::CacheRam, decimal(k), n) is Err,
        0 <= k <= 256 ==> (entered(e, SettingField::Checkpoints, decimal(k), n) matches Ok(x) && x.config.runtime.context_checkpoints
            == k),
        !(0 <= k <= 256) ==> entered(e, SettingField::Checkpoints, decimal(k), n) is Err,
{
    lemma_number_entry(k);
}

/// A type of the context cache that is entered is what that cache has then, the
/// one for keys or the one for values; any other text is refused.
pub proof fn law_entered_cache_type_is_set(e: EditView, t: Text, n: Option<ReadNumber>)
    requires
        t == "f32"@ || t == "f16"@ || t == "bf16"@ || t == "q8_0"@ || t == "q4_0"@ || t == "q4_1"@
            || t == "iq4_nl"@ || t == "q5_0"@ || t == "q5_1"@,
    ensures
        entered(e, SettingField::CacheTypeK, t, n) matches Ok(x) && x.config.runtime.cache_type_k
            == t && x.config.runtime.cache_type_v == e.config.runtime.cache_type_v,
        entered(e, SettingField::CacheTypeV, t, n) matches Ok(x) && x.config.runtime.cache_type_v
            == t && x.config.runtime.cache_type_k == e.config.runtime.cache_type_k,
{
    reveal_strlit("f32");
    reveal_strlit("f16");
    reveal_strlit("bf16");
    reveal_strlit("q8_0");
    reveal_strlit("q4_0");
    reveal_strlit("q4_1");
    reveal_strlit("iq4_nl");
    reveal_strlit("q5_0");
    reveal_strlit("q5_1");
    lemma_plain_entry(t);
    assert(lower(t) =~= t);
    let all = cache_types();
    assert(all[0] == "f32"@ && all[1] == "f16"@ && all[2] == "bf16"@ && all[3] == "q8_0"@ && all[4]
        == "q4_0"@ && all[5] == "q4_1"@ && all[6] == "iq4_nl"@ && all[7] == "q5_0"@ && all[8]
        == "q5_1"@);
}

/// A switch that is entered as on or off, in any of the words for it, is on or
/// off then.
pub proof fn law_entered_switch_is_set(e: EditView, word: Text, on: bool, n: Option<ReadNumber>)
    requires
        on ==> word == "true"@ || word == "1"@ || word == "on"@ || word == "yes"@,
        !on ==> word == "false"@ || word == "0"@ || word == "off"@ || word == "no"@,
    ensures
        entered(e, SettingField::CpuOnly, word, n) matches Ok(x) && x.config.runtime.cpu_only == on,
        entered(e, SettingField::Mmap, word, n) matches Ok(x) && x.config.runtime.mmap == on,
        entered(e, SettingField::Fit, word, n) matches Ok(x) && x.config.runtime.fit == on,
        entered(e, SettingField::Repack, word, n) matches Ok(x) && x.config.runtime.repack == on,
        entered(e, SettingField::Warmup, word, n) matches Ok(x) && x.config.runtime.warmup == on,
        entered(e, SettingField::FlashAttn, word, n) matches Ok(x) && x.config.runtime.flash_attn == on,
        entered(e, SettingField::Mmproj, word, n) matches Ok(x) && x.config.runtime.multimodal_projector == on,
        entered(e, SettingField::Jinja, word, n) matches Ok(x) && x.config.runtime.jinja == on,
{
    reveal_strlit("true");
    reveal_strlit("1");
    reveal_strlit("on");
    reveal_strlit("yes");
    reveal_strlit("false");
    reveal_strlit("0");
    reveal_strlit("off");
    reveal_strlit("no");
    lemma_plain_entry(word);
    assert(lower(word) =~= word);
}

/// A model or a program that is entered is the one in the settings then, without
/// the white space and the quotes around it; the kind of the source stays.
pub proof fn law_entered_name_is_set(e: EditView, name: Text, n: Option<ReadNumber>)
    requires
        name.len() > 0,
        !is_space(name[0]),
        !is_space(name.last()),
        name[0] != '"',
        name[0] != '\'',
    ensures
        entered(e, SettingField::Executable, name, n) matches Ok(x) && x.config.server.executable
            == name,
        entered(e, SettingField::Executable, seq!['"'] + name + seq!['"'], n) matches Ok(x)
            && x.config.server.executable == name,
        e.config.model.source is HuggingFace ==> (entered(e, SettingField::Model, name, n) matches Ok(
            x,
        ) && x.config.model.source == SourceView::HuggingFace(name) && x.last_hf_model == name
            && x.last_local_model == e.last_local_model),
        e.config.model.source is Local ==> (entered(e, SettingField::Model, name, n) matches Ok(x)
            && x.config.model.source == SourceView::Local(name) && x.last_local_model == name
            && x.last_hf_model == e.last_hf_model),
{
    lemma_plain_entry(name);
    let q = seq!['"'] + name + seq!['"'];
    assert(trimmed(q) == q);
    assert(q.subrange(1, q.len() - 1) =~= name);
}

/// A number of tokens is entered as it is, or with a `k` for so many times 1024,
/// or with an `m` for so many times 1024 times 1024.
pub proof fn law_entered_tokens_are_set(e: EditView, k: u64)
    requires
        1 <= k <= 1_048_576,
    ensures
        ({
            let n = Some(ReadNumber::Value { negative: false, mantissa: k, exponent: 0 });
            &&& entered(e, SettingField::Context, decimal(k as nat), n) matches Ok(x)
                && x.config.runtime.context_size == k
            &&& k <= 1024 ==> (entered(e, SettingField::Context, decimal(k as nat) + "k"@, n) matches Ok(
                x,
            ) && x.config.runtime.context_size == k * 1024)
            &&& k == 1 ==> (entered(e, SettingField::Context, decimal(k as nat) + "m"@, n) matches Ok(
                x,
            ) && x.config.runtime.context_size == k * 1_048_576)
        }),
{
    let d = decimal(k as nat);
    lemma_number_entry(k as nat);
    lemma_decimal(k as nat);
    reveal_strlit("k");
    reveal_strlit("m");
    assert('0' <= d[0] <= '9');
    assert('0' <= d[d.len() - 1] <= '9');
    lemma2_to64();
    lemma_pow2_beyond(k as nat, 0);
    lemma_pow2_beyond(k as nat, 10);
    lemma_pow2_beyond(k as nat, 20);
    let dk = d + "k"@;
    let dm = d + "m"@;
    lemma_plain_entry(d);
    lemma_plain_entry(dk);
    lemma_plain_entry(dm);
    assert(lower(d) =~= d);
    assert(lower(dk) =~= dk);
    assert(lower(dm) =~= dm);
    assert(token_parts(d).1 == 0);
    assert(token_parts(dk).1 == 10);
    assert(token_parts(dm).1 == 20);
    let n = Some(ReadNumber::Value { negative: false, mantissa: k, exponent: 0 });
    assert(pow2(0) == 1 && pow2(10) == 1024 && pow2(20) == 1_048_576);
    assert(k * pow2(0) == k) by (nonlinear_arith)
        requires
            pow2(0) == 1,
    ;
    assert(k * pow2(10) == k * 1024) by (nonlinear_arith)
        requires
            pow2(10) == 1024,
    ;
    assert(k * pow2(20) == k * 1_048_576) by (nonlinear_arith)
        requires
            pow2(20) == 1_048_576,
    ;
    assert(token_count_of(n, 0, 1, 1_048_576) == Ok::<u32, Text>(k as u32));
    if k <= 1024 {
        assert(token_count_of(n, 10, 1, 1_048_576) == Ok::<u32, Text>((k * 1024) as u32));
    }
    if k == 1 {
        assert(token_count_of(n, 20, 1, 1_048_576) == Ok::<u32, Text>((k * 1_048_576) as u32));
    }
}

proof fn lemma_pow2_beyond(k: nat, e: nat)
    requires
        k <= 1_048_576,
        e <= 20,
    ensures
        !beyond(k, e as int),
{
    lemma2_to64();
    lemma2_to64_rest();
    if e < 20 {
        lemma_pow2_strictly_increases(e, 20);
    }
    lemma_pow2_strictly_increases(64, 1024);
    assert(k * pow2(e) <= 1_048_576 * 1_048_576) by (nonlinear_arith)
        requires
            k <= 1_048_576,
            0 <= pow2(e) <= 1_048_576,
    ;
}

/// A step moves the setting that it is for and no other.
pub proof fn law_step_moves_its_setting_only(e: EditView, f: SettingField, direction: i32)
    ensures
        only_stepped(e, adjusted(e, f, direction), f),
{
}

/// How far a step goes: the port, the slots and the checkpoints by one, the
/// context by 1024 tokens, the prompt cache by 256 MiB, as far as the bounds
/// allow; a batch doubles or halves.
pub proof fn law_steps_go_so_far(e: EditView, d: i32)
    ensures
        ({
            let r = e.config.runtime;
            let p = e.config.server.port;
            &&& 1 <= p + d <= 65_535 ==> adjusted(e, SettingField::Port, d).config.server.port == p
                + d
            &&& 1 <= r.parallel + d <= 64 ==> adjusted(
                e,
                SettingField::Parallel,
                d,
            ).config.runtime.parallel == r.parallel + d
            &&& 0 <= r.context_checkpoints + d <= 256 ==> adjusted(
                e,
                SettingField::Checkpoints,
                d,
            ).config.runtime.context_checkpoints == r.context_checkpoints + d
            &&& 1024 <= r.context_size + d * 1024 <= 1_048_576 ==> adjusted(
                e,
                SettingField::Context,
                d,
            ).config.runtime.context_size == r.context_size + d * 1024
            &&& 0 <= r.cache_ram_mib + d * 256 <= 131_072 ==> adjusted(
                e,
                SettingField::CacheRam,
                d,
            ).config.runtime.cache_ram_mib == r.cache_ram_mib + d * 256
            &&& d > 0 && r.batch_size <= 2048 ==> adjusted(
                e,
                SettingField::Batch,
                d,
            ).config.runtime.batch_size == 2 * r.batch_size
            &&& d <= 0 && r.batch_size >= 2 ==> adjusted(
                e,
                SettingField::Batch,
                d,
            ).config.runtime.batch_size == r.batch_size / 2
            &&& d > 0 && 2 * r.micro_batch_size <= r.batch_size ==> adjusted(
                e,
                SettingField::MicroBatch,
                d,
            ).config.runtime.micro_batch_size == 2 * r.micro_batch_size
            &&& d <= 0 && r.micro_batch_size >= 2 ==> adjusted(
                e,
                SettingField::MicroBatch,
                d,
            ).config.runtime.micro_batch_size == r.micro_batch_size / 2
        }),
{
}

/// A step forward and one back leave the types of the context cache as they were,
/// and a step leads to another type.
pub proof fn law_cache_types_go_round(e: EditView)
    requires
        cache_types().contains(e.config.runtime.cache_type_k),
        cache_types().contains(e.config.runtime.cache_type_v),
    ensures
        ({
            let k = SettingField::CacheTypeK;
            let v = SettingField::CacheTypeV;
            &&& adjusted(adjusted(e, k, 1), k, -1i32 as i32) == e
            &&& adjusted(adjusted(e, v, 1), v, -1i32 as i32) == e
            &&& adjusted(e, k, 1).config.runtime.cache_type_k != e.config.runtime.cache_type_k
            &&& adjusted(e, v, 1).config.runtime.cache_type_v != e.config.runtime.cache_type_v
        }),
{
    lemma_next_and_back(e.config.runtime.cache_type_k);
    lemma_next_and_back(e.config.runtime.cache_type_v);
}

proof fn lemma_next_and_back(t: Text)
    requires
        cache_types().contains(t),
    ensures
        next_cache_type(next_cache_type(t, true), false) == t,
        next_cache_type(t, true) != t,
{
    let all = cache_types();
    lemma_index_in(all, t);
    let i = index_in(all, t);
    let j = (i + 1) % 9;
    assert(next_cache_type(t, true) == all[j]);
    lemma_types_differ();
    lemma_index_in(all, all[j]);
    assert(all.contains(all[j]));
    assert(index_in(all, all[j]) == j);
    assert((j + 8) % 9 == i);
}

proof fn lemma_types_differ()
    ensures
        cache_types().no_duplicates(),
{
    reveal_strlit("f32");
    reveal_strlit("f16");
    reveal_strlit("bf16");
    reveal_strlit("q8_0");
    reveal_strlit("q4_0");
    reveal_strlit("q4_1");
    reveal_strlit("iq4_nl");
    reveal_strlit("q5_0");
    reveal_strlit("q5_1");
    let all = cache_types();
    assert forall|i: int, j: int| 0 <= i < all.len() && 0 <= j < all.len() && i != j implies all[i]
        != all[j] by {
        assert(all[i].len() != all[j].len() || all[i][0] != all[j][0] || all[i][1] != all[j][1]
            || all[i][3] != all[j][3]);
    }
}

} // verus!

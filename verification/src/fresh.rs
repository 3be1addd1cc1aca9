//! Identifiers and secrets made from random bytes.
use vstd::prelude::*;

use crate::text::{
    decimal, hex_fixed, hex_padded, hex_string, hex_text, lemma_hex_text_len, number, texts, Text,
};

verus! {

broadcast use vstd::string::group_string_axioms;

/// How many random bytes an access token holds.
pub const TOKEN_BYTES: usize = 24;

/// How many random bytes an identifier holds.
pub const ID_BYTES: usize = 8;

/// What the caller read off the machine's clock, and its process number.
#[derive(Clone, Copy, Debug, PartialEq, Eq, Structural)]
pub struct Clock {
    pub seconds: u64,
    pub nanos: u128,
    pub pid: u32,
}

/// `getrandom::fill`: fills a buffer with bytes from the system's generator.
/// Of a result only the length is claimed; `None` stands for its error.
#[verifier::external_body]
fn random_bytes(n: usize) -> (r: Option<Vec<u8>>)
    ensures
        r matches Some(v) ==> v.len() == n,
{
    let mut bytes = vec![0u8; n];
    match getrandom::fill(&mut bytes) {
        Ok(()) => Some(bytes),
        Err(_) => None,
    }
}

/// Bytes that the generator may hand out when asked for `n`.
pub open spec fn drawn(b: Option<Seq<u8>>, n: nat) -> bool {
    b matches Some(x) ==> x.len() == n
}

/// The view of drawn bytes.
pub open spec fn bytes_view(b: Option<Vec<u8>>) -> Option<Seq<u8>> {
    match b {
        Some(v) => Some(v@),
        None => None,
    }
}

/// An identifier: the prefix, then the bytes in hexadecimal, or the time where
/// no bytes could be drawn.
pub open spec fn id_text(prefix: Text, b: Option<Seq<u8>>, clock: Clock) -> Text {
    prefix + (match b {
        Some(x) => hex_text(x),
        None => decimal(clock.seconds as nat),
    })
}

/// An identifier made of drawn bytes.
pub fn id_from(prefix: &str, b: &Option<Vec<u8>>, clock: &Clock) -> (out: String)
    ensures
        out@ == id_text(prefix@, bytes_view(*b), *clock),
{
    let mut out = prefix.to_owned();
    match b {
        Some(x) => {
            out.append(hex_string(x).as_str());
        },
        None => {
            out.append(number(clock.seconds).as_str());
        },
    }
    out
}

/// The number that stands in for random bytes when none can be drawn.
pub open spec fn mixed(clock: Clock) -> u128 {
    clock.nanos ^ ((clock.pid as u128) << 64u128) ^ 0x9e37_79b9_7f4a_7c15u128
}

/// An access token: the bytes in hexadecimal, or forty-eight digits of a mix
/// of the time and the process number where no bytes could be drawn.
pub open spec fn token_text(b: Option<Seq<u8>>, clock: Clock) -> Text {
    match b {
        Some(x) => hex_text(x),
        None => hex_padded(mixed(clock) as nat, 48),
    }
}

/// An access token made of drawn bytes.
pub fn access_token_from(b: &Option<Vec<u8>>, clock: &Clock) -> (out: String)
    ensures
        out@ == token_text(bytes_view(*b), *clock),
{
    match b {
        Some(x) => hex_string(x),
        None => {
            let m: u128 = clock.nanos ^ ((clock.pid as u128) << 64u128)
                ^ 0x9e37_79b9_7f4a_7c15u128;
            hex_fixed(m, 48)
        },
    }
}

/// A new access token: at least thirty-two characters whatever was drawn.
pub fn generate_access_token(clock: &Clock) -> (out: String)
    ensures
        exists|b: Option<Seq<u8>>|
            drawn(b, TOKEN_BYTES as nat) && out@ == #[trigger] token_text(b, *clock),
        out@.len() == 48,
{
    let b = random_bytes(TOKEN_BYTES);
    let out = access_token_from(&b, clock);
    proof {
        assert(drawn(bytes_view(b), TOKEN_BYTES as nat));
        match bytes_view(b) {
            Some(x) => lemma_hex_text_len(x),
            None => lemma_padded_len(mixed(*clock) as nat, 48),
        }
    }
    out
}

proof fn lemma_padded_len(n: nat, width: nat)
    ensures
        hex_padded(n, width).len() == width,
    decreases width,
{
    if width > 0 {
        lemma_padded_len(n / 16, (width - 1) as nat);
    }
}

/// A new identifier with the given prefix.
fn generate_id(prefix: &str, clock: &Clock) -> (out: String)
    ensures
        exists|b: Option<Seq<u8>>|
            drawn(b, ID_BYTES as nat) && out@ == #[trigger] id_text(prefix@, b, *clock),
{
    let b = random_bytes(ID_BYTES);
    let out = id_from(prefix, &b, clock);
    proof {
        assert(drawn(bytes_view(b), ID_BYTES as nat));
    }
    out
}

/// The identifier of a new API key.
pub fn generate_key_id(clock: &Clock) -> (out: String)
    ensures
        exists|b: Option<Seq<u8>>|
            drawn(b, ID_BYTES as nat) && out@ == #[trigger] id_text("key-"@, b, *clock),
{
    generate_id("key-", clock)
}

/// The identifier of a new linked LLM.
pub fn generate_remote_id(clock: &Clock) -> (out: String)
    ensures
        exists|b: Option<Seq<u8>>|
            drawn(b, ID_BYTES as nat) && out@ == #[trigger] id_text("remote-"@, b, *clock),
{
    generate_id("remote-", clock)
}

/// The bytes of a new skill's identifier: zeros where none could be drawn.
pub open spec fn or_zeros(b: Option<Seq<u8>>) -> Seq<u8> {
    match b {
        Some(x) => x,
        None => Seq::new(ID_BYTES as nat, |i: int| 0u8),
    }
}

/// The identifier of a new skill.
pub open spec fn skill_id_text(b: Option<Seq<u8>>) -> Text {
    "sk-"@ + hex_text(or_zeros(b))
}

/// The identifier of a new skill.
pub fn generate_skill_id() -> (out: String)
    ensures
        exists|b: Option<Seq<u8>>|
            drawn(b, ID_BYTES as nat) && out@ == #[trigger] skill_id_text(b),
{
    let b = random_bytes(ID_BYTES);
    let ghost seen = bytes_view(b);
    let bytes: Vec<u8> = match b {
        Some(x) => x,
        None => vec![0u8, 0, 0, 0, 0, 0, 0, 0],
    };
    let mut out = "sk-".to_owned();
    out.append(hex_string(&bytes).as_str());
    proof {
        assert(bytes@ =~= or_zeros(seen));
        assert(drawn(seen, ID_BYTES as nat));
        assert(out@ == skill_id_text(seen));
    }
    out
}

/// What one change of the network settings may need: identifiers and a secret
/// that were not used before, and the time.
pub struct Fresh {
    pub key_id: String,
    pub secret: String,
    pub legacy_key_id: String,
    pub remote_id: String,
    pub legacy_remote_id: String,
    pub remote_ids: Vec<String>,
    pub now: u64,
}

/// The view of [`Fresh`].
pub struct FreshView {
    pub key_id: Text,
    pub secret: Text,
    pub legacy_key_id: Text,
    pub remote_id: Text,
    pub legacy_remote_id: Text,
    pub remote_ids: Seq<Text>,
    pub now: u64,
}

impl View for Fresh {
    type V = FreshView;

    open spec fn view(&self) -> FreshView {
        FreshView {
            key_id: self.key_id@,
            secret: self.secret@,
            legacy_key_id: self.legacy_key_id@,
            remote_id: self.remote_id@,
            legacy_remote_id: self.legacy_remote_id@,
            remote_ids: texts(self.remote_ids@),
            now: self.now,
        }
    }
}

/// An identifier that the generator may have made.
pub open spec fn is_id(t: Text, prefix: Text, clock: Clock) -> bool {
    exists|b: Option<Seq<u8>>| drawn(b, ID_BYTES as nat) && t == #[trigger] id_text(prefix, b, clock)
}

impl Fresh {
    /// Draws what a change of settings with `remotes` linked LLMs may need.
    pub fn draw(remotes: usize, clock: &Clock) -> (f: Fresh)
        requires
            remotes < usize::MAX - 4,
        ensures
            f.now == clock.seconds,
            is_id(f@.key_id, "key-"@, *clock),
            is_id(f@.legacy_key_id, "key-"@, *clock),
            is_id(f@.remote_id, "remote-"@, *clock),
            is_id(f@.legacy_remote_id, "remote-"@, *clock),
            f@.remote_ids.len() == remotes + 4,
            forall|i: int|
                0 <= i < f@.remote_ids.len() ==> is_id(#[trigger] f@.remote_ids[i], "remote-"@, *clock),
            exists|b: Option<Seq<u8>>|
                drawn(b, TOKEN_BYTES as nat) && f@.secret == #[trigger] token_text(b, *clock),
    {
        let mut ids: Vec<String> = Vec::new();
        while ids.len() < remotes + 4
            invariant
                remotes < usize::MAX - 4,
                ids.len() <= remotes + 4,
                forall|i: int|
                    0 <= i < ids.len() ==> is_id((#[trigger] ids@[i])@, "remote-"@, *clock),
            decreases remotes + 4 - ids.len(),
        {
            ids.push(generate_remote_id(clock));
        }
        let f = Fresh {
            key_id: generate_key_id(clock),
            secret: generate_access_token(clock),
            legacy_key_id: generate_key_id(clock),
            remote_id: generate_remote_id(clock),
            legacy_remote_id: generate_remote_id(clock),
            remote_ids: ids,
            now: clock.seconds,
        };
        f
    }
}

/// An identifier begins with what it is of; a secret of random bytes has two
/// characters for each.
pub proof fn law_identifiers_tell_their_kind(prefix: Text, b: Option<Seq<u8>>, clock: Clock)
    ensures
        prefix.is_prefix_of(id_text(prefix, b, clock)),
        "sk-"@.is_prefix_of(skill_id_text(b)),
        b matches Some(x) ==> token_text(b, clock).len() == 2 * x.len(),
        b matches Some(x) ==> id_text(prefix, b, clock).len() == prefix.len() + 2 * x.len(),
{
    let t = id_text(prefix, b, clock);
    assert(t.subrange(0, prefix.len() as int) =~= prefix);
    let s = skill_id_text(b);
    assert(s.subrange(0, "sk-"@.len() as int) =~= "sk-"@);
    if let Some(x) = b {
        crate::text::lemma_hex_text_len(x);
    }
}

} // verus!

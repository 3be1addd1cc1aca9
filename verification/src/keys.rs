//! API keys: names, masks, and the list in the network settings.
use vstd::prelude::*;

use crate::fresh::{
    drawn, generate_access_token, generate_key_id, token_text, Clock, Fresh, FreshView, TOKEN_BYTES,
};
use crate::network::{keys, ApiKey, ApiKeyPublic, KeyView, NetworkConfig, NetworkView, MAX_ENTRIES};
use crate::text::{
    byte_len, byte_length, char_is_control, chars_in, chars_in_bytes, chars_of, clip, clipped,
    index_in, is_control, join, joined, lemma_index_in, lemma_trim_idempotent, occurs, occurs_at,
    same, slice, texts, trim, trimmed, utf8_width, words, words_of, Text,
};

verus! {

broadcast use vstd::string::group_string_axioms;

/// `s` with a blank in place of each control character.
pub open spec fn blanked(s: Text) -> Text {
    Seq::new(s.len(), |i: int| if is_control(s[i]) { ' ' } else { s[i] })
}

/// A display name: one blank between words, no control characters, at most
/// sixty-four characters.
pub open spec fn clean_name(s: Text) -> Text {
    clipped(joined(words_of(blanked(s)), seq![' ']), 64)
}

/// Makes a display name fit to store.
pub fn sanitize_key_name(raw: &str) -> (out: String)
    ensures
        out@ == clean_name(raw@),
{
    let v = chars_of(raw);
    let mut b = String::new();
    let mut i: usize = 0;
    while i < v.len()
        invariant
            v@ == raw@,
            i <= v.len(),
            b@ == blanked(raw@).take(i as int),
        decreases v.len() - i,
    {
        if char_is_control(v[i]) {
            b.push(' ');
        } else {
            b.push(v[i]);
        }
        i = i + 1;
        proof {
            assert(b@ =~= blanked(raw@).take(i as int));
        }
    }
    proof {
        assert(blanked(raw@).take(v@.len() as int) =~= blanked(raw@));
        reveal_strlit(" ");
        assert(" "@ =~= seq![' ']);
    }
    clip(join(&words(b.as_str()), " ").as_str(), 64)
}

/// Whether a secret can be shown masked: its first and last four bytes end and
/// begin at characters, or it has eight bytes at most.
pub open spec fn maskable(token: Text) -> bool {
    let t = trimmed(token);
    byte_len(t) <= 8 || (chars_in_bytes(t, 4) is Some && chars_in_bytes(t, byte_len(t) - 4) is Some)
}

/// A secret as it may be shown: nothing of a short one, else its first and
/// last four bytes.
pub open spec fn masked(token: Text) -> Text {
    let t = trimmed(token);
    if t.len() == 0 {
        Seq::empty()
    } else if byte_len(t) <= 8 {
        "••••••••"@
    } else {
        t.take(chars_in_bytes(t, 4)->0) + "…"@ + t.skip(chars_in_bytes(t, byte_len(t) - 4)->0)
    }
}

/// Whether [`mask_token`] may be asked to mask the secret.
pub fn can_mask(token: &str) -> (r: bool)
    ensures
        r == maskable(token@),
{
    let t = trim(token);
    let n: u128 = byte_length(t.as_str());
    if n <= 8 {
        return true;
    }
    match (chars_in(t.as_str(), 4), chars_in(t.as_str(), n - 4)) {
        (Some(_), Some(_)) => true,
        _ => false,
    }
}

/// A secret as it may be shown.
pub fn mask_token(token: &str) -> (out: String)
    requires
        maskable(token@),
    ensures
        out@ == masked(token@),
{
    let t = trim(token);
    if t.as_str().is_empty() {
        return String::new();
    }
    let n: u128 = byte_length(t.as_str());
    if n <= 8 {
        return "••••••••".to_owned();
    }
    let m: usize = t.as_str().unicode_len();
    match (chars_in(t.as_str(), 4), chars_in(t.as_str(), n - 4)) {
        (Some(a), Some(b)) => {
            let mut out = slice(t.as_str(), 0, a);
            let tail = slice(t.as_str(), b, m);
            proof {
                assert(out@ =~= t@.take(a as int));
                assert(tail@ =~= t@.skip(b as int));
            }
            out.append("…");
            out.append(tail.as_str());
            out
        },
        _ => String::new(),
    }
}

impl ApiKey {
    /// A new key: a clean name, and an identifier and a secret of its own.
    pub fn new(name: &str, clock: &Clock) -> (r: ApiKey)
        ensures
            r@.name == clean_name(name@),
            crate::fresh::is_id(r@.id, "key-"@, *clock),
            exists|b: Option<Seq<u8>>|
                drawn(b, TOKEN_BYTES as nat) && r@.secret == #[trigger] token_text(b, *clock),
            r@.secret.len() == 48,
            r@.created_at == clock.seconds,
    {
        ApiKey {
            id: generate_key_id(clock),
            name: sanitize_key_name(name),
            secret: generate_access_token(clock),
            created_at: clock.seconds,
        }
    }

    /// The key with its secret masked.
    pub fn to_public(&self) -> (r: ApiKeyPublic)
        requires
            maskable(self@.secret),
        ensures
            r.id@ == self@.id,
            r.name@ == self@.name,
            r.secret_masked@ == masked(self@.secret),
            r.created_at == self@.created_at,
    {
        ApiKeyPublic {
            id: self.id.clone(),
            name: self.name.clone(),
            secret_masked: mask_token(self.secret.as_str()),
            created_at: self.created_at,
        }
    }
}

/// The identifiers of a list of keys.
pub open spec fn key_ids(k: Seq<KeyView>) -> Seq<Text> {
    Seq::new(k.len(), |i: int| k[i].id)
}

/// The secret of the first key; empty where there is none.
pub open spec fn first_secret(k: Seq<KeyView>) -> Text {
    if k.len() > 0 {
        k[0].secret
    } else {
        Seq::empty()
    }
}

/// The settings with another list of keys; the single token follows the first.
pub open spec fn with_keys(n: NetworkView, k: Seq<KeyView>) -> NetworkView {
    NetworkView { api_keys: k, access_token: first_secret(k), ..n }
}

/// Whether a key has the given secret, white space at the ends aside.
pub open spec fn has_secret(k: Seq<KeyView>, secret: Text) -> bool {
    exists|i: int| 0 <= i < k.len() && trimmed(#[trigger] k[i].secret) == secret
}

/// The settings after the single token of older files became the first key,
/// where no key holds it yet.
pub open spec fn migrated_keys(n: NetworkView, id: Text, now: u64) -> NetworkView {
    let legacy = trimmed(n.access_token);
    if legacy.len() > 0 && !has_secret(n.api_keys, legacy) {
        with_keys(
            n,
            seq![KeyView { id, name: "Default"@, secret: legacy, created_at: now }] + n.api_keys,
        )
    } else {
        with_keys(n, n.api_keys)
    }
}

/// Whether every key can be shown masked.
pub open spec fn all_maskable(k: Seq<KeyView>) -> bool {
    forall|i: int| 0 <= i < k.len() ==> maskable(#[trigger] k[i].secret)
}

/// Whether a list shows the keys with their secrets masked.
pub open spec fn public_keys_are(v: Seq<ApiKeyPublic>, k: Seq<KeyView>) -> bool {
    &&& v.len() == k.len()
    &&& forall|i: int|
        0 <= i < v.len() ==> (#[trigger] v[i]).id@ == k[i].id && v[i].name@ == k[i].name
            && v[i].secret_masked@ == masked(k[i].secret) && v[i].created_at == k[i].created_at
}

/// Where every key can be shown masked, so can each secret that the server
/// accepts.
pub proof fn lemma_secrets_maskable(k: Seq<KeyView>)
    requires
        all_maskable(k),
    ensures
        forall|i: int| 0 <= i < secrets_of(k).len() ==> maskable(#[trigger] secrets_of(k)[i]),
    decreases k.len(),
{
    if k.len() > 0 {
        assert forall|i: int| 0 <= i < k.drop_last().len() implies maskable(
            #[trigger] k.drop_last()[i].secret,
        ) by {
            assert(maskable(k[i].secret));
        }
        lemma_secrets_maskable(k.drop_last());
        lemma_trim_idempotent(k.last().secret);
        assert(maskable(k[k.len() - 1].secret));
        assert(maskable(trimmed(k.last().secret)));
        let init = secrets_of(k.drop_last());
        assert forall|i: int| 0 <= i < secrets_of(k).len() implies maskable(
            #[trigger] secrets_of(k)[i],
        ) by {
            if i < init.len() {
                assert(secrets_of(k)[i] == init[i]);
            }
        }
    }
}

/// The secrets that the server accepts: trimmed, without the empty ones.
pub open spec fn secrets_of(k: Seq<KeyView>) -> Seq<Text>
    decreases k.len(),
{
    if k.len() == 0 {
        Seq::empty()
    } else {
        let init = secrets_of(k.drop_last());
        let s = trimmed(k.last().secret);
        if s.len() > 0 {
            init.push(s)
        } else {
            init
        }
    }
}

/// The keys without those of one identifier.
pub open spec fn keys_without(k: Seq<KeyView>, id: Text) -> Seq<KeyView>
    decreases k.len(),
{
    if k.len() == 0 {
        Seq::empty()
    } else {
        let init = keys_without(k.drop_last(), id);
        if k.last().id == id {
            init
        } else {
            init.push(k.last())
        }
    }
}

/// The settings after a key was renewed: the secret of the first key of that
/// identifier, and the single token where it is the first of all.
pub open spec fn with_renewed(n: NetworkView, id: Text, secret: Text, now: u64) -> NetworkView {
    let i = index_in(key_ids(n.api_keys), id);
    let key = KeyView { secret, created_at: now, ..n.api_keys[i] };
    NetworkView {
        api_keys: n.api_keys.update(i, key),
        access_token: if i == 0 {
            secret
        } else {
            n.access_token
        },
        ..n
    }
}

/// Why a change of the keys is refused.
pub open spec fn create_key_error(n: NetworkView, name: Text) -> Option<Text> {
    if clean_name(name).len() == 0 {
        Some("Give the API key a name."@)
    } else if n.api_keys.len() >= MAX_ENTRIES {
        Some("Maximum of 32 API keys reached."@)
    } else {
        None
    }
}

/// Why a key cannot be removed.
pub open spec fn delete_key_error(n: NetworkView, id: Text) -> Option<Text> {
    if !key_ids(n.api_keys).contains(id) {
        Some("API key not found."@)
    } else if n.expose && n.api_keys.len() <= 1 {
        Some("Keep at least one API key while sharing is enabled."@)
    } else {
        None
    }
}

/// Why a key cannot be renamed.
pub open spec fn rename_key_error(n: NetworkView, id: Text, name: Text) -> Option<Text> {
    if clean_name(name).len() == 0 {
        Some("Give the API key a name."@)
    } else if !key_ids(n.api_keys).contains(id) {
        Some("API key not found."@)
    } else {
        None
    }
}

/// The settings after a key got another name: the first key of that identifier.
pub open spec fn with_renamed(n: NetworkView, id: Text, name: Text) -> NetworkView {
    let i = index_in(key_ids(n.api_keys), id);
    NetworkView {
        api_keys: n.api_keys.update(i, KeyView { name: clean_name(name), ..n.api_keys[i] }),
        ..n
    }
}

/// A new key: a clean name, and a fresh identifier and secret.
pub open spec fn new_key(name: Text, fresh: FreshView) -> KeyView {
    KeyView { id: fresh.key_id, name: clean_name(name), secret: fresh.secret, created_at: fresh.now }
}

/// The key that a request to create one adds. The name is cleaned before the
/// key is made: a blank that cutting the name left at its end goes too.
pub open spec fn created_key(name: Text, fresh: FreshView) -> KeyView {
    new_key(clean_name(name), fresh)
}

/// The first key of an identifier.
pub fn find_key(v: &Vec<ApiKey>, id: &str) -> (r: Option<usize>)
    ensures
        match r {
            Some(i) => i == index_in(key_ids(keys(v@)), id@) && i < v.len(),
            None => !key_ids(keys(v@)).contains(id@),
        },
{
    let ghost ids = key_ids(keys(v@));
    proof {
        lemma_index_in(ids, id@);
    }
    let mut i: usize = 0;
    while i < v.len()
        invariant
            i <= v.len(),
            ids == key_ids(keys(v@)),
            forall|j: int| 0 <= j < i ==> ids[j] != id@,
            0 <= index_in(ids, id@) <= ids.len(),
            index_in(ids, id@) < ids.len() ==> ids[index_in(ids, id@)] == id@,
            forall|j: int| 0 <= j < index_in(ids, id@) ==> ids[j] != id@,
        decreases v.len() - i,
    {
        proof {
            assert(ids[i as int] == v@[i as int].id@);
        }
        if same(v[i].id.as_str(), id) {
            return Some(i);
        }
        i = i + 1;
    }
    None
}

impl NetworkConfig {
    fn follow_first_key(&mut self)
        ensures
            final(self)@ == with_keys(old(self)@, old(self)@.api_keys),
            final(self).api_keys == old(self).api_keys,
    {
        if self.api_keys.len() > 0 {
            self.access_token = self.api_keys[0].secret.clone();
        } else {
            self.access_token = String::new();
        }
    }

    /// Moves the single token of older settings files into the keys, under an
    /// identifier not used before.
    pub fn migrate_api_keys(&mut self, fresh: &Fresh)
        ensures
            final(self)@ == migrated_keys(old(self)@, fresh@.legacy_key_id, fresh@.now),
    {
        let legacy = trim(self.access_token.as_str());
        let mut found: bool = false;
        let mut i: usize = 0;
        let ghost k = keys(self.api_keys@);
        while i < self.api_keys.len()
            invariant
                i <= self.api_keys.len(),
                *self == *old(self),
                k == keys(self.api_keys@),
                found ==> has_secret(k, legacy@),
                !found ==> forall|j: int| 0 <= j < i ==> trimmed(#[trigger] k[j].secret) != legacy@,
            decreases self.api_keys.len() - i,
        {
            let s = trim(self.api_keys[i].secret.as_str());
            proof {
                assert(k[i as int].secret == self.api_keys@[i as int].secret@);
            }
            if same(s.as_str(), legacy.as_str()) {
                found = true;
            }
            i = i + 1;
        }
        if !legacy.as_str().is_empty() && !found {
            let key = ApiKey {
                id: fresh.legacy_key_id.clone(),
                name: "Default".to_owned(),
                secret: legacy,
                created_at: fresh.now,
            };
            let ghost kv = key@;
            self.api_keys.insert(0, key);
            proof {
                assert(keys(self.api_keys@) =~= seq![kv] + k);
            }
        }
        self.follow_first_key();
    }

    /// Makes sure that there is a key, and says whether one had to be made.
    pub fn ensure_token(&mut self, fresh: &Fresh) -> (created: bool)
        ensures
            ({
                let m = migrated_keys(old(self)@, fresh@.legacy_key_id, fresh@.now);
                &&& created == (m.api_keys.len() == 0)
                &&& final(self)@ == ensured(old(self)@, fresh@)
            }),
    {
        self.migrate_api_keys(fresh);
        if self.api_keys.len() == 0 {
            let name = sanitize_key_name("Default");
            let key = ApiKey {
                id: fresh.key_id.clone(),
                name,
                secret: fresh.secret.clone(),
                created_at: fresh.now,
            };
            self.access_token = key.secret.clone();
            self.api_keys.push(key);
            proof {
                assert(keys(self.api_keys@) =~= seq![new_key("Default"@, fresh@)]);
            }
            true
        } else {
            false
        }
    }

    /// Renews the first key, or makes one where there is none.
    pub fn regenerate_token(&mut self, fresh: &Fresh)
        ensures
            final(self)@ == regenerated(old(self)@, fresh@),
    {
        self.migrate_api_keys(fresh);
        let ghost m = self@;
        if self.api_keys.len() > 0 {
            let key = ApiKey {
                id: self.api_keys[0].id.clone(),
                name: self.api_keys[0].name.clone(),
                secret: fresh.secret.clone(),
                created_at: fresh.now,
            };
            self.access_token = fresh.secret.clone();
            self.api_keys.set(0, key);
            proof {
                assert(keys(self.api_keys@) =~= m.api_keys.update(
                    0,
                    KeyView { secret: fresh@.secret, created_at: fresh@.now, ..m.api_keys[0] },
                ));
            }
        } else {
            proof {
                assert(m.api_keys.len() == 0);
                assert(trimmed(Seq::<char>::empty()) =~= Seq::<char>::empty());
                assert(migrated_keys(m, fresh@.legacy_key_id, fresh@.now) == m);
            }
            let _ = self.ensure_token(fresh);
        }
    }

    /// The secrets that the server accepts.
    pub fn api_key_secrets(&self) -> (out: Vec<String>)
        ensures
            texts(out@) == secrets_of(self@.api_keys),
    {
        let mut out: Vec<String> = Vec::new();
        let ghost k = keys(self.api_keys@);
        let mut i: usize = 0;
        proof {
            assert(texts(out@) =~= secrets_of(k.take(0)));
        }
        while i < self.api_keys.len()
            invariant
                i <= self.api_keys.len(),
                k == keys(self.api_keys@),
                texts(out@) == secrets_of(k.take(i as int)),
            decreases self.api_keys.len() - i,
        {
            let s = trim(self.api_keys[i].secret.as_str());
            let ghost was = texts(out@);
            proof {
                assert(k.take(i + 1).drop_last() =~= k.take(i as int));
                assert(k.take(i + 1).last() == self.api_keys@[i as int]@);
            }
            if !s.as_str().is_empty() {
                let ghost sv = s@;
                out.push(s);
                proof {
                    assert(texts(out@) =~= was.push(sv));
                }
            }
            i = i + 1;
        }
        proof {
            assert(k.take(k.len() as int) =~= k);
        }
        out
    }

    /// The first secret that the server accepts.
    pub fn primary_api_key(&self) -> (r: Option<String>)
        ensures
            match r {
                Some(s) => secrets_of(self@.api_keys).len() > 0 && s@ == secrets_of(
                    self@.api_keys,
                )[0],
                None => secrets_of(self@.api_keys).len() == 0,
            },
    {
        let all = self.api_key_secrets();
        if all.len() > 0 {
            proof {
                assert(texts(all@)[0] == all@[0]@);
            }
            Some(all[0].clone())
        } else {
            proof {
                assert(texts(all@).len() == 0);
            }
            None
        }
    }

    /// The keys with their secrets masked.
    pub fn public_api_keys(&self) -> (out: Vec<ApiKeyPublic>)
        requires
            all_maskable(self@.api_keys),
        ensures
            public_keys_are(out@, self@.api_keys),
    {
        let mut out: Vec<ApiKeyPublic> = Vec::new();
        let mut i: usize = 0;
        while i < self.api_keys.len()
            invariant
                i <= self.api_keys.len(),
                out.len() == i,
                forall|j: int|
                    0 <= j < self@.api_keys.len() ==> maskable(#[trigger] self@.api_keys[j].secret),
                forall|j: int|
                    0 <= j < i ==> (#[trigger] out@[j]).id@ == self@.api_keys[j].id
                        && out@[j].name@ == self@.api_keys[j].name && out@[j].secret_masked@
                        == masked(self@.api_keys[j].secret) && out@[j].created_at
                        == self@.api_keys[j].created_at,
            decreases self.api_keys.len() - i,
        {
            proof {
                assert(self@.api_keys[i as int] == self.api_keys@[i as int]@);
                assert(maskable(self@.api_keys[i as int].secret));
            }
            out.push(self.api_keys[i].to_public());
            i = i + 1;
        }
        out
    }

    /// Adds a key with a name of the user's.
    pub fn create_api_key(&mut self, name: &str, fresh: &Fresh) -> (r: Result<ApiKey, String>)
        ensures
            ({
                let m = migrated_keys(old(self)@, fresh@.legacy_key_id, fresh@.now);
                match create_key_error(m, name@) {
                    Some(e) => r matches Err(got) && got@ == e && final(self)@ == m,
                    None => r matches Ok(key) && key@ == created_key(name@, fresh@)
                        && final(self)@ == with_keys(
                        m,
                        m.api_keys.push(created_key(name@, fresh@)),
                    ),
                }
            }),
    {
        self.migrate_api_keys(fresh);
        let ghost m = self@;
        let cleaned = sanitize_key_name(name);
        if cleaned.as_str().is_empty() {
            return Err("Give the API key a name.".to_owned());
        }
        if self.api_keys.len() >= MAX_ENTRIES {
            return Err("Maximum of 32 API keys reached.".to_owned());
        }
        let key = ApiKey {
            id: fresh.key_id.clone(),
            name: sanitize_key_name(cleaned.as_str()),
            secret: fresh.secret.clone(),
            created_at: fresh.now,
        };
        let copy = key.clone();
        self.api_keys.push(key);
        proof {
            assert(keys(self.api_keys@) =~= m.api_keys.push(created_key(name@, fresh@)));
        }
        self.follow_first_key();
        Ok(copy)
    }

    /// Gives a key another name.
    pub fn rename_api_key(&mut self, id: &str, name: &str) -> (r: Result<(), String>)
        ensures
            match rename_key_error(old(self)@, id@, name@) {
                Some(e) => r matches Err(got) && got@ == e && final(self)@ == old(self)@,
                None => r is Ok && final(self)@ == ({
                    let i = index_in(key_ids(old(self)@.api_keys), id@);
                    NetworkView {
                        api_keys: old(self)@.api_keys.update(
                            i,
                            KeyView { name: clean_name(name@), ..old(self)@.api_keys[i] },
                        ),
                        ..old(self)@
                    }
                }),
            },
            r is Ok ==> final(self)@ == with_renamed(old(self)@, id@, name@),
    {
        let cleaned = sanitize_key_name(name);
        if cleaned.as_str().is_empty() {
            return Err("Give the API key a name.".to_owned());
        }
        let ghost k = self@.api_keys;
        match find_key(&self.api_keys, id) {
            None => Err("API key not found.".to_owned()),
            Some(i) => {
                proof {
                    lemma_index_in(key_ids(k), id@);
                }
                let key = ApiKey {
                    id: self.api_keys[i].id.clone(),
                    name: cleaned,
                    secret: self.api_keys[i].secret.clone(),
                    created_at: self.api_keys[i].created_at,
                };
                self.api_keys.set(i, key);
                proof {
                    assert(keys(self.api_keys@) =~= k.update(
                        i as int,
                        KeyView { name: clean_name(name@), ..k[i as int] },
                    ));
                }
                Ok(())
            },
        }
    }

    /// Gives a key another secret.
    pub fn regenerate_api_key(&mut self, id: &str, fresh: &Fresh) -> (r: Result<ApiKey, String>)
        ensures
            if key_ids(old(self)@.api_keys).contains(id@) {
                let want = with_renewed(old(self)@, id@, fresh@.secret, fresh@.now);
                &&& final(self)@ == want
                &&& r matches Ok(key)
                &&& key@ == want.api_keys[index_in(key_ids(old(self)@.api_keys), id@)]
            } else {
                &&& r matches Err(e)
                &&& e@ == "API key not found."@
                &&& final(self)@ == old(self)@
            },
    {
        let ghost k = self@.api_keys;
        match find_key(&self.api_keys, id) {
            None => Err("API key not found.".to_owned()),
            Some(i) => {
                proof {
                    lemma_index_in(key_ids(k), id@);
                }
                let key = ApiKey {
                    id: self.api_keys[i].id.clone(),
                    name: self.api_keys[i].name.clone(),
                    secret: fresh.secret.clone(),
                    created_at: fresh.now,
                };
                let copy = key.clone();
                if i == 0 {
                    self.access_token = fresh.secret.clone();
                }
                self.api_keys.set(i, key);
                proof {
                    assert(keys(self.api_keys@) =~= k.update(
                        i as int,
                        KeyView { secret: fresh@.secret, created_at: fresh@.now, ..k[i as int] },
                    ));
                }
                Ok(copy)
            },
        }
    }

    /// Removes a key; the last one stays while sharing is on.
    pub fn delete_api_key(&mut self, id: &str) -> (r: Result<(), String>)
        ensures
            match delete_key_error(old(self)@, id@) {
                Some(e) => r matches Err(got) && got@ == e && final(self)@ == old(self)@,
                None => r is Ok && final(self)@ == with_keys(
                    old(self)@,
                    keys_without(old(self)@.api_keys, id@),
                ),
            },
    {
        let ghost k = self@.api_keys;
        if find_key(&self.api_keys, id).is_none() {
            return Err("API key not found.".to_owned());
        }
        proof {
            lemma_index_in(key_ids(k), id@);
        }
        if self.expose && self.api_keys.len() <= 1 {
            return Err("Keep at least one API key while sharing is enabled.".to_owned());
        }
        let mut kept: Vec<ApiKey> = Vec::new();
        let mut i: usize = 0;
        proof {
            assert(keys(kept@) =~= keys_without(k.take(0), id@));
        }
        while i < self.api_keys.len()
            invariant
                i <= self.api_keys.len(),
                *self == *old(self),
                k == keys(self.api_keys@),
                keys(kept@) == keys_without(k.take(i as int), id@),
            decreases self.api_keys.len() - i,
        {
            let ghost was = keys(kept@);
            proof {
                assert(k.take(i + 1).drop_last() =~= k.take(i as int));
                assert(k.take(i + 1).last() == self.api_keys@[i as int]@);
            }
            if !same(self.api_keys[i].id.as_str(), id) {
                kept.push(self.api_keys[i].clone());
                proof {
                    assert(keys(kept@) =~= was.push(k[i as int]));
                }
            }
            i = i + 1;
        }
        proof {
            assert(k.take(k.len() as int) =~= k);
        }
        self.api_keys = kept;
        self.follow_first_key();
        Ok(())
    }
}

/// The settings once there is a key.
pub open spec fn ensured(n: NetworkView, fresh: FreshView) -> NetworkView {
    let m = migrated_keys(n, fresh.legacy_key_id, fresh.now);
    if m.api_keys.len() == 0 {
        with_keys(m, seq![new_key("Default"@, fresh)])
    } else {
        m
    }
}

/// The settings after the first key was renewed or made.
pub open spec fn regenerated(n: NetworkView, fresh: FreshView) -> NetworkView {
    let m = migrated_keys(n, fresh.legacy_key_id, fresh.now);
    if m.api_keys.len() > 0 {
        with_keys(
            m,
            m.api_keys.update(
                0,
                KeyView { secret: fresh.secret, created_at: fresh.now, ..m.api_keys[0] },
            ),
        )
    } else {
        ensured(n, fresh)
    }
}

/// Moving the single token into the keys twice is moving it once.
pub proof fn law_migrate_keys_once(n: NetworkView, a: Text, b: Text, t: u64, u: u64)
    ensures
        migrated_keys(migrated_keys(n, a, t), b, u) == migrated_keys(n, a, t),
{
    let m = migrated_keys(n, a, t);
    let legacy = trimmed(m.access_token);
    if legacy.len() > 0 {
        if m.api_keys.len() > 0 {
            assert(trimmed(m.api_keys[0].secret) == legacy);
            assert(has_secret(m.api_keys, legacy));
        } else {
            assert(trimmed(Seq::<char>::empty()) =~= Seq::<char>::empty());
        }
    }
}

/// While sharing is on, no removal leaves the settings without a key.
pub proof fn law_sharing_keeps_a_key(n: NetworkView, id: Text)
    requires
        n.expose,
        n.api_keys.len() >= 1,
        delete_key_error(n, id) is None,
        forall|i: int, j: int|
            0 <= i < j < n.api_keys.len() ==> #[trigger] n.api_keys[i].id != #[trigger] n.api_keys[j].id,
    ensures
        keys_without(n.api_keys, id).len() == n.api_keys.len() - 1,
        keys_without(n.api_keys, id).len() >= 1,
{
    lemma_index_in(key_ids(n.api_keys), id);
    lemma_without_one(n.api_keys, id, index_in(key_ids(n.api_keys), id));
}

proof fn lemma_without_none(k: Seq<KeyView>, id: Text)
    requires
        forall|i: int| 0 <= i < k.len() ==> #[trigger] k[i].id != id,
    ensures
        keys_without(k, id) == k,
    decreases k.len(),
{
    if k.len() > 0 {
        lemma_without_none(k.drop_last(), id);
        assert(k.drop_last().push(k.last()) =~= k);
    } else {
        assert(keys_without(k, id) =~= k);
    }
}

proof fn lemma_without_one(k: Seq<KeyView>, id: Text, p: int)
    requires
        0 <= p < k.len(),
        k[p].id == id,
        forall|i: int| 0 <= i < k.len() && i != p ==> #[trigger] k[i].id != id,
    ensures
        keys_without(k, id).len() == k.len() - 1,
    decreases k.len(),
{
    if p == k.len() - 1 {
        lemma_without_none(k.drop_last(), id);
    } else {
        lemma_without_one(k.drop_last(), id, p);
    }
}

/// A key that was created is found under its identifier and can be removed
/// again, which leaves the keys as they were.
pub proof fn law_create_then_delete(n: NetworkView, name: Text, fresh: FreshView)
    requires
        create_key_error(n, name) is None,
        !n.expose || n.api_keys.len() >= 1,
        !key_ids(n.api_keys).contains(fresh.key_id),
    ensures
        ({
            let after = with_keys(n, n.api_keys.push(created_key(name, fresh)));
            &&& delete_key_error(after, fresh.key_id) is None
            &&& keys_without(after.api_keys, fresh.key_id) == n.api_keys
        }),
{
    let k = n.api_keys.push(created_key(name, fresh));
    let after = with_keys(n, k);
    assert(key_ids(k)[k.len() - 1] == fresh.key_id);
    assert forall|i: int| 0 <= i < n.api_keys.len() implies #[trigger] n.api_keys[i].id
        != fresh.key_id by {
        assert(key_ids(n.api_keys)[i] == n.api_keys[i].id);
    }
    lemma_without_none(n.api_keys, fresh.key_id);
    assert(k.drop_last() =~= n.api_keys);
}

proof fn lemma_leading_bytes(s: Text, n: int)
    requires
        chars_in_bytes(s, n) is Some,
    ensures
        0 <= chars_in_bytes(s, n)->0 <= s.len(),
        byte_len(s.take(chars_in_bytes(s, n)->0)) == n,
    decreases s.len(),
{
    if n == 0 {
        assert(s.take(0) =~= Seq::<char>::empty());
    } else {
        let rest = s.drop_first();
        let m = n - utf8_width(s[0]);
        lemma_leading_bytes(rest, m);
        let k = chars_in_bytes(rest, m)->0;
        lemma_bytes_after(s[0], rest.take(k));
        assert(seq![s[0]] + rest.take(k) =~= s.take(k + 1));
    }
}

proof fn lemma_bytes_after(c: char, s: Text)
    ensures
        byte_len(seq![c] + s) == utf8_width(c) + byte_len(s),
    decreases s.len(),
{
    let all = seq![c] + s;
    if s.len() == 0 {
        assert(all.drop_last() =~= Seq::<char>::empty());
        assert(all.last() == c);
        assert(byte_len(all.drop_last()) == 0);
    } else {
        assert(all.drop_last() =~= seq![c] + s.drop_last());
        lemma_bytes_after(c, s.drop_last());
    }
}

/// A masked secret never shows the whole secret, so long as the secret holds
/// none of the marks that stand for what is hidden.
pub proof fn law_masked_is_hidden(token: Text)
    requires
        maskable(token),
        trimmed(token).len() > 0,
        !trimmed(token).contains('•'),
        !trimmed(token).contains('…'),
    ensures
        !occurs(masked(token), trimmed(token)),
{
    let t = trimmed(token);
    let m = masked(token);
    reveal_strlit("••••••••");
    reveal_strlit("…");
    if byte_len(t) <= 8 {
        assert forall|i: int| !occurs_at(m, t, i) by {
            if occurs_at(m, t, i) {
                assert(m.subrange(i, i + t.len())[0] == m[i]);
                assert(t[0] == '•');
            }
        }
    } else {
        let a = chars_in_bytes(t, 4)->0;
        let b = chars_in_bytes(t, byte_len(t) - 4)->0;
        lemma_leading_bytes(t, 4);
        lemma_leading_bytes(t, byte_len(t) - 4);
        assert(t.take(t.len() as int) =~= t);
        assert(t.take(0) =~= Seq::<char>::empty());
        assert(a < t.len() && b > 0);
        assert forall|i: int| !occurs_at(m, t, i) by {
            if occurs_at(m, t, i) {
                let at = m.subrange(i, i + t.len());
                if i <= a && a < i + t.len() {
                    assert(at[a - i] == m[a]);
                    assert(m[a] == '…');
                    assert(t[a - i] == '…');
                }
            }
        }
    }
}

proof fn lemma_first_of(k: Seq<KeyView>, id: Text, i: int)
    requires
        0 <= i < k.len(),
        k[i].id == id,
        forall|j: int| 0 <= j < i ==> (#[trigger] k[j]).id != id,
    ensures
        index_in(key_ids(k), id) == i,
{
    let ids = key_ids(k);
    lemma_index_in(ids, id);
    assert(ids[i] == id);
    let p = index_in(ids, id);
    if p < i {
        assert(ids[p] == k[p].id);
    }
}

/// Renaming a key gives that key its new name, and changes nothing else of it and
/// no other key.
pub proof fn law_rename_touches_one_name(n: NetworkView, i: int, name: Text)
    requires
        0 <= i < n.api_keys.len(),
        forall|j: int| 0 <= j < i ==> (#[trigger] n.api_keys[j]).id != n.api_keys[i].id,
    ensures
        ({
            let m = with_renamed(n, n.api_keys[i].id, name);
            &&& m.api_keys.len() == n.api_keys.len()
            &&& m.api_keys[i].name == clean_name(name)
            &&& m.api_keys[i].id == n.api_keys[i].id
            &&& m.api_keys[i].secret == n.api_keys[i].secret
            &&& m.api_keys[i].created_at == n.api_keys[i].created_at
            &&& forall|j: int|
                0 <= j < n.api_keys.len() && j != i ==> #[trigger] m.api_keys[j] == n.api_keys[j]
            &&& m.access_token == n.access_token
            &&& m.expose == n.expose
            &&& m.remotes == n.remotes
        }),
{
    lemma_first_of(n.api_keys, n.api_keys[i].id, i);
}

/// Renewing a key gives that key the fresh secret and its time, and changes
/// nothing else of it and no other key; the single token follows the first key.
pub proof fn law_renewal_touches_one_secret(n: NetworkView, i: int, secret: Text, now: u64)
    requires
        0 <= i < n.api_keys.len(),
        forall|j: int| 0 <= j < i ==> (#[trigger] n.api_keys[j]).id != n.api_keys[i].id,
    ensures
        ({
            let m = with_renewed(n, n.api_keys[i].id, secret, now);
            &&& m.api_keys.len() == n.api_keys.len()
            &&& m.api_keys[i].secret == secret
            &&& m.api_keys[i].created_at == now
            &&& m.api_keys[i].id == n.api_keys[i].id
            &&& m.api_keys[i].name == n.api_keys[i].name
            &&& forall|j: int|
                0 <= j < n.api_keys.len() && j != i ==> #[trigger] m.api_keys[j] == n.api_keys[j]
            &&& n.access_token == n.api_keys[0].secret ==> m.access_token == m.api_keys[0].secret
            &&& m.expose == n.expose
            &&& m.remotes == n.remotes
        }),
{
    lemma_first_of(n.api_keys, n.api_keys[i].id, i);
}

/// A new key has the fresh identifier, the fresh secret and the time of its
/// making, and it is put behind the keys that there are.
pub proof fn law_created_key_is_fresh(n: NetworkView, name: Text, fresh: FreshView)
    ensures
        ({
            let m = with_keys(n, n.api_keys.push(created_key(name, fresh)));
            let key = m.api_keys.last();
            &&& m.api_keys.len() == n.api_keys.len() + 1
            &&& key.id == fresh.key_id
            &&& key.secret == fresh.secret
            &&& key.created_at == fresh.now
            &&& forall|j: int| 0 <= j < n.api_keys.len() ==> #[trigger] m.api_keys[j] == n.api_keys[j]
            &&& m.access_token == m.api_keys[0].secret
        }),
{
}

/// A key that was removed is gone, and every other key stays, in its order.
pub proof fn law_removed_key_is_gone(k: Seq<KeyView>, id: Text)
    ensures
        forall|j: int| 0 <= j < keys_without(k, id).len() ==> (#[trigger] keys_without(k, id)[j]).id
            != id && k.contains(keys_without(k, id)[j]),
        forall|j: int|
            0 <= j < k.len() && (#[trigger] k[j]).id != id ==> keys_without(k, id).contains(k[j]),
        forall|a: KeyView, b: KeyView|
            #![trigger before_in(keys_without(k, id), a, b)]
            before_in(keys_without(k, id), a, b) ==> before_in(k, a, b),
    decreases k.len(),
{
    if k.len() > 0 {
        let init = k.drop_last();
        let w = keys_without(init, id);
        let all = keys_without(k, id);
        law_removed_key_is_gone(init, id);
        assert forall|j: int| 0 <= j < all.len() implies (#[trigger] all[j]).id != id && k.contains(
            all[j],
        ) by {
            if j < w.len() {
                assert(all[j] == w[j]);
                assert(init.contains(w[j]));
                let p = choose|p: int| 0 <= p < init.len() && init[p] == w[j];
                assert(k[p] == w[j]);
            } else {
                assert(k[k.len() - 1] == all[j]);
            }
        }
        assert forall|j: int| 0 <= j < k.len() && (#[trigger] k[j]).id != id implies all.contains(
            k[j],
        ) by {
            if j < init.len() {
                assert(init[j] == k[j]);
                assert(w.contains(k[j]));
                let p = choose|p: int| 0 <= p < w.len() && w[p] == k[j];
                assert(all[p] == k[j]);
            } else {
                assert(all[all.len() - 1] == k[j]);
            }
        }
        assert forall|a: KeyView, b: KeyView|
            #![trigger before_in(all, a, b)]
            before_in(all, a, b) implies before_in(k, a, b) by {
            let (i, j) = choose|i: int, j: int|
                0 <= i < j < all.len() && #[trigger] all[i] == a && #[trigger] all[j] == b;
            if j < w.len() {
                assert(w[i] == a && w[j] == b);
                assert(before_in(w, a, b));
                assert(before_in(init, a, b));
                let (x, y) = choose|x: int, y: int|
                    0 <= x < y < init.len() && #[trigger] init[x] == a && #[trigger] init[y] == b;
                assert(k[x] == a && k[y] == b);
            } else {
                assert(w[i] == a);
                assert(init.contains(w[i]));
                let x = choose|x: int| 0 <= x < init.len() && init[x] == a;
                assert(k[x] == a && k[k.len() - 1] == b);
            }
        }
    }
}

/// Whether one key stands before another in a list.
pub open spec fn before_in(k: Seq<KeyView>, a: KeyView, b: KeyView) -> bool {
    exists|i: int, j: int| 0 <= i < j < k.len() && #[trigger] k[i] == a && #[trigger] k[j] == b
}

/// The server accepts the secret of every key that holds one, and no other text.
pub proof fn law_every_key_opens(k: Seq<KeyView>, t: Text)
    ensures
        secrets_of(k).contains(t) <==> t.len() > 0 && exists|i: int|
            0 <= i < k.len() && trimmed(#[trigger] k[i].secret) == t,
    decreases k.len(),
{
    let all = secrets_of(k);
    if k.len() > 0 {
        let init = k.drop_last();
        let w = secrets_of(init);
        law_every_key_opens(init, t);
        if all.contains(t) {
            let p = choose|p: int| 0 <= p < all.len() && all[p] == t;
            if p < w.len() {
                assert(w[p] == t);
                assert(w.contains(t));
                let i = choose|i: int| 0 <= i < init.len() && trimmed(#[trigger] init[i].secret) == t;
                assert(trimmed(k[i].secret) == t);
            } else {
                assert(trimmed(k[k.len() - 1].secret) == t);
            }
        }
        if t.len() > 0 && exists|i: int| 0 <= i < k.len() && trimmed(#[trigger] k[i].secret) == t {
            let i = choose|i: int| 0 <= i < k.len() && trimmed(#[trigger] k[i].secret) == t;
            if i < init.len() {
                assert(trimmed(init[i].secret) == t);
                let p = choose|p: int| 0 <= p < w.len() && w[p] == t;
                assert(all[p] == t);
            } else {
                assert(all[all.len() - 1] == t);
            }
        }
    }
}

} // verus!

//! The store of OAuth tokens of MCP servers: tokens are kept under a key
//! derived from the server's name and URL, ordered by key, and an access
//! token is handed out only while it is not about to expire. Reading and
//! writing the store file, and reading the clock, are left to the caller.
use vstd::prelude::*;

use sha2::Digest;

use crate::order::{lemma_seq_lt_asym, lemma_seq_lt_irrefl, lemma_seq_lt_total, lemma_seq_lt_trans, seq_lt};
use crate::text::{clone_string, opt_view};

verus! {

/// Milliseconds before expiry from which a token counts as expired.
pub const REFRESH_SKEW_MILLIS: u64 = 30_000;

/// Name of the token store file in the code home.
pub const STORE_FILE_NAME: &'static str = ".mcp-oauth.json";

/// What `format!("{:x}", Sha256::digest(bytes))` gives: the SHA-256
/// digest of the bytes in lowercase hexadecimal.
pub uninterp spec fn sha256_hex(bytes: Seq<u8>) -> Seq<char>;

/// Hashes bytes with `sha2::Sha256::digest` and writes the digest in
/// lowercase hexadecimal. The result is a function of the bytes, named
/// `sha256_hex`; its text is not stated here.
#[verifier::external_body]
fn sha256_hex_of(bytes: &[u8]) -> (r: String)
    ensures
        r@ == sha256_hex(bytes@),
{
    format!("{:x}", sha2::Sha256::digest(bytes))
}

/// Tokens stored for one MCP server.
#[derive(Debug, Clone, PartialEq, Eq)]
pub struct StoredOAuthTokens {
    pub server_name: String,
    pub url: String,
    pub client_id: String,
    pub access_token: String,
    pub expires_at: Option<u64>,
}

/// Content of stored tokens.
pub struct TokensView {
    pub server_name: Seq<char>,
    pub url: Seq<char>,
    pub client_id: Seq<char>,
    pub access_token: Seq<char>,
    pub expires_at: Option<u64>,
}

impl View for StoredOAuthTokens {
    type V = TokensView;

    open spec fn view(&self) -> TokensView {
        TokensView {
            server_name: self.server_name@,
            url: self.url@,
            client_id: self.client_id@,
            access_token: self.access_token@,
            expires_at: self.expires_at,
        }
    }
}

/// Copies stored tokens.
pub fn clone_tokens(t: &StoredOAuthTokens) -> (r: StoredOAuthTokens)
    ensures
        r@ == t@,
{
    StoredOAuthTokens {
        server_name: clone_string(&t.server_name),
        url: clone_string(&t.url),
        client_id: clone_string(&t.client_id),
        access_token: clone_string(&t.access_token),
        expires_at: t.expires_at,
    }
}

/// The key of a server's tokens: the SHA-256 digest, in hexadecimal, of
/// its name, a newline and its URL.
pub open spec fn store_key(server_name: Seq<char>, url: Seq<char>) -> Seq<char> {
    sha256_hex(vstd::utf8::encode_utf8(server_name) + seq![10u8] + vstd::utf8::encode_utf8(url))
}

fn push_bytes(v: &mut Vec<u8>, b: &[u8])
    ensures
        final(v)@ == old(v)@ + b@,
{
    let mut i: usize = 0;
    while i < b.len()
        invariant
            i <= b.len(),
            v@ == old(v)@ + b@.take(i as int),
        decreases b.len() - i,
    {
        v.push(b[i]);
        i = i + 1;
        proof {
            assert(v@ =~= old(v)@ + b@.take(i as int));
        }
    }
    proof {
        assert(b@.take(b.len() as int) =~= b@);
    }
}

/// Computes the key of a server's tokens.
pub fn compute_store_key(server_name: &str, url: &str) -> (k: String)
    ensures
        k@ == store_key(server_name@, url@),
{
    let mut bytes: Vec<u8> = Vec::new();
    push_bytes(&mut bytes, server_name.as_bytes());
    bytes.push(10u8);
    push_bytes(&mut bytes, url.as_bytes());
    proof {
        assert(bytes@ =~= vstd::utf8::encode_utf8(server_name@) + seq![10u8] + vstd::utf8::encode_utf8(url@));
    }
    sha256_hex_of(bytes.as_slice())
}

/// Tokens of one server under their key.
#[derive(Debug, Clone)]
pub struct OAuthStoreEntry {
    pub key: String,
    pub tokens: StoredOAuthTokens,
}

/// The entries of a store as keys and tokens.
pub open spec fn entries_view(s: Seq<OAuthStoreEntry>) -> Seq<(Seq<char>, TokensView)> {
    s.map_values(|e: OAuthStoreEntry| (e.key@, e.tokens@))
}

/// Keys strictly increase.
pub open spec fn keys_sorted(s: Seq<(Seq<char>, TokensView)>) -> bool {
    forall|i: int, j: int| 0 <= i < j < s.len() ==> seq_lt(#[trigger] s[i].0, #[trigger] s[j].0)
}

/// The tokens stored under `k`.
pub open spec fn lookup(s: Seq<(Seq<char>, TokensView)>, k: Seq<char>) -> Option<TokensView>
    decreases s.len(),
{
    if s.len() == 0 {
        None
    } else if s[0].0 == k {
        Some(s[0].1)
    } else {
        lookup(s.drop_first(), k)
    }
}

/// The entries with `t` stored under `k`: replacing what was there, or
/// added in key order.
pub open spec fn insert_entry(s: Seq<(Seq<char>, TokensView)>, k: Seq<char>, t: TokensView) -> Seq<(Seq<char>, TokensView)>
    decreases s.len(),
{
    if s.len() == 0 {
        seq![(k, t)]
    } else if s[0].0 == k {
        s.update(0, (k, t))
    } else if seq_lt(k, s[0].0) {
        seq![(k, t)] + s
    } else {
        seq![s[0]] + insert_entry(s.drop_first(), k, t)
    }
}

proof fn lemma_lookup_absent(s: Seq<(Seq<char>, TokensView)>, k: Seq<char>)
    requires
        forall|i: int| 0 <= i < s.len() ==> (#[trigger] s[i]).0 != k,
    ensures
        lookup(s, k) is None,
    decreases s.len(),
{
    if s.len() > 0 {
        assert forall|i: int| 0 <= i < s.drop_first().len() implies (#[trigger] s.drop_first()[i]).0 != k by {
            assert(s.drop_first()[i] == s[i + 1]);
        }
        lemma_lookup_absent(s.drop_first(), k);
    }
}

proof fn lemma_lookup_at(s: Seq<(Seq<char>, TokensView)>, p: int)
    requires
        keys_sorted(s),
        0 <= p < s.len(),
    ensures
        lookup(s, s[p].0) == Some(s[p].1),
    decreases p,
{
    if p > 0 {
        lemma_seq_lt_irrefl(s[p].0);
        assert(s[0].0 != s[p].0);
        assert(s.drop_first()[p - 1] == s[p]);
        assert(keys_sorted(s.drop_first()));
        lemma_lookup_at(s.drop_first(), p - 1);
    }
}

/// Where `insert_entry` puts the new entry.
proof fn lemma_insert_entry_split(s: Seq<(Seq<char>, TokensView)>, k: Seq<char>, t: TokensView, p: int, found: bool)
    requires
        keys_sorted(s),
        0 <= p <= s.len(),
        forall|i: int| 0 <= i < p ==> seq_lt(#[trigger] s[i].0, k),
        found ==> p < s.len() && s[p].0 == k,
        !found ==> p == s.len() || seq_lt(k, s[p].0),
    ensures
        insert_entry(s, k, t) == if found {
            s.update(p, (k, t))
        } else {
            s.take(p) + seq![(k, t)] + s.skip(p)
        },
    decreases p,
{
    if p == 0 {
        if s.len() == 0 {
            assert(s.take(0) + seq![(k, t)] + s.skip(0) =~= seq![(k, t)]);
        } else if found {
        } else {
            lemma_seq_lt_irrefl(k);
            assert(s.take(0) + seq![(k, t)] + s.skip(0) =~= seq![(k, t)] + s);
        }
    } else {
        let d = s.drop_first();
        lemma_seq_lt_irrefl(k);
        lemma_seq_lt_asym(s[0].0, k);
        assert(s[0].0 != k);
        assert(!seq_lt(k, s[0].0));
        assert(keys_sorted(d));
        assert forall|i: int| 0 <= i < p - 1 implies seq_lt(#[trigger] d[i].0, k) by {
            assert(d[i] == s[i + 1]);
        }
        lemma_insert_entry_split(d, k, t, p - 1, found);
        if found {
            assert(seq![s[0]] + d.update(p - 1, (k, t)) =~= s.update(p, (k, t)));
        } else {
            assert(seq![s[0]] + (d.take(p - 1) + seq![(k, t)] + d.skip(p - 1)) =~= s.take(p) + seq![(k, t)] + s.skip(p));
        }
    }
}

/// The tokens stored under the server's key.
pub struct OAuthStore {
    entries: Vec<OAuthStoreEntry>,
}

impl OAuthStore {
    /// The entries, in key order.
    pub closed spec fn view_entries(&self) -> Seq<(Seq<char>, TokensView)> {
        entries_view(self.entries@)
    }

    #[verifier::type_invariant]
    closed spec fn sorted(&self) -> bool {
        keys_sorted(entries_view(self.entries@))
    }

    /// An empty store.
    pub fn new() -> (s: Self)
        ensures
            s.view_entries() == Seq::<(Seq<char>, TokensView)>::empty(),
    {
        let s = OAuthStore { entries: Vec::new() };
        proof {
            assert(entries_view(s.entries@) =~= Seq::<(Seq<char>, TokensView)>::empty());
        }
        s
    }

    /// The entries of the store, in key order.
    pub fn entries(&self) -> (r: &Vec<OAuthStoreEntry>)
        ensures
            entries_view(r@) == self.view_entries(),
            keys_sorted(self.view_entries()),
    {
        proof {
            use_type_invariant(self);
        }
        &self.entries
    }

    /// Stores `tokens` under `key`, replacing what was stored there.
    pub fn insert(&mut self, key: String, tokens: StoredOAuthTokens)
        ensures
            final(self).view_entries() == insert_entry(old(self).view_entries(), key@, tokens@),
            keys_sorted(final(self).view_entries()),
    {
        proof {
            use_type_invariant(&*self);
        }
        let ghost s = entries_view(self.entries@);
        let mut p: usize = 0;
        let mut found = false;
        while p < self.entries.len()
            invariant_except_break
                !found,
            invariant
                p <= self.entries.len(),
                s == entries_view(self.entries@),
                keys_sorted(s),
                forall|i: int| 0 <= i < p ==> seq_lt(#[trigger] s[i].0, key@),
            ensures
                p <= self.entries.len(),
                found ==> p < self.entries.len() && s[p as int].0 == key@,
                !found ==> p == self.entries.len() || seq_lt(key@, s[p as int].0),
                forall|i: int| 0 <= i < p ==> seq_lt(#[trigger] s[i].0, key@),
            decreases self.entries.len() - p,
        {
            let c = crate::order::compare_str(self.entries[p].key.as_str(), key.as_str());
            proof {
                assert(s[p as int].0 == self.entries@[p as int].key@);
            }
            if c == 0 {
                found = true;
                break;
            }
            if c > 0 {
                proof {
                    lemma_seq_lt_total(s[p as int].0, key@);
                    lemma_seq_lt_asym(s[p as int].0, key@);
                }
                break;
            }
            p = p + 1;
        }
        proof {
            lemma_insert_entry_split(s, key@, tokens@, p as int, found);
        }
        let ghost kt = (key@, tokens@);
        let entry = OAuthStoreEntry { key, tokens };
        let ghost ev = (entry.key@, entry.tokens@);
        let mut entries = Vec::new();
        std::mem::swap(&mut entries, &mut self.entries);
        if found {
            entries.set(p, entry);
            proof {
                assert(entries_view(entries@) =~= s.update(p as int, kt));
            }
        } else {
            entries.insert(p, entry);
            proof {
                assert(entries_view(entries@) =~= s.take(p as int) + seq![kt] + s.skip(p as int));
            }
        }
        proof {
            let n = entries_view(entries@);
            assert forall|i: int, j: int| 0 <= i < j < n.len() implies seq_lt(#[trigger] n[i].0, #[trigger] n[j].0) by {
                if found {
                    assert(n[i].0 == s[i].0 && n[j].0 == s[j].0);
                } else {
                    if j < p {
                        assert(n[i] == s[i] && n[j] == s[j]);
                    } else if j == p {
                        assert(n[i] == s[i]);
                    } else if i == p {
                        assert(n[j] == s[j - 1]);
                        if j - 1 > p {
                            lemma_seq_lt_trans(key@, s[p as int].0, s[j - 1].0);
                        }
                    } else if i < p {
                        assert(n[i] == s[i] && n[j] == s[j - 1]);
                    } else {
                        assert(n[i] == s[i - 1] && n[j] == s[j - 1]);
                    }
                }
            }
        }
        self.entries = entries;
    }

    /// The tokens stored under `key`.
    pub fn get(&self, key: &str) -> (r: Option<&StoredOAuthTokens>)
        ensures
            match r {
                Some(t) => lookup(self.view_entries(), key@) == Some(t@),
                None => lookup(self.view_entries(), key@) is None,
            },
    {
        proof {
            use_type_invariant(self);
        }
        let ghost s = entries_view(self.entries@);
        let mut i: usize = 0;
        while i < self.entries.len()
            invariant
                i <= self.entries.len(),
                s == entries_view(self.entries@),
                keys_sorted(s),
                forall|q: int| 0 <= q < i ==> (#[trigger] s[q]).0 != key@,
            decreases self.entries.len() - i,
        {
            if crate::text::str_eq(self.entries[i].key.as_str(), key) {
                proof {
                    lemma_lookup_at(s, i as int);
                }
                return Some(&self.entries[i].tokens);
            }
            i = i + 1;
        }
        proof {
            lemma_lookup_absent(s, key@);
        }
        None
    }
}

impl Default for OAuthStore {
    /// An empty store.
    fn default() -> (s: Self)
        ensures
            s.view_entries() == Seq::<(Seq<char>, TokensView)>::empty(),
    {
        OAuthStore::new()
    }
}

/// A token with an expiry expires once the expiry is no more than the skew
/// ahead of now; a token without one never does.
pub open spec fn token_expired(expires_at: Option<u64>, now_millis: u64) -> bool {
    match expires_at {
        None => false,
        Some(e) => e <= if now_millis + REFRESH_SKEW_MILLIS > u64::MAX {
            u64::MAX as int
        } else {
            now_millis + REFRESH_SKEW_MILLIS
        },
    }
}

/// Whether a token is expired at `now_millis` (milliseconds since the Unix
/// epoch).
pub fn token_is_expired(expires_at: Option<u64>, now_millis: u64) -> (b: bool)
    ensures
        b == token_expired(expires_at, now_millis),
{
    match expires_at {
        None => false,
        Some(e) => e <= now_millis.saturating_add(REFRESH_SKEW_MILLIS),
    }
}

/// Stores a server's tokens under its key.
pub fn save_oauth_tokens(store: &mut OAuthStore, tokens: StoredOAuthTokens)
    ensures
        final(store).view_entries() == insert_entry(
            old(store).view_entries(),
            store_key(tokens.server_name@, tokens.url@),
            tokens@,
        ),
{
    let key = compute_store_key(tokens.server_name.as_str(), tokens.url.as_str());
    store.insert(key, tokens);
}

/// The tokens stored for a server.
pub fn load_oauth_tokens(store: &OAuthStore, server_name: &str, url: &str) -> (r: Option<StoredOAuthTokens>)
    ensures
        match r {
            Some(t) => lookup(store.view_entries(), store_key(server_name@, url@)) == Some(t@),
            None => lookup(store.view_entries(), store_key(server_name@, url@)) is None,
        },
{
    let key = compute_store_key(server_name, url);
    match store.get(key.as_str()) {
        Some(t) => Some(clone_tokens(t)),
        None => None,
    }
}

/// The access token a store holds for a server, if it is not about to
/// expire.
pub open spec fn valid_token(s: Seq<(Seq<char>, TokensView)>, server_name: Seq<char>, url: Seq<char>, now_millis: u64) -> Option<Seq<char>> {
    match lookup(s, store_key(server_name, url)) {
        Some(t) => if token_expired(t.expires_at, now_millis) {
            None
        } else {
            Some(t.access_token)
        },
        None => None,
    }
}

/// The access token stored for a server, unless it expires within the skew
/// of `now_millis`.
pub fn load_valid_access_token(store: &OAuthStore, server_name: &str, url: &str, now_millis: u64) -> (r: Option<String>)
    ensures
        opt_view(r) == valid_token(store.view_entries(), server_name@, url@, now_millis),
{
    let tokens = match load_oauth_tokens(store, server_name, url) {
        Some(t) => t,
        None => return None,
    };
    if token_is_expired(tokens.expires_at, now_millis) {
        return None;
    }
    Some(tokens.access_token)
}

/// The code home a login's credentials are kept under, from the values of
/// `CODEX_HOME` and `CODE_HOME`: the first of them that is set and not
/// blank, as it is given.
pub open spec fn code_home_choice(codex_home: Option<Seq<char>>, code_home: Option<Seq<char>>) -> Option<Seq<char>> {
    match codex_home {
        Some(h) if crate::text::trimmed(h).len() > 0 => Some(h),
        _ => match code_home {
            Some(h) if crate::text::trimmed(h).len() > 0 => Some(h),
            _ => None,
        },
    }
}

/// Chooses the code home from the values of `CODEX_HOME` and `CODE_HOME`.
pub fn find_code_home_from_env(codex_home: Option<&str>, code_home: Option<&str>) -> (r: Option<String>)
    ensures
        opt_view(r) == code_home_choice(
            match codex_home {
                Some(h) => Some(h@),
                None => None,
            },
            match code_home {
                Some(h) => Some(h@),
                None => None,
            },
        ),
{
    match codex_home {
        Some(h) => if !crate::text::is_blank(h) {
            return Some(crate::text::to_owned_string(h));
        },
        None => {},
    }
    match code_home {
        Some(h) => if !crate::text::is_blank(h) {
            Some(crate::text::to_owned_string(h))
        } else {
            None
        },
        None => None,
    }
}

/// The valid access token for a server from the store of the code home the
/// environment names: `None` when there is no such store (no code home, or
/// its credentials could not be read).
pub fn load_valid_access_token_from_env(store: Option<&OAuthStore>, server_name: &str, url: &str, now_millis: u64) -> (r: Option<String>)
    ensures
        store is None ==> r is None,
        store matches Some(st) ==> opt_view(r) == valid_token(st.view_entries(), server_name@, url@, now_millis),
{
    match store {
        Some(st) => load_valid_access_token(st, server_name, url, now_millis),
        None => None,
    }
}

/// Whether the store holds a valid access token for a server.
pub fn has_valid_oauth_tokens(store: &OAuthStore, server_name: &str, url: &str, now_millis: u64) -> (b: bool)
    ensures
        b == valid_token(store.view_entries(), server_name@, url@, now_millis) is Some,
{
    load_valid_access_token(store, server_name, url, now_millis).is_some()
}

/// The expiry, in milliseconds since the Unix epoch, of a token that lives
/// `expires_in` from `now`, both given as seconds and nanoseconds: `None`
/// when the sum overflows a duration, and saturated at `u64::MAX`.
pub open spec fn expiry_millis(now_secs: u64, now_nanos: u32, in_secs: u64, in_nanos: u32) -> Option<u64> {
    let nanos = now_nanos + in_nanos;
    let secs = now_secs + in_secs + if nanos >= 1_000_000_000 {
        1int
    } else {
        0int
    };
    if secs > u64::MAX {
        None
    } else {
        let millis = secs * 1000 + (nanos % 1_000_000_000) / 1_000_000;
        Some(if millis > u64::MAX { u64::MAX } else { millis as u64 })
    }
}

/// Computes when a token expires from the current time and its lifetime,
/// as `Duration::checked_add` and `as_millis` do.
pub fn compute_expires_at_millis(now_secs: u64, now_nanos: u32, expires_in_secs: u64, expires_in_nanos: u32) -> (r: Option<u64>)
    requires
        now_nanos < 1_000_000_000,
        expires_in_nanos < 1_000_000_000,
    ensures
        r == expiry_millis(now_secs, now_nanos, expires_in_secs, expires_in_nanos),
{
    let mut nanos: u32 = now_nanos + expires_in_nanos;
    let mut secs: u64 = match now_secs.checked_add(expires_in_secs) {
        Some(s) => s,
        None => return None,
    };
    if nanos >= 1_000_000_000 {
        nanos = nanos - 1_000_000_000;
        secs = match secs.checked_add(1) {
            Some(s) => s,
            None => return None,
        };
    }
    let millis: u128 = (secs as u128) * 1000 + (nanos / 1_000_000) as u128;
    if millis > u64::MAX as u128 {
        Some(u64::MAX)
    } else {
        Some(millis as u64)
    }
}

/// Storing tokens under a key and then looking the key up gives the
/// tokens back; every other key keeps what it held.
pub proof fn lemma_lookup_insert(s: Seq<(Seq<char>, TokensView)>, k: Seq<char>, t: TokensView, other: Seq<char>)
    ensures
        lookup(insert_entry(s, k, t), k) == Some(t),
        other != k ==> lookup(insert_entry(s, k, t), other) == lookup(s, other),
    decreases s.len(),
{
    let n = insert_entry(s, k, t);
    if s.len() == 0 {
        assert(n == seq![(k, t)]);
        assert(n.drop_first() =~= Seq::<(Seq<char>, TokensView)>::empty());
        assert(lookup(n.drop_first(), other) is None);
    } else if s[0].0 == k {
        assert(n == s.update(0, (k, t)));
        assert(n.drop_first() =~= s.drop_first());
        assert(n[0] == (k, t));
    } else if seq_lt(k, s[0].0) {
        assert(n == seq![(k, t)] + s);
        assert(n.drop_first() =~= s);
        assert(n[0] == (k, t));
    } else {
        let r = insert_entry(s.drop_first(), k, t);
        lemma_lookup_insert(s.drop_first(), k, t, other);
        assert(n == seq![s[0]] + r);
        assert(n.drop_first() =~= r);
        assert(n[0] == s[0]);
    }
}

/// Tokens saved for a server are what loading that server gives back, and
/// saving them leaves the tokens of every server with another key as they
/// were.
pub proof fn law_load_after_save(s: Seq<(Seq<char>, TokensView)>, t: TokensView, server_name: Seq<char>, url: Seq<char>)
    ensures
        lookup(insert_entry(s, store_key(t.server_name, t.url), t), store_key(t.server_name, t.url)) == Some(t),
        store_key(server_name, url) != store_key(t.server_name, t.url) ==> lookup(
            insert_entry(s, store_key(t.server_name, t.url), t),
            store_key(server_name, url),
        ) == lookup(s, store_key(server_name, url)),
{
    lemma_lookup_insert(s, store_key(t.server_name, t.url), t, store_key(server_name, url));
}

/// A token that is handed out is not expired at that time: its expiry, if
/// any, lies beyond the skew.
pub proof fn law_valid_token_not_expiring(s: Seq<(Seq<char>, TokensView)>, server_name: Seq<char>, url: Seq<char>, now_millis: u64)
    ensures
        valid_token(s, server_name, url, now_millis) is Some ==> {
            let t = lookup(s, store_key(server_name, url))->0;
            &&& lookup(s, store_key(server_name, url)) is Some
            &&& valid_token(s, server_name, url, now_millis) == Some(t.access_token)
            &&& (t.expires_at is Some ==> t.expires_at->0 > now_millis)
        },
{
}

} // verus!

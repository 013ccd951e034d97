//! Device pairing: a short-lived six-digit code, shown on the appliance,
//! is exchanged for a session token whose hash is remembered; requests to
//! the API must then carry that token in a cookie.

use vstd::prelude::*;
use vstd::string::StringExecFns;
use sha2::{Digest, Sha256};
use std::time::Instant;
use crate::clock::{clock_now, duration_from_millis, instant_after, instant_reached};
use crate::datalog::lacks;
use crate::text::{
    char_views, chars_are, chars_of, join_with, digit, digit_char, has_prefix, lines_of, split_chars, split_on,
    starts_with_str, str_lines, string_from_chars, string_views, trim, trimmed,
};

verus! {

/// The SHA-256 digest of a text's UTF-8 bytes.
pub uninterp spec fn spec_sha256(text: Seq<char>) -> Seq<u8>;

/// `sha2::Sha256::digest` over the UTF-8 bytes of `value`: the 32-byte
/// digest, which depends on the text alone.
#[verifier::external_body]
fn sha256(value: &str) -> (d: Vec<u8>)
    ensures
        d@ == spec_sha256(value@),
        d@.len() == 32,
{
    Sha256::digest(value.as_bytes()).to_vec()
}

/// A lowercase hexadecimal digit.
pub open spec fn hex_nibble(n: nat) -> char {
    if n < 10 {
        ((n + 48) as u32) as char
    } else {
        ((n + 87) as u32) as char
    }
}

/// Two lowercase hex digits per byte, high nibble first.
pub open spec fn hex_lower(b: Seq<u8>) -> Seq<char>
    decreases b.len(),
{
    if b.len() == 0 {
        seq![]
    } else {
        hex_lower(b.drop_last()) + seq![hex_nibble(b.last() as nat / 16), hex_nibble(b.last() as nat % 16)]
    }
}

/// `hex::encode`: each byte as two lowercase hex digits, high nibble first.
#[verifier::external_body]
fn hex_encode(bytes: &[u8]) -> (s: String)
    ensures
        s@ == hex_lower(bytes@),
{
    hex::encode(bytes)
}

/// `rand::random_range(0..n)`: a value drawn from the thread-local
/// generator, below `n`. Which one is not stated.
#[verifier::external_body]
fn random_below(n: u32) -> (r: u32)
    requires
        n > 0,
    ensures
        r < n,
{
    rand::random_range(0..n)
}

/// `rand::random::<u8>()`: a byte from the thread-local generator.
#[verifier::external_body]
fn random_byte() -> u8 {
    rand::random::<u8>()
}

/// The stored form of a code or token: its SHA-256 digest in hex.
pub open spec fn token_hash(t: Seq<char>) -> Seq<char> {
    hex_lower(spec_sha256(t))
}

fn hash(value: &str) -> (h: String)
    ensures
        h@ == token_hash(value@),
{
    let d = sha256(value);
    hex_encode(d.as_slice())
}

proof fn lemma_hex_lower(b: Seq<u8>)
    ensures
        hex_lower(b).len() == 2 * b.len(),
        forall|i: int| 0 <= i < hex_lower(b).len() ==> {
            let c = #[trigger] hex_lower(b)[i];
            ('0' <= c && c <= '9') || ('a' <= c && c <= 'f')
        },
    decreases b.len(),
{
    if b.len() > 0 {
        lemma_hex_lower(b.drop_last());
        let x = b.last() as nat;
        assert(x / 16 < 16 && x % 16 < 16);
    }
}

/// `{:06}`: the six decimal digits of `n < 1_000_000`, zero-padded.
pub open spec fn six_digits(n: nat) -> Seq<char> {
    seq![
        digit_char((n / 100000) % 10),
        digit_char((n / 10000) % 10),
        digit_char((n / 1000) % 10),
        digit_char((n / 100) % 10),
        digit_char((n / 10) % 10),
        digit_char(n % 10),
    ]
}

fn pad6(n: u32) -> (s: String)
    ensures
        s@ == six_digits(n as nat),
{
    let n = n as u64;
    let mut v: Vec<char> = Vec::new();
    v.push(digit((n / 100000) % 10));
    v.push(digit((n / 10000) % 10));
    v.push(digit((n / 1000) % 10));
    v.push(digit((n / 100) % 10));
    v.push(digit((n / 10) % 10));
    v.push(digit(n % 10));
    let s = string_from_chars(v.as_slice());
    assert(s@ =~= six_digits(n as nat));
    s
}

struct PairingCode {
    hash: String,
    expires: Instant,
}

pub struct PairingInfo {
    pub code: String,
    pub expires_in: u64,
}

pub struct PairRequest {
    pub code: String,
}

pub struct AuthState {
    pub required: bool,
    store: String,
    approved: Vec<String>,
    pairing: Option<PairingCode>,
}

/// A remembered hash that survives being written one per line and read
/// back: not empty, no line feed, no trailing carriage return.
pub open spec fn line_safe(h: Seq<char>) -> bool {
    h.len() > 0 && lacks(h, '\n') && h.last() != '\r'
}

impl AuthState {
    /// The hashes of the approved tokens.
    pub closed spec fn approved(&self) -> Set<Seq<char>> {
        string_views(self.approved@).to_set()
    }

    /// The hash of the open pairing code, if a pairing window is open.
    pub closed spec fn pairing_hash(&self) -> Option<Seq<char>> {
        match self.pairing {
            Some(p) => Some(p.hash@),
            None => None,
        }
    }

    /// Whether requests must carry an approved token.
    pub closed spec fn is_required(&self) -> bool {
        self.required
    }

    /// Where the approvals are persisted.
    pub closed spec fn store_path(&self) -> Seq<char> {
        self.store@
    }

    /// A state whose approvals are the lines of `stored` (the contents of
    /// the approvals file at `store`, `None` when it could not be read),
    /// with no pairing window open.
    pub fn new(required: bool, store: String, stored: Option<String>) -> (a: Self)
        ensures
            a.is_required() == required,
            a.store_path() == store@,
            a.pairing_hash() is None,
            a.approved() == match stored {
                Some(t) => str_lines(t@).to_set(),
                None => Set::<Seq<char>>::empty(),
            },
    {
        let mut a = AuthState { required, store, approved: Vec::new(), pairing: None };
        match stored {
            Some(t) => {
                let v = chars_of(t.as_str());
                let lines = lines_of(&v);
                let mut i: usize = 0;
                while i < lines.len()
                    invariant
                        i <= lines@.len(),
                        char_views(lines@) == str_lines(t@),
                        a.approved() == str_lines(t@).take(i as int).to_set(),
                        a.is_required() == required,
                        a.store_path() == store@,
                        a.pairing_hash() is None,
                    decreases lines@.len() - i,
                {
                    let h = string_from_chars(lines[i].as_slice());
                    assert(h@ == str_lines(t@)[i as int]);
                    a.add_approved(h);
                    assert(str_lines(t@).take(i + 1) =~= str_lines(t@).take(i as int).push(h@));
                    proof {
                        broadcast use vstd::seq_lib::group_seq_properties;
                        assert(str_lines(t@).take(i as int).push(h@).to_set() =~= str_lines(t@).take(i as int).to_set().insert(h@));
                    }
                    i = i + 1;
                }
                assert(str_lines(t@).take(lines@.len() as int) =~= str_lines(t@));
            },
            None => {
                assert(a.approved() =~= Set::<Seq<char>>::empty());
            },
        }
        a
    }

    fn holds(&self, h: &String) -> (r: bool)
        ensures
            r == self.approved().contains(h@),
    {
        let mut i: usize = 0;
        while i < self.approved.len()
            invariant
                i <= self.approved@.len(),
                forall|j: int| 0 <= j < i ==> self.approved@[j]@ != h@,
            decreases self.approved@.len() - i,
        {
            if self.approved[i] == *h {
                assert(string_views(self.approved@)[i as int] == h@);
                return true;
            }
            i = i + 1;
        }
        proof {
            if self.approved().contains(h@) {
                let k = choose|k: int| 0 <= k < string_views(self.approved@).len() && string_views(self.approved@)[k] == h@;
                assert(self.approved@[k]@ == h@);
            }
        }
        false
    }

    fn add_approved(&mut self, h: String)
        ensures
            final(self).approved() == old(self).approved().insert(h@),
            final(self).is_required() == old(self).is_required(),
            final(self).store_path() == old(self).store_path(),
            final(self).pairing_hash() == old(self).pairing_hash(),
    {
        if !self.holds(&h) {
            let ghost before = string_views(self.approved@);
            self.approved.push(h);
            assert(string_views(self.approved@) =~= before.push(h@));
            assert(before.push(h@).to_set() =~= before.to_set().insert(h@)) by {
                broadcast use vstd::seq_lib::group_seq_properties;
            }
        } else {
            assert(self.approved() =~= self.approved().insert(h@));
        }
    }

    /// Open a five-minute pairing window with a fresh six-digit code.
    pub fn open_pairing(&mut self) -> (r: Result<PairingInfo, String>)
        ensures
            final(self).approved() == old(self).approved(),
            final(self).is_required() == old(self).is_required(),
            final(self).store_path() == old(self).store_path(),
            match r {
                Ok(info) => info.expires_in == 300 && (exists|n: nat| n < 1_000_000 && info.code@ == six_digits(n))
                    && final(self).pairing_hash() == Some(token_hash(info.code@)),
                Err(m) => m@ == "the clock cannot represent the pairing deadline"@
                    && final(self).pairing_hash() == old(self).pairing_hash(),
            },
    {
        let n = random_below(1_000_000);
        let code = pad6(n);
        match instant_after(clock_now(), duration_from_millis(300_000)) {
            Some(expires) => {
                self.pairing = Some(PairingCode { hash: hash(code.as_str()), expires });
                Ok(PairingInfo { code, expires_in: 300 })
            },
            None => Err(String::from_str("the clock cannot represent the pairing deadline")),
        }
    }

    /// Exchange the open pairing code for a new session token: the code
    /// must match and its window must still be open. The window closes on
    /// success, so a code pairs one device.
    pub fn approve(&mut self, code: &str) -> (r: Result<String, &'static str>)
        ensures
            final(self).is_required() == old(self).is_required(),
            final(self).store_path() == old(self).store_path(),
            old(self).pairing_hash() != Some(token_hash(code@)) ==> r is Err,
            match r {
                Ok(t) => old(self).pairing_hash() == Some(token_hash(code@))
                    && final(self).pairing_hash() is None
                    && final(self).approved() == old(self).approved().insert(token_hash(t@))
                    && t@.len() == 64,
                Err(e) => e@ == "pairing code is invalid or expired"@
                    && final(self).approved() == old(self).approved()
                    && final(self).pairing_hash() == old(self).pairing_hash(),
            },
    {
        let h = hash(code);
        let ok = match &self.pairing {
            Some(p) => p.hash == h && !instant_reached(clock_now(), p.expires),
            None => false,
        };
        if !ok {
            return Err("pairing code is invalid or expired");
        }
        self.pairing = None;
        let mut bytes: Vec<u8> = Vec::new();
        let mut i: usize = 0;
        while i < 32
            invariant
                i <= 32,
                bytes@.len() == i,
            decreases 32 - i,
        {
            bytes.push(random_byte());
            i = i + 1;
        }
        let token = hex_encode(bytes.as_slice());
        proof {
            lemma_hex_lower(bytes@);
        }
        self.add_approved(hash(token.as_str()));
        Ok(token)
    }

    /// Whether `token` was approved (and not revoked).
    pub fn valid(&self, token: &str) -> (r: bool)
        ensures
            r == self.approved().contains(token_hash(token@)),
    {
        self.holds(&hash(token))
    }

    /// Forget `token`.
    pub fn revoke(&mut self, token: &str)
        ensures
            final(self).approved() == old(self).approved().remove(token_hash(token@)),
            final(self).is_required() == old(self).is_required(),
            final(self).store_path() == old(self).store_path(),
            final(self).pairing_hash() == old(self).pairing_hash(),
    {
        let h = hash(token);
        let ghost before = string_views(self.approved@);
        let mut kept: Vec<String> = Vec::new();
        let mut i: usize = 0;
        while i < self.approved.len()
            invariant
                i <= self.approved@.len(),
                before == string_views(self.approved@),
                string_views(kept@).to_set() == before.take(i as int).to_set().remove(h@),
            decreases self.approved@.len() - i,
        {
            let ghost prev = string_views(kept@);
            assert(before.take(i + 1) =~= before.take(i as int).push(before[i as int]));
            proof {
                broadcast use vstd::seq_lib::group_seq_properties;
                assert(before.take(i as int).push(before[i as int]).to_set() =~= before.take(i as int).to_set().insert(before[i as int]));
            }
            if !(self.approved[i] == h) {
                kept.push(self.approved[i].clone());
                assert(string_views(kept@) =~= prev.push(before[i as int]));
                proof {
                    broadcast use vstd::seq_lib::group_seq_properties;
                    assert(prev.push(before[i as int]).to_set() =~= prev.to_set().insert(before[i as int]));
                }
                assert(string_views(kept@).to_set() =~= before.take(i + 1).to_set().remove(h@));
            } else {
                assert(before.take(i as int).to_set().remove(h@) =~= before.take(i + 1).to_set().remove(h@));
            }
            i = i + 1;
        }
        assert(before.take(before.len() as int) =~= before);
        self.approved = kept;
    }

    /// The approvals file's contents: the hashes, one per line.
    pub fn persist_text(&self) -> (s: String)
        ensures
            (forall|h: Seq<char>| self.approved().contains(h) ==> line_safe(h)) ==> str_lines(s@).to_set() == self.approved(),
    {
        let mut parts: Vec<Vec<char>> = Vec::new();
        let mut i: usize = 0;
        while i < self.approved.len()
            invariant
                i <= self.approved@.len(),
                char_views(parts@) == string_views(self.approved@).take(i as int),
            decreases self.approved@.len() - i,
        {
            let c = chars_of(self.approved[i].as_str());
            let ghost before = parts@;
            parts.push(c);
            assert(char_views(parts@) =~= char_views(before).push(c@));
            assert(string_views(self.approved@).take(i + 1) =~= string_views(self.approved@).take(i as int).push(c@));
            i = i + 1;
        }
        let ghost hs = string_views(self.approved@);
        assert(hs.take(hs.len() as int) =~= hs);
        let j = crate::text::join_chars(&parts, '\n');
        proof {
            if forall|h: Seq<char>| self.approved().contains(h) ==> line_safe(h) {
                assert forall|k: int| 0 <= k < hs.len() implies line_safe(#[trigger] hs[k]) by {
                    assert(self.approved().contains(hs[k]));
                }
                lemma_lines_of_join(hs);
            }
        }
        string_from_chars(j.as_slice())
    }

    /// Where the approvals file lives.
    pub fn store(&self) -> (s: &String)
        ensures
            s@ == self.store_path(),
    {
        &self.store
    }
}

/// Line-safe hashes joined with line feeds read back as the same lines.
proof fn lemma_lines_of_join(hs: Seq<Seq<char>>)
    requires
        forall|k: int| 0 <= k < hs.len() ==> line_safe(#[trigger] hs[k]),
    ensures
        str_lines(join_with(hs, '\n')) == hs,
    decreases hs.len(),
{
    if hs.len() == 0 {
    } else if hs.len() == 1 {
        assert(line_safe(hs[0]));
        crate::text::lemma_first_index(hs[0], '\n');
        assert(seq![hs[0]] =~= hs);
    } else {
        let a = hs[0];
        assert(line_safe(a));
        let rest = join_with(hs.drop_first(), '\n');
        let t = a + seq!['\n'] + rest;
        lemma_lines_of_join(hs.drop_first());
        crate::text::lemma_first_index_concat(a, seq!['\n'] + rest, '\n');
        assert((seq!['\n'] + rest)[0] == '\n');
        assert(crate::text::first_index(seq!['\n'] + rest, '\n') == Some(0nat));
        assert(t =~= a + (seq!['\n'] + rest));
        assert(t.take(a.len() as int) =~= a);
        assert(t.skip(a.len() + 1 as int) =~= rest);
        assert(seq![a] + hs.drop_first() =~= hs);
    }
}

// ------------------------------------------------------------ cookies

/// The value of the first `rustytune_session=` piece among the
/// `;`-separated, trimmed pieces of a `Cookie` header.
pub open spec fn first_session(parts: Seq<Seq<char>>) -> Option<Seq<char>>
    decreases parts.len(),
{
    if parts.len() == 0 {
        None
    } else if has_prefix(trim(parts[0]), "rustytune_session="@) {
        Some(trim(parts[0]).skip("rustytune_session="@.len() as int))
    } else {
        first_session(parts.drop_first())
    }
}

pub open spec fn spec_session_token(header: Seq<char>) -> Option<Seq<char>> {
    first_session(split_on(header, ';'))
}

/// The session token a `Cookie` header carries.
pub fn session_token(header: &str) -> (r: Option<String>)
    ensures
        match spec_session_token(header@) {
            Some(t) => r matches Some(s) && s@ == t,
            None => r is None,
        },
{
    let v = chars_of(header);
    let parts = split_chars(&v, 0, v.len(), ';');
    assert(v@.subrange(0, v@.len() as int) =~= v@);
    let ghost all = split_on(header@, ';');
    let pl = chars_of("rustytune_session=");
    let mut i: usize = 0;
    assert(all.skip(0) =~= all);
    while i < parts.len()
        invariant
            i <= parts@.len(),
            char_views(parts@) == all,
            all == split_on(header@, ';'),
            pl@ == "rustytune_session="@,
            first_session(all) == first_session(all.skip(i as int)),
        decreases parts@.len() - i,
    {
        let n = parts[i].len();
        let t = trimmed(&parts[i], 0, n);
        assert(parts@[i as int]@.subrange(0, n as int) =~= parts@[i as int]@);
        assert(parts@[i as int]@ == all[i as int]);
        assert(all.skip(i as int)[0] == all[i as int]);
        assert(t@ == trim(all.skip(i as int)[0]));
        if starts_with_str(&t, "rustytune_session=") {
            let rest = crate::text::slice_chars(&t, pl.len(), t.len());
            assert(rest@ =~= t@.skip(pl@.len() as int));
            return Some(string_from_chars(rest.as_slice()));
        }
        assert(all.skip(i as int).drop_first() =~= all.skip(i + 1));
        i = i + 1;
    }
    assert(all.skip(parts@.len() as int) =~= Seq::<Seq<char>>::empty());
    None
}

/// The `Set-Cookie` value that hands a client its session token.
pub fn session_cookie(token: &str) -> (c: String)
    ensures
        c@ == "rustytune_session="@ + token@ + "; Path=/; HttpOnly; SameSite=Strict"@,
{
    let mut c = String::from_str("rustytune_session=");
    c.append(token);
    c.append("; Path=/; HttpOnly; SameSite=Strict");
    c
}

/// The `Set-Cookie` value that clears the session cookie.
pub fn cleared_cookie() -> (c: String)
    ensures
        c@ == "rustytune_session=; Path=/; Max-Age=0; HttpOnly; SameSite=Strict"@,
{
    String::from_str("rustytune_session=; Path=/; Max-Age=0; HttpOnly; SameSite=Strict")
}

// ------------------------------------------------------------ admission

/// What pairing enforcement does with a request.
#[derive(Debug, Clone, Copy, PartialEq, Eq, Structural)]
pub enum AuthDecision {
    /// Serve it.
    Pass,
    /// 401: no approved session token.
    PairingRequired,
    /// 403: a state-changing request from another origin.
    CrossOrigin,
}

/// Paths served without a session: the health check, pairing itself, and
/// everything outside the API.
pub open spec fn open_path(p: Seq<char>) -> bool {
    p == "/api/health"@ || p == "/api/pair"@ || !has_prefix(p, "/api/"@)
}

/// No `Origin` header, or one naming this host over http or https.
pub open spec fn same_origin(origin: Option<Seq<char>>, host: Option<Seq<char>>) -> bool {
    match origin {
        None => true,
        Some(o) => match host {
            Some(h) => o == "http://"@ + h || o == "https://"@ + h,
            None => false,
        },
    }
}

pub open spec fn opt_str(o: Option<&str>) -> Option<Seq<char>> {
    match o {
        Some(s) => Some(s@),
        None => None,
    }
}

fn prefixed_str(prefix: &str, s: &str) -> (r: String)
    ensures
        r@ == prefix@ + s@,
{
    let mut r = String::from_str(prefix);
    r.append(s);
    r
}

impl AuthState {
    /// Whether a request may proceed. `cookie` is its `Cookie` header,
    /// `safe_method` whether it is a GET, HEAD or OPTIONS, `origin` and
    /// `host` its headers of those names.
    pub fn authorize(&self, path: &str, cookie: Option<&str>, safe_method: bool, origin: Option<&str>, host: Option<&str>) -> (d: AuthDecision)
        ensures
            d == if !self.is_required() || open_path(path@) {
                AuthDecision::Pass
            } else if !(match opt_str(cookie) {
                Some(c) => match spec_session_token(c) {
                    Some(t) => self.approved().contains(token_hash(t)),
                    None => false,
                },
                None => false,
            }) {
                AuthDecision::PairingRequired
            } else if !safe_method && !same_origin(opt_str(origin), opt_str(host)) {
                AuthDecision::CrossOrigin
            } else {
                AuthDecision::Pass
            },
    {
        if !self.required {
            return AuthDecision::Pass;
        }
        let p = chars_of(path);
        if chars_are(&p, "/api/health") || chars_are(&p, "/api/pair") || !starts_with_str(&p, "/api/") {
            return AuthDecision::Pass;
        }
        let authed = match cookie {
            Some(c) => match session_token(c) {
                Some(t) => self.valid(t.as_str()),
                None => false,
            },
            None => false,
        };
        if !authed {
            return AuthDecision::PairingRequired;
        }
        if !safe_method {
            let same = match origin {
                None => true,
                Some(o) => match host {
                    Some(h) => {
                        let ov = chars_of(o);
                        let http = prefixed_str("http://", h);
                        let https = prefixed_str("https://", h);
                        chars_are(&ov, http.as_str()) || chars_are(&ov, https.as_str())
                    },
                    None => false,
                },
            };
            if !same {
                return AuthDecision::CrossOrigin;
            }
        }
        AuthDecision::Pass
    }
}

} // verus!

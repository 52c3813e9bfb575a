//! Authentication of the extension and the connector password handshake.
//!
//! The extension authenticates with `Authorization: Bearer <password>`. A new
//! password is first offered as *pending*; both the current and the pending
//! password are accepted until the extension acknowledges it, then it is
//! committed.
use vstd::prelude::*;
use crate::numfmt::{dec_digits, dec_u128, hex_digits, hex_u128, pow16, zero_pad, zero_pad_exec};
use crate::text::{
    chars_of, copy_string, is_blank, push_all, push_str, slice_range, starts_with_chars, str_eq,
    str_to_string, string_of, trim, trim_str,
};
use vstd::utf8::encode_utf8_decode_utf8;
use crate::settings::{default_connector_password, default_password_chars};

verus! {

/// `c` is a lowercase hexadecimal digit.
pub open spec fn is_lower_hex(c: char) -> bool {
    ('0' <= c && c <= '9') || ('a' <= c && c <= 'f')
}

/// `s` has the shape of a generated password: 32 lowercase hex digits.
pub open spec fn autogenerated_shape(s: Seq<char>) -> bool {
    s.len() == 32 && forall|i: int| 0 <= i < s.len() ==> #[trigger] is_lower_hex(s[i])
}

/// Whether `password` looks generated (32 lowercase hex digits).
pub fn is_probably_autogenerated_password(password: &str) -> (r: bool)
    ensures
        r == autogenerated_shape(password@),
{
    let v = chars_of(password);
    if v.len() != 32 {
        return false;
    }
    let mut i: usize = 0;
    while i < v.len()
        invariant
            0 <= i <= v.len(),
            v@ == password@,
            forall|j: int| 0 <= j < i ==> #[trigger] is_lower_hex(v@[j]),
        decreases v.len() - i,
    {
        let c = v[i];
        if !(('0' <= c && c <= '9') || ('a' <= c && c <= 'f')) {
            assert(!is_lower_hex(v@[i as int]));
            return false;
        }
        i = i + 1;
    }
    true
}

/// Byte-wise comparison whose running time does not depend on where the
/// inputs differ.
pub fn constant_time_eq(a: &[u8], b: &[u8]) -> (r: bool)
    ensures
        r == (a@ == b@),
{
    if a.len() != b.len() {
        return false;
    }
    let mut acc: u8 = 0;
    let mut i: usize = 0;
    while i < a.len()
        invariant
            0 <= i <= a.len(),
            a.len() == b.len(),
            (acc == 0) <==> (forall|j: int| 0 <= j < i ==> #[trigger] a@[j] == b@[j]),
        decreases a.len() - i,
    {
        let x = a[i];
        let y = b[i];
        let next = acc | (x ^ y);
        assert((next == 0) <==> (acc == 0 && x == y)) by (bit_vector)
            requires
                next == acc | (x ^ y),
        ;
        acc = next;
        i = i + 1;
    }
    if acc == 0 {
        assert(a@ =~= b@);
    }
    acc == 0
}

/// Byte equality of two strings is their equality.
proof fn lemma_bytes_eq(s: Seq<char>, t: Seq<char>)
    requires
        vstd::utf8::encode_utf8(s) == vstd::utf8::encode_utf8(t),
    ensures
        s == t,
{
    encode_utf8_decode_utf8(s);
    encode_utf8_decode_utf8(t);
}

/// The scheme prefix of an `Authorization` header value.
pub open spec fn bearer_prefix() -> Seq<char> {
    "Bearer "@
}

/// An `Authorization` header `header` is accepted against the current password
/// `expected` and the pending one: the current password is set, the header is
/// `Bearer <token>`, and the token is one of the two.
pub open spec fn auth_accepts(
    header: Option<Seq<char>>,
    expected: Seq<char>,
    pending: Option<Seq<char>>,
) -> bool {
    &&& expected.len() > 0
    &&& header is Some
    &&& crate::text::starts_with(header->0, bearer_prefix())
    &&& {
        let token = header->0.skip(7);
        token == expected || (pending is Some && token == pending->0)
    }
}

/// Compares two strings by their bytes, in constant time.
fn str_bytes_eq(a: &str, b: &str) -> (r: bool)
    ensures
        r == (a@ == b@),
{
    let r = constant_time_eq(a.as_bytes(), b.as_bytes());
    proof {
        if r {
            lemma_bytes_eq(a@, b@);
        }
    }
    r
}

/// Model of an optional string slice.
pub open spec fn opt_str_view(o: Option<&str>) -> Option<Seq<char>> {
    match o {
        Some(s) => Some(s@),
        None => None,
    }
}

/// Checks an `Authorization` header value (absent, or not valid text: `None`)
/// against the current password and the pending one.
pub fn validate_auth_header(
    auth_header: Option<&str>,
    expected_password: &str,
    pending_password: Option<&str>,
) -> (r: bool)
    ensures
        r == auth_accepts(
            opt_str_view(auth_header),
            expected_password@,
            opt_str_view(pending_password),
        ),
{
    let expected_chars = chars_of(expected_password);
    if expected_chars.len() == 0 {
        return false;
    }
    match auth_header {
        None => false,
        Some(value) => {
            let v = chars_of(value);
            let prefix = chars_of("Bearer ");
            proof {
                reveal_strlit("Bearer ");
            }
            assert(prefix@ == bearer_prefix());
            if !starts_with_chars(v.as_slice(), prefix.as_slice()) {
                return false;
            }
            let token_chars = slice_range(v.as_slice(), 7, v.len());
            let token = string_of(token_chars.as_slice());
            assert(token@ =~= value@.skip(7));
            if str_bytes_eq(token.as_str(), expected_password) {
                return true;
            }
            match pending_password {
                Some(pending) => str_bytes_eq(token.as_str(), pending),
                None => false,
            }
        },
    }
}


/// Multiplier of the password seed hash.
pub const SEED_MULTIPLIER: u64 = 0x517cc1b727220a95;

/// The text a password is derived from: the time in nanoseconds, the process
/// id, the thread id as `Debug` prints it, and the time scrambled.
pub open spec fn password_seed(ts_nanos: u128, pid: u32, thread_id: Seq<char>) -> Seq<char> {
    dec_digits(ts_nanos as nat) + dec_digits(pid as nat) + thread_id + dec_digits(
        ts_nanos.wrapping_mul(SEED_MULTIPLIER as u128) as nat,
    )
}

/// The multiplicative hash of the seed bytes.
pub open spec fn seed_hash(bytes: Seq<u8>) -> u64
    decreases bytes.len(),
{
    if bytes.len() == 0 {
        0
    } else {
        let i = bytes.len() - 1;
        seed_hash(bytes.drop_last()).wrapping_add(
            (bytes[i] as u64).wrapping_mul((i as u64).wrapping_add(1)),
        ).wrapping_mul(SEED_MULTIPLIER)
    }
}

/// `format!("{:08x}", x)`.
pub open spec fn hex8(x: u32) -> Seq<char> {
    zero_pad(hex_digits(x as nat), 8)
}

/// The `k`-th 32-bit chunk of a password.
pub open spec fn password_chunk(acc: u64, ts_nanos: u128, k: u64) -> u32 {
    (acc.wrapping_mul((k + 1) as u64).wrapping_add(ts_nanos as u64)) as u32
}

/// The password derived from the given time, process id and thread id.
pub open spec fn secure_password(ts_nanos: u128, pid: u32, thread_id: Seq<char>) -> Seq<char> {
    let acc = seed_hash(vstd::utf8::encode_utf8(password_seed(ts_nanos, pid, thread_id)));
    hex8(password_chunk(acc, ts_nanos, 0)) + hex8(password_chunk(acc, ts_nanos, 1)) + hex8(
        password_chunk(acc, ts_nanos, 2),
    ) + hex8(password_chunk(acc, ts_nanos, 3))
}

/// Hex digits of `n` number at most `k` when `n < 16^k`.
proof fn lemma_hex_digits_len(n: nat, k: nat)
    requires
        k >= 1,
        n < pow16(k),
    ensures
        hex_digits(n).len() <= k,
    decreases k,
{
    if n >= 16 {
        assert(pow16(0) == 1);
        assert(k >= 2);
        assert(n / 16 < pow16((k - 1) as nat));
        lemma_hex_digits_len(n / 16, (k - 1) as nat);
    }
}

/// Hex digits are lowercase hex characters.
proof fn lemma_hex_digits_lower(n: nat)
    ensures
        forall|i: int| 0 <= i < hex_digits(n).len() ==> #[trigger] is_lower_hex(hex_digits(n)[i]),
    decreases n,
{
    if n >= 16 {
        lemma_hex_digits_lower(n / 16);
        let d = hex_digits(n / 16);
        assert forall|i: int| 0 <= i < hex_digits(n).len() implies #[trigger] is_lower_hex(
            hex_digits(n)[i],
        ) by {
            if i < d.len() {
                assert(hex_digits(n)[i] == d[i]);
            }
        }
    }
}

/// Eight lowercase hex characters.
proof fn lemma_hex8_shape(x: u32)
    ensures
        hex8(x).len() == 8,
        forall|i: int| 0 <= i < 8 ==> #[trigger] is_lower_hex(hex8(x)[i]),
{
    assert(pow16(8) == 0x1_0000_0000) by {
        reveal_with_fuel(pow16, 9);
    }
    lemma_hex_digits_len(x as nat, 8);
    lemma_hex_digits_lower(x as nat);
    let h = hex_digits(x as nat);
    assert forall|i: int| 0 <= i < 8 implies #[trigger] is_lower_hex(hex8(x)[i]) by {
        if h.len() < 8 {
            let pad = (8 - h.len()) as int;
            if i >= pad {
                assert(hex8(x)[i] == h[i - pad]);
            }
        }
    }
}

/// A generated password has the shape of one: 32 lowercase hex digits.
pub proof fn lemma_generated_password_is_recognized(ts_nanos: u128, pid: u32, thread_id: Seq<char>)
    ensures
        autogenerated_shape(secure_password(ts_nanos, pid, thread_id)),
{
    let acc = seed_hash(vstd::utf8::encode_utf8(password_seed(ts_nanos, pid, thread_id)));
    let c0 = password_chunk(acc, ts_nanos, 0);
    let c1 = password_chunk(acc, ts_nanos, 1);
    let c2 = password_chunk(acc, ts_nanos, 2);
    let c3 = password_chunk(acc, ts_nanos, 3);
    lemma_hex8_shape(c0);
    lemma_hex8_shape(c1);
    lemma_hex8_shape(c2);
    lemma_hex8_shape(c3);
    let s = secure_password(ts_nanos, pid, thread_id);
    assert(s == hex8(c0) + hex8(c1) + hex8(c2) + hex8(c3));
    assert forall|i: int| 0 <= i < s.len() implies #[trigger] is_lower_hex(s[i]) by {
        if i < 8 {
            assert(s[i] == hex8(c0)[i]);
        } else if i < 16 {
            assert(s[i] == hex8(c1)[i - 8]);
        } else if i < 24 {
            assert(s[i] == hex8(c2)[i - 16]);
        } else {
            assert(s[i] == hex8(c3)[i - 24]);
        }
    }
}

fn push_hex8(out: &mut Vec<char>, x: u32)
    ensures
        final(out)@ == old(out)@ + hex8(x),
{
    let h = hex_u128(x as u128);
    let p = zero_pad_exec(h.as_slice(), 8);
    push_all(out, p.as_slice());
}

/// A fresh connector password (32 hex characters) derived from the time in
/// nanoseconds, the process id and the current thread's id as `Debug` prints
/// it.
pub fn generate_secure_password(ts_nanos: u128, pid: u32, thread_id: &str) -> (r: String)
    ensures
        r@ == secure_password(ts_nanos, pid, thread_id@),
        autogenerated_shape(r@),
{
    let mut seed = dec_u128(ts_nanos);
    let p = dec_u128(pid as u128);
    push_all(&mut seed, p.as_slice());
    push_str(&mut seed, thread_id);
    let scrambled = dec_u128(ts_nanos.wrapping_mul(SEED_MULTIPLIER as u128));
    push_all(&mut seed, scrambled.as_slice());
    let seed_text = string_of(seed.as_slice());
    assert(seed_text@ == password_seed(ts_nanos, pid, thread_id@));
    let bytes = seed_text.as_str().as_bytes();
    let mut acc: u64 = 0;
    let mut i: usize = 0;
    assert(bytes@.take(0) =~= Seq::<u8>::empty());
    while i < bytes.len()
        invariant
            0 <= i <= bytes.len(),
            acc == seed_hash(bytes@.take(i as int)),
        decreases bytes.len() - i,
    {
        let b = bytes[i];
        acc = acc.wrapping_add((b as u64).wrapping_mul((i as u64).wrapping_add(1)));
        acc = acc.wrapping_mul(SEED_MULTIPLIER);
        assert(bytes@.take(i + 1).drop_last() =~= bytes@.take(i as int));
        i = i + 1;
    }
    assert(bytes@.take(bytes.len() as int) =~= bytes@);
    let mut out: Vec<char> = Vec::new();
    let mut k: u64 = 0;
    while k < 4
        invariant
            0 <= k <= 4,
            acc == seed_hash(vstd::utf8::encode_utf8(password_seed(ts_nanos, pid, thread_id@))),
            k == 0 ==> out@ == Seq::<char>::empty(),
            k == 1 ==> out@ == hex8(password_chunk(acc, ts_nanos, 0)),
            k == 2 ==> out@ == hex8(password_chunk(acc, ts_nanos, 0)) + hex8(
                password_chunk(acc, ts_nanos, 1),
            ),
            k == 3 ==> out@ == hex8(password_chunk(acc, ts_nanos, 0)) + hex8(
                password_chunk(acc, ts_nanos, 1),
            ) + hex8(password_chunk(acc, ts_nanos, 2)),
            k == 4 ==> out@ == secure_password(ts_nanos, pid, thread_id@),
        decreases 4 - k,
    {
        let chunk = acc.wrapping_mul(k + 1).wrapping_add(ts_nanos as u64);
        push_hex8(&mut out, chunk as u32);
        k = k + 1;
    }
    proof {
        lemma_generated_password_is_recognized(ts_nanos, pid, thread_id@);
    }
    string_of(out.as_slice())
}

/// A message or attachment id: the time in nanoseconds as 32 hex digits.
pub fn uuid_simple(ts_nanos: u128) -> (r: String)
    ensures
        r@ == zero_pad(hex_digits(ts_nanos as nat), 32),
{
    let h = hex_u128(ts_nanos);
    let p = zero_pad_exec(h.as_slice(), 32);
    string_of(p.as_slice())
}


/// The connector password fields of the settings.
pub struct ConnectorPasswordSettings {
    /// The password the extension authenticates with.
    pub connector_password: String,
    /// A password offered to the extension and not yet acknowledged.
    pub connector_pending_password: Option<String>,
    /// The user chose the password (it is not replaced automatically).
    pub connector_password_user_set: bool,
}

/// Model of `ConnectorPasswordSettings`.
pub struct PasswordView {
    pub password: Seq<char>,
    pub pending: Option<Seq<char>>,
    pub user_set: bool,
}

impl View for ConnectorPasswordSettings {
    type V = PasswordView;

    open spec fn view(&self) -> PasswordView {
        PasswordView {
            password: self.connector_password@,
            pending: match self.connector_pending_password {
                Some(p) => Some(p@),
                None => None,
            },
            user_set: self.connector_password_user_set,
        }
    }
}

/// A password state with the given fields.
pub open spec fn password_view(password: Seq<char>, pending: Option<Seq<char>>, user_set: bool) -> PasswordView {
    PasswordView { password, pending, user_set }
}

/// A password set before the handshake existed, generated and stored as
/// the current one, is moved to pending so that the extension can confirm it.
pub open spec fn needs_legacy_migration(v: PasswordView) -> bool {
    &&& !v.user_set
    &&& v.pending is None
    &&& v.password.len() > 0
    &&& v.password != default_password_chars()
    &&& autogenerated_shape(v.password)
}

/// The state after the legacy migration.
pub open spec fn spec_migrate(v: PasswordView) -> PasswordView {
    if needs_legacy_migration(v) {
        password_view(default_password_chars(), Some(v.password), v.user_set)
    } else {
        v
    }
}

/// The state after the extension's poll asked for a password update, and the
/// update offered; `fresh` is the password generated for this call.
pub open spec fn spec_offer(v: PasswordView, fresh: Seq<char>) -> (PasswordView, Option<Seq<char>>) {
    match v.pending {
        Some(p) => (v, Some(p)),
        None => if v.password == default_password_chars() {
            (password_view(v.password, Some(fresh), false), Some(fresh))
        } else {
            (v, None)
        },
    }
}

/// The state after the extension acknowledged the pending password.
pub open spec fn spec_commit(v: PasswordView) -> PasswordView {
    match v.pending {
        Some(p) => password_view(p, None, v.user_set),
        None => v,
    }
}

/// The state after the user asked for password `requested`, or the error.
pub open spec fn spec_change(v: PasswordView, requested: Seq<char>) -> Result<PasswordView, Seq<char>> {
    let t = trim(requested);
    if t.len() == 0 {
        Err("Connector password cannot be empty"@)
    } else if t == v.password {
        Ok(v)
    } else {
        Ok(password_view(v.password, Some(t), true))
    }
}

impl ConnectorPasswordSettings {
    /// Moves a legacy generated password to pending, with the default password
    /// as the current one, so that the extension still holding the legacy
    /// password can confirm it; returns whether the settings changed.
    pub fn maybe_migrate_legacy_connector_password(&mut self) -> (changed: bool)
        ensures
            changed == needs_legacy_migration(old(self)@),
            final(self)@ == spec_migrate(old(self)@),
    {
        if self.connector_password_user_set || self.connector_pending_password.is_some() {
            return false;
        }
        let default_password = default_connector_password();
        let password_chars = chars_of(self.connector_password.as_str());
        if password_chars.len() == 0 || str_eq(
            self.connector_password.as_str(),
            default_password.as_str(),
        ) {
            return false;
        }
        if !is_probably_autogenerated_password(self.connector_password.as_str()) {
            return false;
        }
        let legacy = copy_string(&self.connector_password);
        self.connector_pending_password = Some(legacy);
        self.connector_password = default_password;
        true
    }

    /// Answers the extension's poll: a pending password is offered again; with
    /// the default password still current, a fresh password is generated from
    /// the given time, process id and thread id, made pending and offered;
    /// otherwise nothing is offered.
    pub fn maybe_generate_new_password(&mut self, ts_nanos: u128, pid: u32, thread_id: &str) -> (r:
        Option<String>)
        ensures
            final(self)@ == spec_offer(old(self)@, secure_password(ts_nanos, pid, thread_id@)).0,
            opt_view_string(r) == spec_offer(old(self)@, secure_password(ts_nanos, pid, thread_id@)).1,
    {
        match &self.connector_pending_password {
            Some(pending) => {
                return Some(copy_string(pending));
            },
            None => {},
        }
        let default_password = default_connector_password();
        if str_eq(self.connector_password.as_str(), default_password.as_str()) {
            let fresh = generate_secure_password(ts_nanos, pid, thread_id);
            self.connector_pending_password = Some(copy_string(&fresh));
            self.connector_password_user_set = false;
            Some(fresh)
        } else {
            None
        }
    }

    /// Commits the pending password once the extension acknowledged it;
    /// returns whether there was one.
    pub fn commit_pending_password(&mut self) -> (committed: bool)
        ensures
            committed == old(self)@.pending is Some,
            final(self)@ == spec_commit(old(self)@),
    {
        match self.connector_pending_password.take() {
            Some(p) => {
                self.connector_password = p;
                true
            },
            None => false,
        }
    }

    /// The user sets a new password:
    /// the trimmed password becomes pending while the current one stays valid
    /// until the extension acknowledges it. A blank password is refused.
    pub fn change_connector_password(&mut self, password: &str) -> (r: Result<(), String>)
        ensures
            match spec_change(old(self)@, password@) {
                Ok(v) => r is Ok && final(self)@ == v,
                Err(e) => r is Err && r->Err_0@ == e && final(self)@ == old(self)@,
            },
    {
        if is_blank(password) {
            proof {
                crate::text::lemma_trim_empty_iff(password@);
            }
            return Err(str_to_string("Connector password cannot be empty"));
        }
        proof {
            crate::text::lemma_trim_empty_iff(password@);
        }
        let trimmed = trim_str(password);
        if str_eq(self.connector_password.as_str(), trimmed.as_str()) {
            return Ok(());
        }
        self.connector_pending_password = Some(trimmed);
        self.connector_password_user_set = true;
        Ok(())
    }
}

/// The header value `Bearer <token>`.
pub open spec fn bearer(token: Seq<char>) -> Seq<char> {
    bearer_prefix() + token
}

proof fn lemma_bearer(token: Seq<char>)
    ensures
        crate::text::starts_with(bearer(token), bearer_prefix()),
        bearer(token).skip(7) == token,
{
    reveal_strlit("Bearer ");
    assert(bearer(token).subrange(0, 7) =~= bearer_prefix());
    assert(bearer(token).skip(7) =~= token);
}

/// Changing the password never locks the extension out: while the new
/// password is pending both the old and the new one are accepted, and once
/// the extension acknowledges it the new one is the password.
pub proof fn lemma_password_change_handshake(v: PasswordView, requested: Seq<char>)
    requires
        v.password.len() > 0,
        trim(requested).len() > 0,
        trim(requested) != v.password,
    ensures
        spec_change(v, requested) is Ok,
        auth_accepts(
            Some(bearer(v.password)),
            spec_change(v, requested)->Ok_0.password,
            spec_change(v, requested)->Ok_0.pending,
        ),
        auth_accepts(
            Some(bearer(trim(requested))),
            spec_change(v, requested)->Ok_0.password,
            spec_change(v, requested)->Ok_0.pending,
        ),
        spec_commit(spec_change(v, requested)->Ok_0).password == trim(requested),
        spec_commit(spec_change(v, requested)->Ok_0).pending is None,
        auth_accepts(
            Some(bearer(trim(requested))),
            spec_commit(spec_change(v, requested)->Ok_0).password,
            spec_commit(spec_change(v, requested)->Ok_0).pending,
        ),
{
    lemma_bearer(v.password);
    lemma_bearer(trim(requested));
}

/// A pending password is offered again, unchanged, on every later poll until
/// it is acknowledged.
pub proof fn lemma_offer_is_stable(v: PasswordView, fresh1: Seq<char>, fresh2: Seq<char>)
    requires
        spec_offer(v, fresh1).1 is Some,
    ensures
        spec_offer(spec_offer(v, fresh1).0, fresh2) == spec_offer(v, fresh1),
{
}

/// Rotation by the poll: a password a poll offers is accepted from then on,
/// the current one stays accepted until the extension acknowledges, and
/// the acknowledgement makes the offered password the current one.
pub proof fn lemma_offer_then_ack(v: PasswordView, fresh: Seq<char>)
    requires
        v.password.len() > 0,
        spec_offer(v, fresh).1 is Some,
    ensures
        ({
            let (after_poll, offered) = spec_offer(v, fresh);
            let p = offered->0;
            &&& auth_accepts(Some(bearer(v.password)), after_poll.password, after_poll.pending)
            &&& p.len() > 0 ==> auth_accepts(Some(bearer(p)), after_poll.password, after_poll.pending)
            &&& spec_commit(after_poll).password == p
            &&& spec_commit(after_poll).pending is None
            &&& p.len() > 0 ==> auth_accepts(Some(bearer(p)), spec_commit(after_poll).password, None)
        }),
{
    lemma_bearer(v.password);
    lemma_bearer(spec_offer(v, fresh).1->0);
}

/// A legacy generated password survives the migration: it stays accepted, it
/// is what the next poll offers, and acknowledging it makes it current again.
pub proof fn lemma_legacy_migration_recovers(v: PasswordView, fresh: Seq<char>)
    requires
        needs_legacy_migration(v),
    ensures
        auth_accepts(Some(bearer(v.password)), spec_migrate(v).password, spec_migrate(v).pending),
        spec_offer(spec_migrate(v), fresh).1 == Some(v.password),
        spec_commit(spec_offer(spec_migrate(v), fresh).0) == password_view(v.password, None, v.user_set),
{
    reveal_strlit("fklejqwhfiu342lhk3");
    lemma_bearer(v.password);
}

/// Model of an optional string.
pub open spec fn opt_view_string(o: Option<String>) -> Option<Seq<char>> {
    match o {
        Some(s) => Some(s@),
        None => None,
    }
}

} // verus!

use vstd::prelude::*;

use crate::keyed::KeyedList;
use crate::text::{chars_of, concat, decimal, decimal_string, digit_char, lowercase_chars, string_of, to_ascii_lowercase, trim, trim_chars};

verus! {

/// Which algorithm set an SSH connection is negotiated with.
#[derive(Clone, Copy, Debug, PartialEq, Eq, Structural)]
pub enum NegotiationProfile {
    Modern,
    LegacyRsaSha1,
}

/// Host key algorithms offered to servers.
#[derive(Clone, Copy, Debug, PartialEq, Eq, Structural)]
pub enum HostKeyAlgorithm {
    Ed25519,
    EcdsaNistP256,
    EcdsaNistP384,
    EcdsaNistP521,
    RsaSha1,
    RsaSha512,
    RsaSha256,
}

/// The host key algorithms of a profile, in order of preference; only the legacy profile
/// offers RSA with SHA-1.
pub open spec fn spec_host_key_algorithms(profile: NegotiationProfile) -> Seq<HostKeyAlgorithm> {
    match profile {
        NegotiationProfile::Modern => seq![
            HostKeyAlgorithm::Ed25519,
            HostKeyAlgorithm::EcdsaNistP256,
            HostKeyAlgorithm::EcdsaNistP384,
            HostKeyAlgorithm::EcdsaNistP521,
            HostKeyAlgorithm::RsaSha512,
            HostKeyAlgorithm::RsaSha256,
        ],
        NegotiationProfile::LegacyRsaSha1 => seq![
            HostKeyAlgorithm::Ed25519,
            HostKeyAlgorithm::EcdsaNistP256,
            HostKeyAlgorithm::EcdsaNistP384,
            HostKeyAlgorithm::EcdsaNistP521,
            HostKeyAlgorithm::RsaSha1,
            HostKeyAlgorithm::RsaSha512,
            HostKeyAlgorithm::RsaSha256,
        ],
    }
}

pub fn host_key_algorithms_for(profile: NegotiationProfile) -> (algorithms: Vec<HostKeyAlgorithm>)
    ensures
        algorithms@ == spec_host_key_algorithms(profile),
{
    let algorithms = match profile {
        NegotiationProfile::Modern => vec![
            HostKeyAlgorithm::Ed25519,
            HostKeyAlgorithm::EcdsaNistP256,
            HostKeyAlgorithm::EcdsaNistP384,
            HostKeyAlgorithm::EcdsaNistP521,
            HostKeyAlgorithm::RsaSha512,
            HostKeyAlgorithm::RsaSha256,
        ],
        NegotiationProfile::LegacyRsaSha1 => vec![
            HostKeyAlgorithm::Ed25519,
            HostKeyAlgorithm::EcdsaNistP256,
            HostKeyAlgorithm::EcdsaNistP384,
            HostKeyAlgorithm::EcdsaNistP521,
            HostKeyAlgorithm::RsaSha1,
            HostKeyAlgorithm::RsaSha512,
            HostKeyAlgorithm::RsaSha256,
        ],
    };
    assert(algorithms@ =~= spec_host_key_algorithms(profile));
    algorithms
}

/// The modern profile never offers RSA with SHA-1; the legacy profile differs from it by
/// exactly that algorithm.
pub proof fn lemma_modern_profile_excludes_sha1()
    ensures
        !spec_host_key_algorithms(NegotiationProfile::Modern).contains(HostKeyAlgorithm::RsaSha1),
        spec_host_key_algorithms(NegotiationProfile::LegacyRsaSha1).contains(HostKeyAlgorithm::RsaSha1),
        spec_host_key_algorithms(NegotiationProfile::LegacyRsaSha1).remove(4) == spec_host_key_algorithms(
            NegotiationProfile::Modern,
        ),
{
    let modern = spec_host_key_algorithms(NegotiationProfile::Modern);
    let legacy = spec_host_key_algorithms(NegotiationProfile::LegacyRsaSha1);
    assert(legacy[4] == HostKeyAlgorithm::RsaSha1);
    assert(legacy.remove(4) =~= modern);
    if modern.contains(HostKeyAlgorithm::RsaSha1) {
        let i = choose|i: int| 0 <= i < modern.len() && modern[i] == HostKeyAlgorithm::RsaSha1;
        assert(false);
    }
}

/// Every host key algorithm but RSA with SHA-1 is offered by both profiles, each once,
/// with Ed25519 preferred; RSA with SHA-1 only by the legacy profile, after the ECDSA
/// algorithms and before RSA with SHA-2.
pub proof fn lemma_host_key_algorithms_offered(a: HostKeyAlgorithm)
    ensures
        spec_host_key_algorithms(NegotiationProfile::LegacyRsaSha1).contains(a),
        spec_host_key_algorithms(NegotiationProfile::Modern).contains(a) <==> a != HostKeyAlgorithm::RsaSha1,
        spec_host_key_algorithms(NegotiationProfile::Modern).len() == 6,
        spec_host_key_algorithms(NegotiationProfile::LegacyRsaSha1).len() == 7,
        spec_host_key_algorithms(NegotiationProfile::Modern)[0] == HostKeyAlgorithm::Ed25519,
        spec_host_key_algorithms(NegotiationProfile::LegacyRsaSha1)[0] == HostKeyAlgorithm::Ed25519,
        spec_host_key_algorithms(NegotiationProfile::LegacyRsaSha1)[4] == HostKeyAlgorithm::RsaSha1,
{
    let modern = spec_host_key_algorithms(NegotiationProfile::Modern);
    let legacy = spec_host_key_algorithms(NegotiationProfile::LegacyRsaSha1);
    lemma_modern_profile_excludes_sha1();
    match a {
        HostKeyAlgorithm::Ed25519 => {
            assert(legacy[0] == a);
            assert(modern[0] == a);
        },
        HostKeyAlgorithm::EcdsaNistP256 => {
            assert(legacy[1] == a);
            assert(modern[1] == a);
        },
        HostKeyAlgorithm::EcdsaNistP384 => {
            assert(legacy[2] == a);
            assert(modern[2] == a);
        },
        HostKeyAlgorithm::EcdsaNistP521 => {
            assert(legacy[3] == a);
            assert(modern[3] == a);
        },
        HostKeyAlgorithm::RsaSha1 => {
            assert(legacy[4] == a);
        },
        HostKeyAlgorithm::RsaSha512 => {
            assert(legacy[5] == a);
            assert(modern[4] == a);
        },
        HostKeyAlgorithm::RsaSha256 => {
            assert(legacy[6] == a);
            assert(modern[5] == a);
        },
    }
}

/// Kinds of private keys.
#[derive(Clone, Copy, Debug, PartialEq, Eq, Structural)]
pub enum PrivateKeyKind {
    Ed25519,
    Ecdsa,
    Rsa,
    Dsa,
    Other,
}

/// Ed25519, ECDSA and RSA private keys are accepted; any other kind is refused with a
/// message that names it.
pub fn validate_private_key_algorithm(kind: PrivateKeyKind, name: &str) -> (result: Result<(), String>)
    ensures
        match result {
            Ok(()) => kind == PrivateKeyKind::Ed25519 || kind == PrivateKeyKind::Ecdsa || kind
                == PrivateKeyKind::Rsa,
            Err(e) => !(kind == PrivateKeyKind::Ed25519 || kind == PrivateKeyKind::Ecdsa || kind
                == PrivateKeyKind::Rsa) && e@ == "Key type "@ + name@
                + " not allowed. Supported private keys: Ed25519, ECDSA, RSA."@,
        },
{
    match kind {
        PrivateKeyKind::Ed25519 | PrivateKeyKind::Ecdsa | PrivateKeyKind::Rsa => Ok(()),
        _ => {
            let head = concat("Key type ", name);
            Err(concat(head.as_str(), " not allowed. Supported private keys: Ed25519, ECDSA, RSA."))
        },
    }
}

/// Why a connection attempt failed, as far as the retry decision needs to know.
#[derive(Clone, Copy, Debug, PartialEq, Eq, Structural)]
pub enum ConnectFailure {
    NoCommonHostKeyAlgorithm,
    NoCommonOtherAlgorithm,
    UnknownAlgorithm,
    KeyExchangeInit,
    WrongServerSignature,
    OtherError,
    Timeout,
}

/// Only a modern-profile attempt that failed over the host key algorithm, an unknown
/// algorithm, the key exchange start or the server signature is retried with the legacy
/// profile.
pub open spec fn spec_should_retry_with_legacy(profile: NegotiationProfile, failure: ConnectFailure) -> bool {
    profile == NegotiationProfile::Modern && (failure == ConnectFailure::NoCommonHostKeyAlgorithm || failure
        == ConnectFailure::UnknownAlgorithm || failure == ConnectFailure::KeyExchangeInit || failure
        == ConnectFailure::WrongServerSignature)
}

pub fn should_retry_with_legacy(profile: NegotiationProfile, failure: ConnectFailure) -> (retry: bool)
    ensures
        retry == spec_should_retry_with_legacy(profile, failure),
        retry == (profile == NegotiationProfile::Modern && match failure {
            ConnectFailure::NoCommonHostKeyAlgorithm => true,
            ConnectFailure::UnknownAlgorithm => true,
            ConnectFailure::KeyExchangeInit => true,
            ConnectFailure::WrongServerSignature => true,
            ConnectFailure::NoCommonOtherAlgorithm => false,
            ConnectFailure::OtherError => false,
            ConnectFailure::Timeout => false,
        }),
{
    if profile != NegotiationProfile::Modern {
        return false;
    }
    match failure {
        ConnectFailure::NoCommonHostKeyAlgorithm
        | ConnectFailure::UnknownAlgorithm
        | ConnectFailure::KeyExchangeInit
        | ConnectFailure::WrongServerSignature => true,
        _ => false,
    }
}

/// Seconds between keep-alive messages: as configured, else 0 (none).
pub fn effective_keepalive_interval(keep_alive_interval: Option<u64>) -> (secs: u64)
    ensures
        secs == match keep_alive_interval {
            Some(v) => v,
            None => 0u64,
        },
{
    match keep_alive_interval {
        Some(value) => value,
        None => 0,
    }
}

/// The key an endpoint is remembered under: the trimmed host in ASCII lower case, a colon,
/// and the port in decimal.
pub open spec fn spec_endpoint_key(host: Seq<char>, port: u16) -> Seq<char> {
    to_ascii_lowercase(trim(host)) + ":"@ + decimal(port as nat)
}

pub fn endpoint_cache_key(host: &str, port: u16) -> (key: String)
    ensures
        key@ == spec_endpoint_key(host@, port),
{
    let host_chars = lowercase_chars(trim_chars(chars_of(host).as_slice()).as_slice());
    let host_part = string_of(host_chars.as_slice());
    let with_colon = concat(host_part.as_str(), ":");
    concat(with_colon.as_str(), decimal_string(port as u64).as_str())
}

/// Hosts that differ only in surrounding whitespace and ASCII case share one entry.
pub proof fn lemma_endpoint_key_ignores_case_and_padding(a: Seq<char>, b: Seq<char>, port: u16)
    requires
        to_ascii_lowercase(trim(a)) == to_ascii_lowercase(trim(b)),
    ensures
        spec_endpoint_key(a, port) == spec_endpoint_key(b, port),
{
}

proof fn lemma_decimal_has_no_colon(n: nat)
    ensures
        decimal(n).len() >= 1,
        forall|i: int| 0 <= i < decimal(n).len() ==> #[trigger] decimal(n)[i] != ':',
    decreases n,
{
    if n >= 10 {
        lemma_decimal_has_no_colon(n / 10);
        assert(((n % 10 + 48) as u32) as char != ':');
    } else {
        assert(((n + 48) as u32) as char != ':');
    }
}

proof fn lemma_decimal_injective(n: nat, m: nat)
    requires
        decimal(n) == decimal(m),
    ensures
        n == m,
    decreases n,
{
    lemma_decimal_has_no_colon(n);
    lemma_decimal_has_no_colon(m);
    if n < 10 && m < 10 {
        assert(decimal(n) == seq![digit_char(n)]);
        assert(decimal(m) == seq![digit_char(m)]);
        assert(decimal(n)[0] == decimal(m)[0]);
        assert(seq![digit_char(n)][0] == digit_char(n));
        assert(seq![digit_char(m)][0] == digit_char(m));
        assert(digit_char(n) as int == n + 48);
        assert(digit_char(m) as int == m + 48);
        assert(digit_char(n) == digit_char(m));
        assert(digit_char(n) as int == digit_char(m) as int);
        assert(n == m);
    } else if n < 10 {
        lemma_decimal_has_no_colon(m / 10);
        assert(decimal(m).len() >= 2);
    } else if m < 10 {
        lemma_decimal_has_no_colon(n / 10);
        assert(decimal(n).len() >= 2);
    } else {
        assert(decimal(n) == decimal(n / 10).push(digit_char(n % 10)));
        assert(decimal(m) == decimal(m / 10).push(digit_char(m % 10)));
        assert(decimal(n).last() == decimal(m).last());
        assert(decimal(n).last() == digit_char(n % 10));
        assert(decimal(m).last() == digit_char(m % 10));
        assert(digit_char(n % 10) as int == n % 10 + 48);
        assert(digit_char(m % 10) as int == m % 10 + 48);
        assert(decimal(n).drop_last() =~= decimal(n / 10));
        assert(decimal(m).drop_last() =~= decimal(m / 10));
        lemma_decimal_injective(n / 10, m / 10);
        assert(n % 10 == m % 10);
        assert(n == 10 * (n / 10) + n % 10);
        assert(m == 10 * (m / 10) + m % 10);
    }
}

proof fn lemma_split_at_last_colon(h1: Seq<char>, d1: Seq<char>, h2: Seq<char>, d2: Seq<char>)
    requires
        h1 + seq![':'] + d1 == h2 + seq![':'] + d2,
        forall|i: int| 0 <= i < d1.len() ==> #[trigger] d1[i] != ':',
        forall|i: int| 0 <= i < d2.len() ==> #[trigger] d2[i] != ':',
    ensures
        h1 == h2,
        d1 == d2,
{
    let a1 = h1 + seq![':'];
    let a2 = h2 + seq![':'];
    let k = a1 + d1;
    let k2 = a2 + d2;
    assert(a1.len() == h1.len() + 1);
    assert(a2.len() == h2.len() + 1);
    assert(a1[h1.len() as int] == ':');
    assert(a2[h2.len() as int] == ':');
    assert(k == k2);
    assert(k.len() == k2.len());
    if d1.len() < d2.len() {
        let i = h1.len() as int;
        assert(k[i] == a1[i]);
        assert(i >= a2.len());
        assert(k2[i] == d2[i - a2.len()]);
    } else if d2.len() < d1.len() {
        let i = h2.len() as int;
        assert(k2[i] == a2[i]);
        assert(i >= a1.len());
        assert(k[i] == d1[i - a1.len()]);
    } else {
        assert(h1 =~= k.subrange(0, h1.len() as int));
        assert(h2 =~= k2.subrange(0, h2.len() as int));
        assert(d1 =~= k.subrange(a1.len() as int, k.len() as int));
        assert(d2 =~= k2.subrange(a2.len() as int, k2.len() as int));
    }
}

/// Two endpoints share one key exactly when their hosts, trimmed and in ASCII lower case,
/// are the same and their ports are the same.
pub proof fn lemma_endpoint_key_matches(a: Seq<char>, p: u16, b: Seq<char>, q: u16)
    ensures
        spec_endpoint_key(a, p) == spec_endpoint_key(b, q) <==> (to_ascii_lowercase(trim(a)) == to_ascii_lowercase(
            trim(b),
        ) && p == q),
{
    reveal_strlit(":");
    assert(":"@ =~= seq![':']);
    if spec_endpoint_key(a, p) == spec_endpoint_key(b, q) {
        lemma_decimal_has_no_colon(p as nat);
        lemma_decimal_has_no_colon(q as nat);
        lemma_split_at_last_colon(to_ascii_lowercase(trim(a)), decimal(p as nat), to_ascii_lowercase(trim(b)), decimal(
            q as nat,
        ));
        lemma_decimal_injective(p as nat, q as nat);
    }
}

/// The profile that last connected successfully to each endpoint.
pub struct NegotiationProfileCache {
    inner: KeyedList<NegotiationProfile>,
}

impl NegotiationProfileCache {
    pub closed spec fn remembered(&self, key: Seq<char>) -> Option<NegotiationProfile> {
        self.inner.get(key)
    }

    pub closed spec fn wf(&self) -> bool {
        self.inner.wf()
    }

    /// The profile to try first for an endpoint: the remembered one, else the modern one.
    pub open spec fn preferred(&self, host: Seq<char>, port: u16) -> NegotiationProfile {
        match self.remembered(spec_endpoint_key(host, port)) {
            Some(p) => p,
            None => NegotiationProfile::Modern,
        }
    }

    pub fn new() -> (cache: Self)
        ensures
            cache.wf(),
            forall|k: Seq<char>| #[trigger] cache.remembered(k) is None,
    {
        NegotiationProfileCache { inner: KeyedList::new() }
    }

    pub fn preferred_profile_for_endpoint(&self, host: &str, port: u16) -> (profile: NegotiationProfile)
        requires
            self.wf(),
        ensures
            profile == self.preferred(host@, port),
    {
        let key = endpoint_cache_key(host, port);
        match self.inner.lookup_value(key.as_str()) {
            Some(p) => p,
            None => NegotiationProfile::Modern,
        }
    }

    pub fn remember_successful_profile(&mut self, host: &str, port: u16, profile: NegotiationProfile)
        requires
            old(self).wf(),
        ensures
            final(self).wf(),
            final(self).remembered(spec_endpoint_key(host@, port)) == Some(profile),
            forall|k: Seq<char>| k != spec_endpoint_key(host@, port) ==> #[trigger] final(self).remembered(k)
                == old(self).remembered(k),
    {
        let key = endpoint_cache_key(host, port);
        self.inner.insert(key, profile);
    }
}

impl Clone for NegotiationProfileCache {
    /// A copy that prefers the same profiles; what either learns afterwards the other does
    /// not see.
    fn clone(&self) -> (copy: Self)
        ensures
            copy.wf() == self.wf(),
            forall|k: Seq<char>| #[trigger] copy.remembered(k) == self.remembered(k),
    {
        NegotiationProfileCache { inner: self.inner.duplicate() }
    }
}

impl Default for NegotiationProfileCache {
    fn default() -> (cache: Self)
        ensures
            cache.wf(),
            forall|k: Seq<char>| #[trigger] cache.remembered(k) is None,
    {
        NegotiationProfileCache::new()
    }
}

/// Remembering a profile for an endpoint makes it the preferred profile of that endpoint
/// (under any spelling of the host that differs only in padding and ASCII case) and leaves
/// every other endpoint's preference as it was.
pub proof fn lemma_remembered_profile_is_preferred(
    before: NegotiationProfileCache,
    after: NegotiationProfileCache,
    host: Seq<char>,
    port: u16,
    profile: NegotiationProfile,
    other_host: Seq<char>,
    other_port: u16,
)
    requires
        after.remembered(spec_endpoint_key(host, port)) == Some(profile),
        forall|k: Seq<char>| k != spec_endpoint_key(host, port) ==> #[trigger] after.remembered(k)
            == before.remembered(k),
    ensures
        after.preferred(host, port) == profile,
        spec_endpoint_key(other_host, other_port) == spec_endpoint_key(host, port) ==> after.preferred(
            other_host,
            other_port,
        ) == profile,
        spec_endpoint_key(other_host, other_port) != spec_endpoint_key(host, port) ==> after.preferred(
            other_host,
            other_port,
        ) == before.preferred(other_host, other_port),
{
}

/// The profile preferred for an endpoint after the successful connections `learned` (host,
/// port, profile), in order: the profile of the last one to the same endpoint (the host
/// compared without padding and ASCII case), else the modern profile.
pub open spec fn preferred_after(learned: Seq<(Seq<char>, u16, NegotiationProfile)>, host: Seq<char>, port: u16) -> NegotiationProfile
    decreases learned.len(),
{
    if learned.len() == 0 {
        NegotiationProfile::Modern
    } else if to_ascii_lowercase(trim(learned.last().0)) == to_ascii_lowercase(trim(host)) && learned.last().1 == port {
        learned.last().2
    } else {
        preferred_after(learned.drop_last(), host, port)
    }
}

/// Whether `after` is what remembering `profile` for `host:port` makes of `before`, as
/// `remember_successful_profile` states.
pub open spec fn remembers(
    before: NegotiationProfileCache,
    after: NegotiationProfileCache,
    host: Seq<char>,
    port: u16,
    profile: NegotiationProfile,
) -> bool {
    &&& after.remembered(spec_endpoint_key(host, port)) == Some(profile)
    &&& forall|k: Seq<char>| k != spec_endpoint_key(host, port) ==> #[trigger] after.remembered(k)
        == before.remembered(k)
}

/// A new cache that learns the profiles of a sequence of successful connections prefers,
/// for each endpoint, the profile of the last connection to it, and the modern profile for
/// an endpoint it never connected to.
pub proof fn lemma_preferred_after_connections(
    caches: Seq<NegotiationProfileCache>,
    learned: Seq<(Seq<char>, u16, NegotiationProfile)>,
    host: Seq<char>,
    port: u16,
)
    requires
        caches.len() == learned.len() + 1,
        forall|k: Seq<char>| #[trigger] caches[0].remembered(k) is None,
        forall|i: int|
            0 <= i < learned.len() ==> remembers(
                caches[i],
                #[trigger] caches[i + 1],
                learned[i].0,
                learned[i].1,
                learned[i].2,
            ),
    ensures
        caches.last().preferred(host, port) == preferred_after(learned, host, port),
    decreases learned.len(),
{
    if learned.len() > 0 {
        let n = learned.len() - 1;
        lemma_preferred_after_connections(caches.drop_last(), learned.drop_last(), host, port);
        assert(caches.drop_last().last() == caches[n]);
        assert(remembers(caches[n], caches[n + 1], learned[n].0, learned[n].1, learned[n].2));
        lemma_endpoint_key_matches(learned[n].0, learned[n].1, host, port);
    }
}

/// Application-wide SSH state: the negotiation profiles learned per endpoint.
pub struct SshAppState {
    negotiation_profiles: NegotiationProfileCache,
}

impl SshAppState {
    pub closed spec fn profiles(&self) -> NegotiationProfileCache {
        self.negotiation_profiles
    }

    pub open spec fn wf(&self) -> bool {
        self.profiles().wf()
    }

    pub fn new() -> (state: Self)
        ensures
            state.wf(),
            forall|k: Seq<char>| #[trigger] state.profiles().remembered(k) is None,
    {
        SshAppState { negotiation_profiles: NegotiationProfileCache::new() }
    }

    pub fn preferred_profile_for_endpoint(&self, host: &str, port: u16) -> (profile: NegotiationProfile)
        requires
            self.wf(),
        ensures
            profile == self.profiles().preferred(host@, port),
    {
        self.negotiation_profiles.preferred_profile_for_endpoint(host, port)
    }

    pub fn remember_successful_profile(&mut self, host: &str, port: u16, profile: NegotiationProfile)
        requires
            old(self).wf(),
        ensures
            final(self).wf(),
            final(self).profiles().remembered(spec_endpoint_key(host@, port)) == Some(profile),
            forall|k: Seq<char>| k != spec_endpoint_key(host@, port) ==> #[trigger] final(self).profiles().remembered(k)
                == old(self).profiles().remembered(k),
    {
        self.negotiation_profiles.remember_successful_profile(host, port, profile);
    }
}

impl Clone for SshAppState {
    /// A copy that prefers the same profiles; what either learns afterwards the other does
    /// not see.
    fn clone(&self) -> (copy: Self)
        ensures
            copy.wf() == self.wf(),
            forall|k: Seq<char>| #[trigger] copy.profiles().remembered(k) == self.profiles().remembered(k),
    {
        SshAppState { negotiation_profiles: self.negotiation_profiles.clone() }
    }
}

impl Default for SshAppState {
    fn default() -> (state: Self)
        ensures
            state.wf(),
    {
        SshAppState::new()
    }
}

/// What follows a connection attempt.
#[derive(Clone, Debug, PartialEq, Eq)]
pub enum AttemptNext {
    /// Connected: the profile has been remembered for the endpoint.
    Connected,
    /// Try again with this profile.
    Retry(NegotiationProfile),
    /// Give up with this error.
    Failed(String),
}

impl SshAppState {
    /// Decides after an attempt to connect to an endpoint with a profile: on success the
    /// profile is remembered; a modern attempt that failed on the algorithms is tried
    /// again with the legacy profile; any other failure is final.
    pub fn after_attempt(
        &mut self,
        host: &str,
        port: u16,
        profile: NegotiationProfile,
        failure: Option<(ConnectFailure, &str)>,
    ) -> (next: AttemptNext)
        requires
            old(self).wf(),
        ensures
            final(self).wf(),
            match failure {
                None => {
                    &&& next == AttemptNext::Connected
                    &&& final(self).profiles().remembered(spec_endpoint_key(host@, port)) == Some(profile)
                    &&& forall|k: Seq<char>| k != spec_endpoint_key(host@, port) ==> #[trigger] final(self).profiles().remembered(k)
                        == old(self).profiles().remembered(k)
                },
                Some((kind, message)) => {
                    &&& final(self).profiles() == old(self).profiles()
                    &&& if spec_should_retry_with_legacy(profile, kind) {
                        next == AttemptNext::Retry(NegotiationProfile::LegacyRsaSha1)
                    } else {
                        next matches AttemptNext::Failed(e) && e@ == "Connection failed: "@ + message@
                    }
                },
            },
    {
        match failure {
            None => {
                self.remember_successful_profile(host, port, profile);
                AttemptNext::Connected
            },
            Some((kind, message)) => if should_retry_with_legacy(profile, kind) {
                AttemptNext::Retry(NegotiationProfile::LegacyRsaSha1)
            } else {
                AttemptNext::Failed(concat("Connection failed: ", message))
            },
        }
    }
}

/// Which failures are retried with the legacy profile: a modern attempt that found no
/// common host key algorithm, met an unknown algorithm, failed at the start of the key
/// exchange or got a wrong server signature; never one that found no other common
/// algorithm, failed otherwise or timed out, and never a legacy attempt.
pub proof fn lemma_legacy_retry_failures(failure: ConnectFailure)
    ensures
        spec_should_retry_with_legacy(NegotiationProfile::Modern, ConnectFailure::NoCommonHostKeyAlgorithm),
        spec_should_retry_with_legacy(NegotiationProfile::Modern, ConnectFailure::UnknownAlgorithm),
        spec_should_retry_with_legacy(NegotiationProfile::Modern, ConnectFailure::KeyExchangeInit),
        spec_should_retry_with_legacy(NegotiationProfile::Modern, ConnectFailure::WrongServerSignature),
        !spec_should_retry_with_legacy(NegotiationProfile::Modern, ConnectFailure::NoCommonOtherAlgorithm),
        !spec_should_retry_with_legacy(NegotiationProfile::Modern, ConnectFailure::OtherError),
        !spec_should_retry_with_legacy(NegotiationProfile::Modern, ConnectFailure::Timeout),
        !spec_should_retry_with_legacy(NegotiationProfile::LegacyRsaSha1, failure),
{
}

/// A connection is tried at most twice: a retry goes to the legacy profile, and an attempt
/// with the legacy profile is never retried.
pub proof fn lemma_at_most_one_retry(profile: NegotiationProfile, first: ConnectFailure, second: ConnectFailure)
    ensures
        spec_should_retry_with_legacy(profile, first) ==> !spec_should_retry_with_legacy(
            NegotiationProfile::LegacyRsaSha1,
            second,
        ),
{
}

} // verus!

//! Decisions of the QUIC session: the order in which resolved addresses are
//! dialed, the keep-alive interval, the choice of TLS identity files and the
//! bookkeeping of a multi-address connect attempt.
use vstd::prelude::*;

use crate::ffi::WlanOptimization;
use crate::text::opt_view;

verus! {

broadcast use vstd::seq_lib::group_to_multiset_ensures;

/// A resolved socket address: IPv4 or IPv6, the address held as its
/// big-endian integer value (`u32::from(Ipv4Addr)`, `u128::from(Ipv6Addr)`).
#[derive(Clone, Copy, Debug, PartialEq, Eq)]
pub enum ConnectAddr {
    V4 { ip: u32, port: u16 },
    V6 { ip: u128, port: u16, flowinfo: u32, scope_id: u32 },
}

/// `127.0.0.0/8`.
pub open spec fn v4_is_loopback(ip: u32) -> bool {
    ip / 0x100_0000 == 127
}

/// `10.0.0.0/8`, `172.16.0.0/12` and `192.168.0.0/16`.
pub open spec fn v4_is_private(ip: u32) -> bool {
    ip / 0x100_0000 == 10 || ip / 0x10_0000 == 0xac1 || ip / 0x1_0000 == 0xc0a8
}

/// `169.254.0.0/16`.
pub open spec fn v4_is_link_local(ip: u32) -> bool {
    ip / 0x1_0000 == 0xa9fe
}

/// `::1`.
pub open spec fn v6_is_loopback(ip: u128) -> bool {
    ip == 1
}

/// The first 16-bit segment of an IPv6 address.
pub open spec fn v6_first_segment(ip: u128) -> u128 {
    ip / 0x1_0000_0000_0000_0000_0000_0000_0000
}

/// The address with the first segment cleared.
pub open spec fn v6_rest(ip: u128) -> u128 {
    ip % 0x1_0000_0000_0000_0000_0000_0000_0000
}

/// Dial preference: loopback (IPv4, then IPv6), then IPv4 LAN (private and
/// link-local), then global unicast and everything else, then `fe80::1`, and
/// other IPv6 link-local (`fe80:…`) last.
pub open spec fn addr_tier(a: ConnectAddr) -> int {
    match a {
        ConnectAddr::V4 { ip, .. } => {
            if v4_is_loopback(ip) {
                0
            } else if v4_is_private(ip) || v4_is_link_local(ip) {
                2
            } else {
                3
            }
        },
        ConnectAddr::V6 { ip, .. } => {
            if v6_is_loopback(ip) {
                1
            } else if v6_first_segment(ip) == 0xfe80 {
                if v6_rest(ip) == 1 {
                    4
                } else {
                    5
                }
            } else {
                3
            }
        },
    }
}

/// The sort key of an address: its tier, then the address itself in the
/// order of `SocketAddr` (IPv4 before IPv6, then ip, port, flow info, scope).
pub struct SortKey {
    pub tier: int,
    pub family: int,
    pub ip: int,
    pub port: int,
    pub flowinfo: int,
    pub scope_id: int,
}

pub open spec fn addr_key(a: ConnectAddr) -> SortKey {
    match a {
        ConnectAddr::V4 { ip, port } => SortKey {
            tier: addr_tier(a),
            family: 0,
            ip: ip as int,
            port: port as int,
            flowinfo: 0,
            scope_id: 0,
        },
        ConnectAddr::V6 { ip, port, flowinfo, scope_id } => SortKey {
            tier: addr_tier(a),
            family: 1,
            ip: ip as int,
            port: port as int,
            flowinfo: flowinfo as int,
            scope_id: scope_id as int,
        },
    }
}

/// Lexicographic "strictly before" on sort keys.
pub open spec fn key_lt(a: SortKey, b: SortKey) -> bool {
    ||| a.tier < b.tier
    ||| a.tier == b.tier && a.family < b.family
    ||| a.tier == b.tier && a.family == b.family && a.ip < b.ip
    ||| a.tier == b.tier && a.family == b.family && a.ip == b.ip && a.port < b.port
    ||| a.tier == b.tier && a.family == b.family && a.ip == b.ip && a.port == b.port && a.flowinfo
        < b.flowinfo
    ||| a.tier == b.tier && a.family == b.family && a.ip == b.ip && a.port == b.port && a.flowinfo
        == b.flowinfo && a.scope_id < b.scope_id
}

/// `a` is dialed before `b`.
pub open spec fn addr_before(a: ConnectAddr, b: ConnectAddr) -> bool {
    key_lt(addr_key(a), addr_key(b))
}

/// No address in `s` is dialed before one that precedes it.
pub open spec fn addrs_sorted(s: Seq<ConnectAddr>) -> bool {
    forall|i: int, j: int| 0 <= i < j < s.len() ==> !addr_before(#[trigger] s[j], #[trigger] s[i])
}

/// Different addresses have different sort keys, and of two different keys
/// one comes first.
proof fn lemma_key_total(x: ConnectAddr, y: ConnectAddr)
    requires
        x != y,
    ensures
        addr_before(x, y) || addr_before(y, x),
{
}

/// The dial order is fully determined: two sorted arrangements of the same
/// addresses are the same sequence.
pub proof fn lemma_dial_order_unique(a: Seq<ConnectAddr>, b: Seq<ConnectAddr>)
    requires
        addrs_sorted(a),
        addrs_sorted(b),
        a.to_multiset() == b.to_multiset(),
    ensures
        a == b,
    decreases a.len(),
{
    broadcast use vstd::seq_lib::to_multiset_contains;

    vstd::seq_lib::to_multiset_len(a);
    vstd::seq_lib::to_multiset_len(b);
    if a.len() > 0 {
        assert(a.contains(a[0]));
        assert(b.to_multiset().contains(a[0]));
        assert(b.contains(a[0]));
        assert(b.contains(b[0]));
        assert(a.to_multiset().contains(b[0]));
        assert(a.contains(b[0]));
        let i = choose|i: int| 0 <= i < b.len() && b[i] == a[0];
        let j = choose|j: int| 0 <= j < a.len() && a[j] == b[0];
        if a[0] != b[0] {
            lemma_key_total(a[0], b[0]);
            assert(i != 0 && j != 0);
            assert(!addr_before(b[i], b[0]));
            assert(!addr_before(a[j], a[0]));
        }
        vstd::seq_lib::to_multiset_remove(a, 0);
        vstd::seq_lib::to_multiset_remove(b, 0);
        assert(a.remove(0) =~= a.drop_first());
        assert(b.remove(0) =~= b.drop_first());
        assert(addrs_sorted(a.drop_first()));
        assert(addrs_sorted(b.drop_first()));
        lemma_dial_order_unique(a.drop_first(), b.drop_first());
        assert forall|k: int| 0 <= k < a.len() implies a[k] == b[k] by {
            if k > 0 {
                assert(a[k] == a.drop_first()[k - 1]);
                assert(b[k] == b.drop_first()[k - 1]);
            }
        }
        assert(a =~= b);
    } else {
        assert(a =~= b);
    }
}

/// Every IPv4 loopback address (`127.0.0.0/8`, first octet 127) is dialed
/// first: in a sorted list, whatever precedes such an address is one as well.
pub proof fn lemma_loopback_dialed_first(s: Seq<ConnectAddr>, i: int, j: int)
    requires
        addrs_sorted(s),
        0 <= i < j < s.len(),
        s[j] matches ConnectAddr::V4 { ip, .. } && ip / 0x100_0000 == 127,
    ensures
        s[i] matches ConnectAddr::V4 { ip, .. } && ip / 0x100_0000 == 127,
{
    assert(!addr_before(s[j], s[i]));
}

/// An IPv4 loopback address (first octet 127) is dialed before every address
/// that is not one.
pub proof fn lemma_loopback_before_others(a: ConnectAddr, b: ConnectAddr)
    requires
        a matches ConnectAddr::V4 { ip, .. } && ip / 0x100_0000 == 127,
        !(b matches ConnectAddr::V4 { ip, .. } && ip / 0x100_0000 == 127),
    ensures
        addr_before(a, b),
{
}

/// A sorted list dials in preference order: no address of a later tier comes
/// before one of an earlier tier.
pub proof fn lemma_preference_order(s: Seq<ConnectAddr>, i: int, j: int)
    requires
        addrs_sorted(s),
        0 <= i < j < s.len(),
    ensures
        addr_tier(s[i]) <= addr_tier(s[j]),
{
    assert(!addr_before(s[j], s[i]));
}

/// The tier of an address (see [`addr_tier`]).
pub fn connect_addr_tier(a: &ConnectAddr) -> (t: u8)
    ensures
        t as int == addr_tier(*a),
        (a matches ConnectAddr::V4 { ip, .. } && ip / 0x100_0000 == 127) <==> t == 0,
{
    match *a {
        ConnectAddr::V4 { ip, .. } => {
            if ip / 0x100_0000 == 127 {
                0
            } else if ip / 0x100_0000 == 10 || ip / 0x10_0000 == 0xac1 || ip / 0x1_0000 == 0xc0a8
                || ip / 0x1_0000 == 0xa9fe {
                2
            } else {
                3
            }
        },
        ConnectAddr::V6 { ip, .. } => {
            if ip == 1 {
                1
            } else if ip / 0x1_0000_0000_0000_0000_0000_0000_0000 == 0xfe80 {
                if ip % 0x1_0000_0000_0000_0000_0000_0000_0000 == 1 {
                    4
                } else {
                    5
                }
            } else {
                3
            }
        },
    }
}

/// Whether `a` is dialed before `b`.
pub fn dialed_before(a: &ConnectAddr, b: &ConnectAddr) -> (r: bool)
    ensures
        r == addr_before(*a, *b),
{
    let ta = connect_addr_tier(a);
    let tb = connect_addr_tier(b);
    if ta != tb {
        return ta < tb;
    }
    match (*a, *b) {
        (ConnectAddr::V4 { .. }, ConnectAddr::V6 { .. }) => true,
        (ConnectAddr::V6 { .. }, ConnectAddr::V4 { .. }) => false,
        (ConnectAddr::V4 { ip: ia, port: pa }, ConnectAddr::V4 { ip: ib, port: pb }) => {
            ia < ib || (ia == ib && pa < pb)
        },
        (
            ConnectAddr::V6 { ip: ia, port: pa, flowinfo: fa, scope_id: sa },
            ConnectAddr::V6 { ip: ib, port: pb, flowinfo: fb, scope_id: sb },
        ) => {
            if ia != ib {
                ia < ib
            } else if pa != pb {
                pa < pb
            } else if fa != fb {
                fa < fb
            } else {
                sa < sb
            }
        },
    }
}

/// Orders resolved addresses for dialing: by tier (see [`addr_tier`]), then by
/// address. The result holds the same addresses, each as often as in `addrs`.
pub fn sort_connect_addrs(addrs: Vec<ConnectAddr>) -> (sorted: Vec<ConnectAddr>)
    ensures
        sorted@.to_multiset() == addrs@.to_multiset(),
        sorted@.len() == addrs@.len(),
        addrs_sorted(sorted@),
{
    let mut out: Vec<ConnectAddr> = Vec::new();
    let n = addrs.len();
    let mut i: usize = 0;
    while i < n
        invariant
            i <= n,
            n == addrs@.len(),
            out@.to_multiset() == addrs@.take(i as int).to_multiset(),
            out@.len() == i,
            addrs_sorted(out@),
        decreases n - i,
    {
        let x = addrs[i];
        let mut p: usize = out.len();
        while p > 0
            invariant
                p <= out@.len(),
                addrs_sorted(out@),
                forall|k: int| p <= k < out@.len() ==> addr_before(x, #[trigger] out@[k]),
            ensures
                p <= out@.len(),
                forall|k: int| p <= k < out@.len() ==> addr_before(x, #[trigger] out@[k]),
                p == 0 || !addr_before(x, out@[p - 1]),
            decreases p,
        {
            if dialed_before(&x, &out[p - 1]) {
                p = p - 1;
            } else {
                break;
            }
        }
        let ghost before = out@;
        proof {
            assert(addrs@.take(i + 1) =~= addrs@.take(i as int).push(x));
            vstd::seq_lib::to_multiset_insert(before, p as int, x);
            vstd::seq_lib::to_multiset_build(addrs@.take(i as int), x);
        }
        out.insert(p, x);
        proof {
            assert forall|a: int, b: int| 0 <= a < b < out@.len() implies !addr_before(
                #[trigger] out@[b],
                #[trigger] out@[a],
            ) by {
                if a < p as int && b > p as int {
                    assert(out@[a] == before[a]);
                    assert(out@[b] == before[b - 1]);
                    if p > 0 {
                        assert(!addr_before(x, before[p - 1]));
                    }
                } else if a < p as int && b == p as int {
                    assert(!addr_before(x, before[p - 1]));
                } else if a == p as int {
                    assert(out@[b] == before[b - 1]);
                }
            }
        }
        i = i + 1;
    }
    assert(addrs@.take(n as int) =~= addrs@);
    out
}

/// The QUIC keep-alive interval in ms: the requested interval, at least 10 ms
/// with WLAN tuning on and at least 250 ms without.
pub fn keep_alive_interval_ms(wlan: &WlanOptimization) -> (ms: u32)
    ensures
        ms == if wlan.enabled != 0 {
            if wlan.keep_alive_interval_ms < 10 {
                10
            } else {
                wlan.keep_alive_interval_ms
            }
        } else {
            if wlan.keep_alive_interval_ms < 250 {
                250
            } else {
                wlan.keep_alive_interval_ms
            }
        },
{
    let floor: u32 = if wlan.enabled != 0 {
        10
    } else {
        250
    };
    if wlan.keep_alive_interval_ms < floor {
        floor
    } else {
        wlan.keep_alive_interval_ms
    }
}

/// A configured path: absent and empty values count as unset.
pub open spec fn configured(raw: Option<Seq<char>>) -> Option<Seq<char>> {
    match raw {
        Some(v) => if v.len() > 0 {
            Some(v)
        } else {
            None
        },
        None => None,
    }
}

fn configured_value(raw: Option<String>) -> (r: Option<String>)
    ensures
        opt_view(r) == configured(opt_view(raw)),
{
    match raw {
        Some(v) => if v.as_str().is_empty() {
            None
        } else {
            Some(v)
        },
        None => None,
    }
}

/// The trust-anchor PEM path for QUIC clients, from the raw value of
/// `NGMT_TLS_TRUST_ANCHOR_PEM`: when set, clients verify the server against it;
/// when unset, clients stay in lab mode.
pub fn tls_trust_anchor_pem_path(raw: Option<String>) -> (p: Option<String>)
    ensures
        opt_view(p) == configured(opt_view(raw)),
{
    configured_value(raw)
}

/// The server certificate and key PEM paths, from the raw values of
/// `NGMT_TLS_SERVER_CERT_PEM` and `NGMT_TLS_SERVER_KEY_PEM`: both or neither
/// must be set; neither means a generated lab certificate.
pub fn tls_server_pem_paths(cert_raw: Option<String>, key_raw: Option<String>) -> (r: Result<
    Option<(String, String)>,
    String,
>)
    ensures
        match (configured(opt_view(cert_raw)), configured(opt_view(key_raw))) {
            (Some(c), Some(k)) => r matches Ok(Some(p)) && p.0@ == c && p.1@ == k,
            (None, None) => r matches Ok(None),
            _ => r matches Err(m) && m@
                == "TLS: set both NGMT_TLS_SERVER_CERT_PEM and NGMT_TLS_SERVER_KEY_PEM, or neither (use rcgen lab certs)"@,
        },
{
    let cert = configured_value(cert_raw);
    let key = configured_value(key_raw);
    match (cert, key) {
        (Some(c), Some(k)) => Ok(Some((c, k))),
        (None, None) => Ok(None),
        _ => Err(
            "TLS: set both NGMT_TLS_SERVER_CERT_PEM and NGMT_TLS_SERVER_KEY_PEM, or neither (use rcgen lab certs)".to_owned(),
        ),
    }
}

/// The ALPN protocol id of NGMT, offered by clients and servers alike.
pub open spec fn ngmt_alpn_id() -> Seq<u8> {
    seq![0x6eu8, 0x67u8, 0x6du8, 0x74u8]
}

/// The ALPN protocol id of NGMT: the bytes of `ngmt`.
pub fn ngmt_alpn() -> (id: Vec<u8>)
    ensures
        id@ == ngmt_alpn_id(),
{
    let mut id: Vec<u8> = Vec::new();
    id.push(0x6e);
    id.push(0x67);
    id.push(0x6d);
    id.push(0x74);
    assert(id@ =~= ngmt_alpn_id());
    id
}

/// Per-address QUIC handshake wait, in ms: a dead path fails fast instead of
/// waiting for the idle timeout on each candidate.
pub const CONNECT_HANDSHAKE_TIMEOUT_MS: u64 = 3000;

/// How one connect attempt failed.
pub enum AttemptFailure {
    /// The endpoint refused to start the attempt, with its message.
    Refused(String),
    /// The handshake failed, with its message.
    Handshake(String),
    /// The handshake took longer than [`CONNECT_HANDSHAKE_TIMEOUT_MS`].
    TimedOut,
}

/// The message recorded for a failed attempt.
pub open spec fn failure_message(f: AttemptFailure) -> Seq<char> {
    match f {
        AttemptFailure::Refused(m) => m@,
        AttemptFailure::Handshake(m) => m@,
        AttemptFailure::TimedOut => "handshake timed out after 3000 ms"@,
    }
}

/// How one attempt ended.
pub enum AttemptOutcome {
    /// The handshake succeeded.
    Connected,
    Failed(AttemptFailure),
}

/// What a connect does next.
#[derive(Debug, PartialEq, Eq)]
pub enum ConnectAction {
    /// Try this address.
    Try(ConnectAddr),
    /// Keep the connection just made.
    Finish,
    /// Every address failed; report this message.
    GiveUp(String),
}

/// A connect over every resolved address in dial order: each address is tried
/// once, the first handshake that succeeds wins, and when all fail the last
/// failure is reported.
pub struct ConnectPlan {
    addrs: Vec<ConnectAddr>,
    next: usize,
    last_err: String,
}

impl ConnectPlan {
    /// The addresses, in the order they are tried.
    pub closed spec fn order(&self) -> Seq<ConnectAddr> {
        self.addrs@
    }

    /// How many addresses have been handed out.
    pub closed spec fn tried(&self) -> nat {
        self.next as nat
    }

    /// The message reported if no address is left.
    pub closed spec fn last_error(&self) -> Seq<char> {
        self.last_err@
    }

    /// No more addresses handed out than there are.
    #[verifier::type_invariant]
    spec fn within_order(&self) -> bool {
        self.next <= self.addrs@.len()
    }

    /// A plan over the resolved addresses, or the error of an empty resolve.
    pub fn new(resolved: Vec<ConnectAddr>) -> (r: Result<ConnectPlan, String>)
        ensures
            resolved@.len() == 0 <==> r is Err,
            r matches Err(m) ==> m@ == "DNS lookup returned no addresses"@,
            r matches Ok(p) ==> {
                &&& p.tried() == 0
                &&& p.order().to_multiset() == resolved@.to_multiset()
                &&& addrs_sorted(p.order())
                &&& p.last_error() == "no connection attempts"@
            },
    {
        if resolved.len() == 0 {
            return Err("DNS lookup returned no addresses".to_owned());
        }
        let addrs = sort_connect_addrs(resolved);
        Ok(ConnectPlan { addrs, next: 0, last_err: "no connection attempts".to_owned() })
    }

    /// The addresses in the order they are tried.
    pub fn addrs(&self) -> (a: &Vec<ConnectAddr>)
        ensures
            a@ == self.order(),
    {
        &self.addrs
    }

    /// The next address to try, if any is left.
    pub fn next_addr(&mut self) -> (a: Option<ConnectAddr>)
        ensures
            old(self).tried() <= old(self).order().len(),
            final(self).tried() <= final(self).order().len(),
            final(self).order() == old(self).order(),
            final(self).last_error() == old(self).last_error(),
            old(self).tried() < old(self).order().len() ==> a == Some(
                old(self).order()[old(self).tried() as int],
            ) && final(self).tried() == old(self).tried() + 1,
            old(self).tried() == old(self).order().len() ==> a is None && final(self).tried()
                == old(self).tried(),
    {
        proof {
            use_type_invariant(&*self);
        }
        if self.next < self.addrs.len() {
            let a = self.addrs[self.next];
            self.next = self.next + 1;
            Some(a)
        } else {
            None
        }
    }

    /// Records a failed attempt.
    pub fn record_failure(&mut self, f: AttemptFailure)
        ensures
            old(self).tried() <= old(self).order().len(),
            final(self).tried() <= final(self).order().len(),
            final(self).order() == old(self).order(),
            final(self).tried() == old(self).tried(),
            final(self).last_error() == failure_message(f),
    {
        proof {
            use_type_invariant(&*self);
        }
        self.last_err = match f {
            AttemptFailure::Refused(m) => m,
            AttemptFailure::Handshake(m) => m,
            AttemptFailure::TimedOut => "handshake timed out after 3000 ms".to_owned(),
        };
    }

    /// The next step of the connect: try the next address in dial order, or,
    /// when none is left, give up with the last recorded failure.
    pub fn advance(&mut self) -> (a: ConnectAction)
        ensures
            old(self).tried() <= old(self).order().len(),
            final(self).tried() <= final(self).order().len(),
            final(self).order() == old(self).order(),
            final(self).last_error() == old(self).last_error(),
            old(self).tried() < old(self).order().len() ==> a == ConnectAction::Try(
                old(self).order()[old(self).tried() as int],
            ) && final(self).tried() == old(self).tried() + 1,
            old(self).tried() == old(self).order().len() ==> final(self).tried() == old(
                self,
            ).tried() && (a matches ConnectAction::GiveUp(m) && m@ == old(self).last_error()),
    {
        proof {
            use_type_invariant(&*self);
        }
        match self.next_addr() {
            Some(addr) => ConnectAction::Try(addr),
            None => ConnectAction::GiveUp(self.last_err.clone()),
        }
    }

    /// The step after an attempt: a handshake that succeeded ends the connect
    /// with that connection, so no later address is tried; a failure is
    /// recorded and the connect moves on as [`Self::advance`] does.
    pub fn after_attempt(&mut self, outcome: AttemptOutcome) -> (a: ConnectAction)
        ensures
            old(self).tried() <= old(self).order().len(),
            final(self).tried() <= final(self).order().len(),
            final(self).order() == old(self).order(),
            outcome is Connected ==> a == ConnectAction::Finish && final(self).tried() == old(
                self,
            ).tried() && final(self).last_error() == old(self).last_error(),
            outcome matches AttemptOutcome::Failed(f) ==> {
                &&& final(self).last_error() == failure_message(f)
                &&& old(self).tried() < old(self).order().len() ==> a == ConnectAction::Try(
                    old(self).order()[old(self).tried() as int],
                ) && final(self).tried() == old(self).tried() + 1
                &&& old(self).tried() == old(self).order().len() ==> final(self).tried() == old(
                    self,
                ).tried() && (a matches ConnectAction::GiveUp(m) && m@ == failure_message(f))
            },
    {
        proof {
            use_type_invariant(&*self);
        }
        match outcome {
            AttemptOutcome::Connected => ConnectAction::Finish,
            AttemptOutcome::Failed(f) => {
                self.record_failure(f);
                self.advance()
            },
        }
    }

    /// The error once every address failed: the last recorded failure.
    pub fn into_error(self) -> (m: String)
        ensures
            m@ == self.last_error(),
    {
        self.last_err
    }
}

#[verifier::external_type_specification]
#[verifier::external_body]
pub struct ExTransportConfig(quinn::TransportConfig);

#[verifier::external_type_specification]
#[verifier::external_body]
pub struct ExIdleTimeout(quinn::IdleTimeout);

#[verifier::external_type_specification]
#[verifier::external_body]
pub struct ExBbrConfig(quinn::congestion::BbrConfig);

/// The idle timeout, in ms, that the quinn transport configuration `t` holds.
pub uninterp spec fn quic_idle_timeout_ms(t: quinn::TransportConfig) -> Option<u64>;

/// The keep-alive interval, in ms, that `t` holds.
pub uninterp spec fn quic_keep_alive_ms(t: quinn::TransportConfig) -> Option<u64>;

/// The datagram send buffer size, in bytes, that `t` holds.
pub uninterp spec fn quic_datagram_send_buffer(t: quinn::TransportConfig) -> usize;

/// The datagram receive buffer size, in bytes, that `t` holds.
pub uninterp spec fn quic_datagram_receive_buffer(t: quinn::TransportConfig) -> Option<usize>;

/// Whether the congestion controller factory that `t` holds is a BBR configuration.
pub uninterp spec fn quic_controller_is_bbr(t: quinn::TransportConfig) -> bool;

/// The duration, in ms, of a quinn idle timeout.
pub uninterp spec fn idle_timeout_value_ms(v: quinn::IdleTimeout) -> u64;

/// Calls `quinn::TransportConfig::default`, which holds a 30 s idle timeout, no
/// keep-alive, a 1 MiB datagram send buffer, a 1 250 000-byte datagram
/// receive buffer and a Cubic (not BBR) congestion controller.
#[verifier::external_body]
fn new_transport_config() -> (t: quinn::TransportConfig)
    ensures
        quic_idle_timeout_ms(t) == Some(30_000u64),
        quic_keep_alive_ms(t) == None::<u64>,
        quic_datagram_send_buffer(t) == 1024 * 1024,
        quic_datagram_receive_buffer(t) == Some(1_250_000usize),
        !quic_controller_is_bbr(t),
{
    quinn::TransportConfig::default()
}

/// Calls `quinn::IdleTimeout::try_from` on a duration of `ms` milliseconds,
/// which succeeds for every duration below 2^62 ms and holds that duration.
#[verifier::external_body]
fn idle_timeout_ms(ms: u64) -> (v: quinn::IdleTimeout)
    requires
        ms < 0x4000_0000_0000_0000,
    ensures
        idle_timeout_value_ms(v) == ms,
{
    quinn::IdleTimeout::try_from(std::time::Duration::from_millis(ms)).expect("idle timeout below 2^62 ms")
}

/// Calls `quinn::TransportConfig::max_idle_timeout` with `Some(timeout)`, which
/// stores it and changes no other setting.
#[verifier::external_body]
fn set_max_idle_timeout(t: &mut quinn::TransportConfig, timeout: quinn::IdleTimeout)
    ensures
        quic_idle_timeout_ms(*final(t)) == Some(idle_timeout_value_ms(timeout)),
        quic_keep_alive_ms(*final(t)) == quic_keep_alive_ms(*old(t)),
        quic_datagram_send_buffer(*final(t)) == quic_datagram_send_buffer(*old(t)),
        quic_datagram_receive_buffer(*final(t)) == quic_datagram_receive_buffer(*old(t)),
        quic_controller_is_bbr(*final(t)) == quic_controller_is_bbr(*old(t)),
{
    t.max_idle_timeout(Some(timeout));
}

/// Calls `quinn::TransportConfig::keep_alive_interval` with `Some` of `ms`
/// milliseconds, which stores it and changes no other setting.
#[verifier::external_body]
fn set_keep_alive_interval_ms(t: &mut quinn::TransportConfig, ms: u64)
    ensures
        quic_keep_alive_ms(*final(t)) == Some(ms),
        quic_idle_timeout_ms(*final(t)) == quic_idle_timeout_ms(*old(t)),
        quic_datagram_send_buffer(*final(t)) == quic_datagram_send_buffer(*old(t)),
        quic_datagram_receive_buffer(*final(t)) == quic_datagram_receive_buffer(*old(t)),
        quic_controller_is_bbr(*final(t)) == quic_controller_is_bbr(*old(t)),
{
    t.keep_alive_interval(Some(std::time::Duration::from_millis(ms)));
}

/// Calls `quinn::TransportConfig::datagram_send_buffer_size`, which stores it
/// and changes no other setting.
#[verifier::external_body]
fn set_datagram_send_buffer_size(t: &mut quinn::TransportConfig, bytes: usize)
    ensures
        quic_datagram_send_buffer(*final(t)) == bytes,
        quic_idle_timeout_ms(*final(t)) == quic_idle_timeout_ms(*old(t)),
        quic_keep_alive_ms(*final(t)) == quic_keep_alive_ms(*old(t)),
        quic_datagram_receive_buffer(*final(t)) == quic_datagram_receive_buffer(*old(t)),
        quic_controller_is_bbr(*final(t)) == quic_controller_is_bbr(*old(t)),
{
    t.datagram_send_buffer_size(bytes);
}

/// Calls `quinn::TransportConfig::datagram_receive_buffer_size` with
/// `Some(bytes)`, which stores it and changes no other setting.
#[verifier::external_body]
fn set_datagram_receive_buffer_size(t: &mut quinn::TransportConfig, bytes: usize)
    ensures
        quic_datagram_receive_buffer(*final(t)) == Some(bytes),
        quic_idle_timeout_ms(*final(t)) == quic_idle_timeout_ms(*old(t)),
        quic_keep_alive_ms(*final(t)) == quic_keep_alive_ms(*old(t)),
        quic_datagram_send_buffer(*final(t)) == quic_datagram_send_buffer(*old(t)),
        quic_controller_is_bbr(*final(t)) == quic_controller_is_bbr(*old(t)),
{
    t.datagram_receive_buffer_size(Some(bytes));
}

/// Calls `quinn::congestion::BbrConfig::default`.
#[verifier::external_body]
fn new_bbr_config() -> quinn::congestion::BbrConfig {
    quinn::congestion::BbrConfig::default()
}

/// Calls `quinn::TransportConfig::congestion_controller_factory` with the BBR
/// configuration, which stores it and changes no other setting.
#[verifier::external_body]
fn set_congestion_controller(t: &mut quinn::TransportConfig, bbr: quinn::congestion::BbrConfig)
    ensures
        quic_controller_is_bbr(*final(t)),
        quic_idle_timeout_ms(*final(t)) == quic_idle_timeout_ms(*old(t)),
        quic_keep_alive_ms(*final(t)) == quic_keep_alive_ms(*old(t)),
        quic_datagram_send_buffer(*final(t)) == quic_datagram_send_buffer(*old(t)),
        quic_datagram_receive_buffer(*final(t)) == quic_datagram_receive_buffer(*old(t)),
{
    t.congestion_controller_factory(std::sync::Arc::new(bbr));
}

/// Idle timeout of a QUIC connection, in ms.
pub const IDLE_TIMEOUT_MS: u64 = 30_000;

/// Datagram send and receive buffer size, in bytes.
pub const DATAGRAM_BUFFER_BYTES: usize = 4 * 1024 * 1024;

/// The congestion controller of a QUIC path.
#[derive(Clone, Copy, Debug, PartialEq, Eq)]
pub enum CongestionControl {
    Bbr,
}

/// The QUIC transport settings of an endpoint, as plain values.
#[derive(Clone, Copy, Debug, PartialEq, Eq)]
pub struct TransportSettings {
    /// Idle timeout of a connection, in ms.
    pub idle_timeout_ms: u64,
    /// Keep-alive interval, in ms.
    pub keep_alive_ms: u64,
    /// Datagram send buffer, in bytes.
    pub datagram_send_buffer: usize,
    /// Datagram receive buffer, in bytes.
    pub datagram_receive_buffer: usize,
    pub congestion: CongestionControl,
}

/// The transport settings for `wlan`: a 30 s idle timeout, the keep-alive
/// interval of [`keep_alive_interval_ms`], 4 MiB datagram buffers each way and
/// BBR congestion control.
pub fn transport_settings(wlan: &WlanOptimization) -> (s: TransportSettings)
    ensures
        s.idle_timeout_ms == 30_000,
        s.keep_alive_ms == (if wlan.enabled != 0 {
            if wlan.keep_alive_interval_ms < 10 {
                10
            } else {
                wlan.keep_alive_interval_ms
            }
        } else {
            if wlan.keep_alive_interval_ms < 250 {
                250
            } else {
                wlan.keep_alive_interval_ms
            }
        }),
        s.datagram_send_buffer == 4 * 1024 * 1024,
        s.datagram_receive_buffer == 4 * 1024 * 1024,
        s.congestion == CongestionControl::Bbr,
{
    TransportSettings {
        idle_timeout_ms: IDLE_TIMEOUT_MS,
        keep_alive_ms: keep_alive_interval_ms(wlan) as u64,
        datagram_send_buffer: DATAGRAM_BUFFER_BYTES,
        datagram_receive_buffer: DATAGRAM_BUFFER_BYTES,
        congestion: CongestionControl::Bbr,
    }
}

/// `t` holds the settings `s`.
pub open spec fn config_holds(t: quinn::TransportConfig, s: TransportSettings) -> bool {
    &&& quic_idle_timeout_ms(t) == Some(s.idle_timeout_ms)
    &&& quic_keep_alive_ms(t) == Some(s.keep_alive_ms)
    &&& quic_datagram_send_buffer(t) == s.datagram_send_buffer
    &&& quic_datagram_receive_buffer(t) == Some(s.datagram_receive_buffer)
    &&& quic_controller_is_bbr(t) == (s.congestion == CongestionControl::Bbr)
}

/// quinn's transport configuration holding the settings `s`: each field is
/// handed to the quinn setter of that setting.
pub fn transport_config_from(s: &TransportSettings) -> (t: quinn::TransportConfig)
    requires
        s.idle_timeout_ms < 0x4000_0000_0000_0000,
    ensures
        config_holds(t, *s),
{
    let mut t = new_transport_config();
    set_max_idle_timeout(&mut t, idle_timeout_ms(s.idle_timeout_ms));
    set_keep_alive_interval_ms(&mut t, s.keep_alive_ms);
    set_datagram_send_buffer_size(&mut t, s.datagram_send_buffer);
    set_datagram_receive_buffer_size(&mut t, s.datagram_receive_buffer);
    match s.congestion {
        CongestionControl::Bbr => set_congestion_controller(&mut t, new_bbr_config()),
    }
    t
}

/// quinn's transport configuration for `wlan`: the settings of
/// [`transport_settings`], handed to quinn by [`transport_config_from`].
pub fn build_transport_config(wlan: &WlanOptimization) -> (t: quinn::TransportConfig)
    ensures
        quic_idle_timeout_ms(t) == Some(30_000u64),
        quic_keep_alive_ms(t) == Some(
            (if wlan.enabled != 0 {
                if wlan.keep_alive_interval_ms < 10 {
                    10
                } else {
                    wlan.keep_alive_interval_ms
                }
            } else {
                if wlan.keep_alive_interval_ms < 250 {
                    250
                } else {
                    wlan.keep_alive_interval_ms
                }
            }) as u64,
        ),
        quic_datagram_send_buffer(t) == DATAGRAM_BUFFER_BYTES,
        quic_datagram_receive_buffer(t) == Some(DATAGRAM_BUFFER_BYTES),
        quic_controller_is_bbr(t),
{
    let s = transport_settings(wlan);
    transport_config_from(&s)
}

} // verus!

//! What the proxy does with one request: the decision is made here, on
//! plain values; accepting connections, dialling and relaying bytes is the
//! caller's part.
//!
//! The order is fixed: the block decision comes before the classifier's
//! suggestion, and both come before any byte is forwarded. A blocked request
//! is answered and never reaches the network.

use crate::ai_tracker::features_of;
use crate::shared_state::{lemma_logged_none, lemma_logged_then, logged, recorded, SharedState};
use crate::text::{
    chars_of, decimal, decimal_digits, ends_with, followed_by, lowercase, push_chars, push_str,
    same_chars, string_from_chars,
};
use crate::tracker_blocker::{blocks, covers};
use crate::url_parts::text_view;
use vstd::prelude::*;

verus! {

/// The status of the answer to a `CONNECT` without an authority.
pub const STATUS_BAD_REQUEST: u16 = 400;

/// The status of the answer to a blocked request.
pub const STATUS_FORBIDDEN: u16 = 403;

/// The status of the answer when the upstream server fails.
pub const STATUS_BAD_GATEWAY: u16 = 502;

/// The status of the answer while the proxy is off.
pub const STATUS_SERVICE_UNAVAILABLE: u16 = 503;

/// The port of a request that names none.
pub const DEFAULT_PORT: u16 = 80;

/// One request as the proxy sees it.
#[derive(Debug)]
pub struct ProxyRequest {
    pub method: String,
    /// The host of the request target; `unknown-host` where it names none.
    pub host: String,
    pub path: String,
    /// Host and port of the request target, where it has them.
    pub authority: Option<String>,
    pub port: Option<u16>,
    /// The request target as it was sent.
    pub url: String,
    /// The `Referer` header, where the request has one.
    pub referer: Option<String>,
    /// The Shannon entropy of `host`, in thousandths of a bit.
    pub host_entropy: u32,
}

/// What the proxy is to do with a request.
#[derive(Debug)]
pub enum ProxyAction {
    /// Answer with `status` and `body`; nothing goes to the network.
    Respond { status: u16, body: String },
    /// Answer with an empty success, then relay bytes between the client and
    /// `authority` in both directions. Failures of the relay are reported
    /// with `tunnel_failed` where `log_failures` holds.
    Tunnel { authority: String, log_failures: bool },
    /// Send the request to `address` and hand the answer back.
    Forward { address: String },
}

/// The content of a `ProxyAction`.
pub enum ActionModel {
    Respond { status: u16, body: Seq<char> },
    Tunnel { authority: Seq<char>, log_failures: bool },
    Forward { address: Seq<char> },
}

impl View for ProxyAction {
    type V = ActionModel;

    open spec fn view(&self) -> ActionModel {
        match self {
            ProxyAction::Respond { status, body } => ActionModel::Respond {
                status: *status,
                body: body@,
            },
            ProxyAction::Tunnel { authority, log_failures } => ActionModel::Tunnel {
                authority: authority@,
                log_failures: *log_failures,
            },
            ProxyAction::Forward { address } => ActionModel::Forward { address: address@ },
        }
    }
}

/// The stage at which the upstream server failed.
#[derive(Clone, Copy, Debug, PartialEq, Eq, Structural)]
pub enum UpstreamFailure {
    /// No connection could be made.
    Connect,
    /// The connection was made, the HTTP handshake failed.
    Handshake,
    /// The request could not be sent.
    Send,
}

/// The stage at which a tunnel failed.
#[derive(Clone, Copy, Debug, PartialEq, Eq, Structural)]
pub enum TunnelFailure {
    /// The connection could not be upgraded to a raw byte stream.
    Upgrade,
    /// Dialling the authority or relaying bytes failed.
    Relay,
}

impl ProxyRequest {
    /// The request uses the method `CONNECT`.
    pub open spec fn is_connect(&self) -> bool {
        self.method@ == "CONNECT"@
    }

    /// The line that logs the request: method, host and path.
    pub open spec fn log_line(&self) -> Seq<char> {
        self.method@ + seq![' '] + self.host@ + seq![' '] + self.path@
    }

    /// The address to forward to: host, colon, and the port or 80.
    pub open spec fn address(&self) -> Seq<char> {
        self.host@ + seq![':'] + decimal(
            match self.port {
                Some(p) => p as nat,
                None => DEFAULT_PORT as nat,
            },
        )
    }

    /// The request is blocked: the proxy is on and the blocklist covers the
    /// host.
    pub open spec fn is_blocked(&self, state: &SharedState) -> bool {
        state.proxy_enabled && blocks(state.blocker@.domains, self.host@)
    }

    /// The request is shown to the classifier: the proxy is on and the
    /// request is not blocked.
    pub open spec fn is_classified(&self, state: &SharedState) -> bool {
        state.proxy_enabled && !blocks(state.blocker@.domains, self.host@)
    }

    /// The classifier's verdict on the request.
    pub open spec fn is_flagged(&self, state: &SharedState) -> bool {
        self.is_classified(state) && state.ai_tracker@.verdict(
            self.url@,
            self.host@,
            features_of(self.url@, self.host@, text_view(self.referer), self.host_entropy),
        )
    }

    /// The request can be counted where it enters the statistics.
    pub open spec fn count_fits(&self, state: &SharedState) -> bool {
        self.is_counted(state) ==> state.has_room(self.host@, self.is_blocked(state))
    }

    /// A detection can be counted where the request can lead to one: where
    /// it is shown to the classifier and the classifier has no verdict for
    /// its URL yet.
    pub open spec fn detection_fits(&self, state: &SharedState) -> bool {
        self.is_classified(state) && state.ai_tracker@.may_count(self.url@)
            ==> state.ai_tracker@.detections < usize::MAX
    }

    /// The request enters the statistics: every request but a `CONNECT`
    /// that arrives while the proxy is off or that names no authority.
    pub open spec fn is_counted(&self, state: &SharedState) -> bool {
        if !state.proxy_enabled {
            !self.is_connect()
        } else {
            blocks(state.blocker@.domains, self.host@) || !self.is_connect() || self.authority
                is Some
        }
    }

    /// What the proxy is to do with the request.
    pub open spec fn planned(&self, state: &SharedState) -> ActionModel {
        if !state.proxy_enabled && !self.is_connect() {
            ActionModel::Respond {
                status: STATUS_SERVICE_UNAVAILABLE,
                body: "🔌 Proxy is currently disabled — request blocked"@,
            }
        } else if self.is_blocked(state) {
            ActionModel::Respond {
                status: STATUS_FORBIDDEN,
                body: "🚫 Blocked request to tracker: "@ + self.host@,
            }
        } else if self.is_connect() {
            match self.authority {
                Some(a) => ActionModel::Tunnel {
                    authority: a@,
                    log_failures: state.proxy_enabled,
                },
                None => ActionModel::Respond {
                    status: STATUS_BAD_REQUEST,
                    body: "CONNECT must be to a socket address"@,
                },
            }
        } else {
            ActionModel::Forward { address: self.address() }
        }
    }

    /// What the request adds to the log, in order: its own line where
    /// requests are logged, the block where it is blocked, the suggestion
    /// where the classifier flags a host that is not in the queue.
    pub open spec fn log_entries(&self, state: &SharedState) -> Seq<Seq<char>> {
        (if state.log_enabled {
            seq![self.log_line()]
        } else {
            Seq::<Seq<char>>::empty()
        }) + (if self.is_blocked(state) {
            seq!["🚫 Blocked request to tracker: "@ + self.host@]
        } else {
            Seq::<Seq<char>>::empty()
        }) + (if self.is_flagged(state) && !state.suggestions().contains(self.host@) {
            seq!["🤖 Added domain to AI suggestions: "@ + self.host@]
        } else {
            Seq::<Seq<char>>::empty()
        })
    }

    /// The request with the given parts; a request target without a host
    /// gets the host `unknown-host`. The entropy of the host is set to zero,
    /// for the caller to fill in.
    pub fn new(
        method: &str,
        host: Option<&str>,
        path: &str,
        authority: Option<&str>,
        port: Option<u16>,
        url: &str,
        referer: Option<&str>,
    ) -> (req: Self)
        ensures
            req.method@ == method@,
            req.host@ == match host {
                Some(h) => h@,
                None => "unknown-host"@,
            },
            req.path@ == path@,
            text_view(req.authority) == crate::url_parts::str_view(authority),
            req.port == port,
            req.url@ == url@,
            text_view(req.referer) == crate::url_parts::str_view(referer),
            req.host_entropy == 0,
    {
        ProxyRequest {
            method: method.to_owned(),
            host: match host {
                Some(h) => h.to_owned(),
                None => "unknown-host".to_owned(),
            },
            path: path.to_owned(),
            authority: match authority {
                Some(a) => Some(a.to_owned()),
                None => None,
            },
            port,
            url: url.to_owned(),
            referer: match referer {
                Some(r) => Some(r.to_owned()),
                None => None,
            },
            host_entropy: 0,
        }
    }
}

/// Whether the hub can count what the request adds to: the request itself
/// where it enters the statistics, and a detection where the request is
/// shown to the classifier and can lead to one.
pub fn can_handle(state: &SharedState, req: &ProxyRequest) -> (room: bool)
    requires
        state.wf(),
    ensures
        room == (req.count_fits(state) && req.detection_fits(state)),
{
    let host = req.host.as_str();
    let connect = same_chars(&chars_of(req.method.as_str()), &chars_of("CONNECT"));
    let on = state.is_proxy_enabled();
    let blocked = on && state.blocker.is_blocked(host);
    let counted = if !on {
        !connect
    } else {
        blocked || !connect || req.authority.is_some()
    };
    (!counted || state.can_record(host, blocked)) && (!on || blocked || state.ai_tracker.can_count(
        req.url.as_str(),
    ))
}

/// Decides what to do with `req` and enters the request into the hub.
///
/// While the proxy is off, a `CONNECT` is tunnelled and any other request is
/// answered with 503 and counted as allowed. While it is on, a request to a
/// blocked host is answered with 403 and counted as blocked; any other is
/// shown to the classifier, whose verdict puts the host into the queue of
/// suggestions but changes nothing else; then a `CONNECT` is tunnelled and
/// any other request forwarded, both counted as allowed. A `CONNECT`
/// without an authority is answered with 400.
pub fn proxy(state: &mut SharedState, req: &ProxyRequest) -> (action: ProxyAction)
    requires
        old(state).wf(),
        req.count_fits(old(state)),
        req.detection_fits(old(state)),
    ensures
        final(state).wf(),
        action@ == req.planned(old(state)),
        logged(old(state).log_lines(), final(state).log_lines(), req.log_entries(old(state))),
        final(state).ai_tracker@ == if req.is_classified(old(state)) {
            old(state).ai_tracker@.classified(
                req.url@,
                req.host@,
                features_of(req.url@, req.host@, text_view(req.referer), req.host_entropy),
            )
        } else {
            old(state).ai_tracker@
        },
        final(state).suggestions() == if req.is_flagged(old(state)) && !old(
            state,
        ).suggestions().contains(req.host@) {
            old(state).suggestions().push(req.host@)
        } else {
            old(state).suggestions()
        },
        req.is_counted(old(state)) ==> {
            &&& exists|now: int|
                final(state).domain_stats() == recorded(
                    old(state).domain_stats(),
                    req.host@,
                    req.is_blocked(old(state)),
                    now,
                )
            &&& final(state).blocked_count == old(state).blocked_count + if req.is_blocked(
                old(state),
            ) {
                1int
            } else {
                0
            }
            &&& final(state).allowed_count == old(state).allowed_count + if req.is_blocked(
                old(state),
            ) {
                0int
            } else {
                1
            }
        },
        !req.is_counted(old(state)) ==> {
            &&& final(state).stats == old(state).stats
            &&& final(state).blocked_count == old(state).blocked_count
            &&& final(state).allowed_count == old(state).allowed_count
        },
        *final(state) == (SharedState {
            logs: final(state).logs,
            stats: final(state).stats,
            allowed_count: final(state).allowed_count,
            blocked_count: final(state).blocked_count,
            ai_tracker: final(state).ai_tracker,
            ai_suggested_trackers: final(state).ai_suggested_trackers,
            ..*old(state)
        }),
{
    let host = req.host.as_str();
    let ghost start = state.log_lines();
    let ghost mut entries: Seq<Seq<char>> = Seq::empty();
    proof {
        lemma_logged_none(start);
    }
    if state.is_logging_enabled() {
        let mut line = chars_of(req.method.as_str());
        line.push(' ');
        push_str(&mut line, host);
        line.push(' ');
        push_str(&mut line, req.path.as_str());
        assert(line@ =~= req.log_line());
        state.append_log(string_from_chars(&line));
        proof {
            lemma_logged_then(start, start, state.log_lines(), entries, seq![req.log_line()]);
            entries = entries + seq![req.log_line()];
        }
    }
    let connect = same_chars(&chars_of(req.method.as_str()), &chars_of("CONNECT"));
    if !state.is_proxy_enabled() {
        if connect {
            return match &req.authority {
                Some(a) => ProxyAction::Tunnel { authority: a.clone(), log_failures: false },
                None => ProxyAction::Respond {
                    status: STATUS_BAD_REQUEST,
                    body: "CONNECT must be to a socket address".to_owned(),
                },
            };
        }
        state.record_request(host, false);
        return ProxyAction::Respond {
            status: STATUS_SERVICE_UNAVAILABLE,
            body: "🔌 Proxy is currently disabled — request blocked".to_owned(),
        };
    }
    if state.blocker.is_blocked(host) {
        state.record_request(host, true);
        let message = followed_by("🚫 Blocked request to tracker: ", host);
        let ghost mid = state.log_lines();
        state.append_log(message.clone());
        proof {
            lemma_logged_then(start, mid, state.log_lines(), entries, seq![message@]);
            entries = entries + seq![message@];
        }
        return ProxyAction::Respond { status: STATUS_FORBIDDEN, body: message };
    }
    let referer = match &req.referer {
        Some(r) => Some(r.as_str()),
        None => None,
    };
    let flagged = state.ai_tracker.is_likely_tracker(
        req.url.as_str(),
        host,
        referer,
        req.host_entropy,
    );
    if flagged {
        let ghost mid = state.log_lines();
        let ghost known = state.suggestions().contains(host@);
        state.add_ai_suggested_tracker(host);
        proof {
            if !known {
                let entry = "🤖 Added domain to AI suggestions: "@ + host@;
                lemma_logged_then(start, mid, state.log_lines(), entries, seq![entry]);
                entries = entries + seq![entry];
            }
        }
    }
    if connect {
        return match &req.authority {
            Some(a) => {
                state.record_request(host, false);
                ProxyAction::Tunnel { authority: a.clone(), log_failures: true }
            },
            None => ProxyAction::Respond {
                status: STATUS_BAD_REQUEST,
                body: "CONNECT must be to a socket address".to_owned(),
            },
        };
    }
    state.record_request(host, false);
    let port: u16 = match req.port {
        Some(p) => p,
        None => DEFAULT_PORT,
    };
    let mut address = chars_of(host);
    address.push(':');
    let digits = decimal_digits(port as u64);
    push_chars(&mut address, &digits);
    assert(address@ =~= req.address());
    ProxyAction::Forward { address: string_from_chars(&address) }
}

/// The body of the answer when the upstream server failed at `failure`.
pub open spec fn failure_body(failure: UpstreamFailure) -> Seq<char> {
    match failure {
        UpstreamFailure::Connect => "Failed to connect to target host"@,
        UpstreamFailure::Handshake => "Handshake failed"@,
        UpstreamFailure::Send => "Bad Gateway"@,
    }
}

/// The log entry when the upstream server `host` failed at `failure` with
/// the error `detail`.
pub open spec fn failure_entry(
    failure: UpstreamFailure,
    host: Seq<char>,
    detail: Seq<char>,
) -> Seq<char> {
    (match failure {
        UpstreamFailure::Connect => "❌ Failed to connect to "@,
        UpstreamFailure::Handshake => "❌ Handshake failed with "@,
        UpstreamFailure::Send => "❌ Request failed with "@,
    }) + host + ": "@ + detail
}

/// Enters the failure of the upstream server `host` into the log and gives
/// the answer for the client: status 502 and a body that names the stage.
pub fn upstream_failed(
    state: &mut SharedState,
    host: &str,
    failure: UpstreamFailure,
    detail: &str,
) -> (response: (u16, String))
    requires
        old(state).wf(),
    ensures
        final(state).wf(),
        response.0 == STATUS_BAD_GATEWAY,
        response.1@ == failure_body(failure),
        logged(
            old(state).log_lines(),
            final(state).log_lines(),
            seq![failure_entry(failure, host@, detail@)],
        ),
        *final(state) == (SharedState { logs: final(state).logs, ..*old(state) }),
{
    let (prefix, body) = match failure {
        UpstreamFailure::Connect => {
            ("❌ Failed to connect to ", "Failed to connect to target host")
        },
        UpstreamFailure::Handshake => ("❌ Handshake failed with ", "Handshake failed"),
        UpstreamFailure::Send => ("❌ Request failed with ", "Bad Gateway"),
    };
    let mut entry = chars_of(prefix);
    push_str(&mut entry, host);
    push_str(&mut entry, ": ");
    push_str(&mut entry, detail);
    state.append_log(string_from_chars(&entry));
    (STATUS_BAD_GATEWAY, body.to_owned())
}

/// The log entry when the tunnel to `authority` failed at `failure` with
/// the error `detail`.
pub open spec fn tunnel_entry(
    failure: TunnelFailure,
    authority: Seq<char>,
    detail: Seq<char>,
) -> Seq<char> {
    (match failure {
        TunnelFailure::Upgrade => "❌ Upgrade error with "@,
        TunnelFailure::Relay => "❌ Tunnel error with "@,
    }) + authority + ": "@ + detail
}

/// Enters the failure of the tunnel to `authority` into the log.
pub fn tunnel_failed(
    state: &mut SharedState,
    authority: &str,
    failure: TunnelFailure,
    detail: &str,
)
    requires
        old(state).wf(),
    ensures
        final(state).wf(),
        logged(
            old(state).log_lines(),
            final(state).log_lines(),
            seq![tunnel_entry(failure, authority@, detail@)],
        ),
        *final(state) == (SharedState { logs: final(state).logs, ..*old(state) }),
{
    let prefix = match failure {
        TunnelFailure::Upgrade => "❌ Upgrade error with ",
        TunnelFailure::Relay => "❌ Tunnel error with ",
    };
    let mut entry = chars_of(prefix);
    push_str(&mut entry, authority);
    push_str(&mut entry, ": ");
    push_str(&mut entry, detail);
    state.append_log(string_from_chars(&entry));
}

/// Enters into the log that the proxy listens on `address`.
pub fn proxy_started(state: &mut SharedState, address: &str)
    requires
        old(state).wf(),
    ensures
        final(state).wf(),
        logged(
            old(state).log_lines(),
            final(state).log_lines(),
            seq!["🚀 Proxy server started on http://"@ + address@],
        ),
        *final(state) == (SharedState { logs: final(state).logs, ..*old(state) }),
{
    state.append_log(followed_by("🚀 Proxy server started on http://", address));
}

/// Enters into the log that a connection ended with the error `detail`.
pub fn connection_failed(state: &mut SharedState, detail: &str)
    requires
        old(state).wf(),
    ensures
        final(state).wf(),
        logged(
            old(state).log_lines(),
            final(state).log_lines(),
            seq!["❌ Connection error: "@ + detail@],
        ),
        *final(state) == (SharedState { logs: final(state).logs, ..*old(state) }),
{
    state.append_log(followed_by("❌ Connection error: ", detail));
}

/// The block decision comes first: a blocked request is answered with 403,
/// is not shown to the classifier, and nothing of it goes to the network.
pub proof fn lemma_blocked_request_stops(req: ProxyRequest, state: SharedState)
    requires
        req.is_blocked(&state),
    ensures
        req.planned(&state) == (ActionModel::Respond {
            status: STATUS_FORBIDDEN,
            body: "🚫 Blocked request to tracker: "@ + req.host@,
        }),
        !req.is_classified(&state),
        !req.is_flagged(&state),
        req.is_counted(&state),
{
}

/// While the proxy is on, a request to a host that a listed domain covers,
/// itself or as the end of the host after a dot, is answered with 403 and a
/// body that ends with the host, and is counted as blocked.
pub proof fn lemma_listed_host_is_answered_403(
    req: ProxyRequest,
    state: SharedState,
    entry: Seq<char>,
)
    requires
        state.proxy_enabled,
        state.blocker@.domains.contains(entry),
        lowercase(req.host@) == entry || ends_with(lowercase(req.host@), seq!['.'] + entry),
    ensures
        req.is_blocked(&state),
        req.is_counted(&state),
        req.planned(&state) == (ActionModel::Respond {
            status: STATUS_FORBIDDEN,
            body: "🚫 Blocked request to tracker: "@ + req.host@,
        }),
{
    assert(covers(entry, lowercase(req.host@)));
}

/// A domain does not cover a longer host that ends with it without a dot
/// before it.
pub proof fn lemma_lookalike_is_not_covered(entry: Seq<char>, host: Seq<char>)
    requires
        host != entry,
        host.len() > entry.len() ==> host[host.len() - entry.len() - 1] != '.',
    ensures
        !covers(entry, host),
{
    let pattern = seq!['.'] + entry;
    if ends_with(host, pattern) {
        let at = host.len() - pattern.len();
        assert(host.subrange(at, at + pattern.len())[0] == pattern[0]);
    }
}

/// While the proxy is on, a request that is not blocked, is no `CONNECT`
/// and names no port is forwarded to the host at port 80 and counted as
/// allowed.
pub proof fn lemma_passed_request_is_forwarded(req: ProxyRequest, state: SharedState)
    requires
        state.proxy_enabled,
        !blocks(state.blocker@.domains, req.host@),
        !req.is_connect(),
        req.port is None,
    ensures
        !req.is_blocked(&state),
        req.is_counted(&state),
        req.planned(&state) == (ActionModel::Forward {
            address: req.host@ + seq![':', '8', '0'],
        }),
{
    reveal_with_fuel(decimal, 2);
    assert(decimal(80) =~= seq!['8', '0']);
    assert(req.address() =~= req.host@ + seq![':', '8', '0']);
}

/// While the proxy is off, a request that is no `CONNECT` is answered with
/// 503, so that nothing is dialled, and is counted as allowed.
pub proof fn lemma_disabled_proxy_answers_503(req: ProxyRequest, state: SharedState)
    requires
        !state.proxy_enabled,
        !req.is_connect(),
    ensures
        !req.is_blocked(&state),
        !req.is_classified(&state),
        req.is_counted(&state),
        req.planned(&state) == (ActionModel::Respond {
            status: STATUS_SERVICE_UNAVAILABLE,
            body: "🔌 Proxy is currently disabled — request blocked"@,
        }),
{
}

/// The classifier never blocks: whatever its verdict, a request that the
/// blocklist lets pass is tunnelled or forwarded as if there were no
/// classifier.
pub proof fn lemma_verdict_changes_no_action(
    req: ProxyRequest,
    state: SharedState,
    other: SharedState,
)
    requires
        other == (SharedState {
            ai_tracker: other.ai_tracker,
            ai_suggested_trackers: other.ai_suggested_trackers,
            ..state
        }),
    ensures
        req.planned(&other) == req.planned(&state),
{
}

} // verus!

//! What the client makes of a node's replies.

use vstd::prelude::*;
use vstd::string::StringExecFns;
use vstd::string::StrSliceExecFns;

verus! {

/// The kinds of reply a node can send.
#[derive(Debug, Clone, Copy, PartialEq, Eq, Structural)]
pub enum ResponseKind {
    NodeInfo,
    EnrollmentToken,
    RoutingTable,
    LinkQualityTable,
    LinkFeaturesTable,
    KeepaliveTable,
    ResolveRoute,
    OgmSchedule,
    Throughput,
    Metrics,
    Error,
    Empty,
    TrustAnchor,
    SubmitCsr,
    SecurityStatus,
    ListCerts,
    ListPendingCsrs,
    Logs,
    LogFilter,
    AuthenticateUser,
    ListUsers,
    CreateUser,
}

impl ResponseKind {
    /// The kind's name.
    pub open spec fn label(self) -> Seq<char> {
        match self {
            ResponseKind::NodeInfo => "NodeInfo"@,
            ResponseKind::EnrollmentToken => "EnrollmentToken"@,
            ResponseKind::RoutingTable => "RoutingTable"@,
            ResponseKind::LinkQualityTable => "LinkQualityTable"@,
            ResponseKind::LinkFeaturesTable => "LinkFeaturesTable"@,
            ResponseKind::KeepaliveTable => "KeepaliveTable"@,
            ResponseKind::ResolveRoute => "ResolveRoute"@,
            ResponseKind::OgmSchedule => "OgmSchedule"@,
            ResponseKind::Throughput => "Throughput"@,
            ResponseKind::Metrics => "Metrics"@,
            ResponseKind::Error => "Error"@,
            ResponseKind::Empty => "Empty"@,
            ResponseKind::TrustAnchor => "TrustAnchor"@,
            ResponseKind::SubmitCsr => "SubmitCsr"@,
            ResponseKind::SecurityStatus => "SecurityStatus"@,
            ResponseKind::ListCerts => "ListCerts"@,
            ResponseKind::ListPendingCsrs => "ListPendingCsrs"@,
            ResponseKind::Logs => "Logs"@,
            ResponseKind::LogFilter => "LogFilter"@,
            ResponseKind::AuthenticateUser => "AuthenticateUser"@,
            ResponseKind::ListUsers => "ListUsers"@,
            ResponseKind::CreateUser => "CreateUser"@,
        }
    }

    /// The kind's name.
    pub fn name(self) -> (s: &'static str)
        ensures
            s@ == self.label(),
    {
        match self {
            ResponseKind::NodeInfo => "NodeInfo",
            ResponseKind::EnrollmentToken => "EnrollmentToken",
            ResponseKind::RoutingTable => "RoutingTable",
            ResponseKind::LinkQualityTable => "LinkQualityTable",
            ResponseKind::LinkFeaturesTable => "LinkFeaturesTable",
            ResponseKind::KeepaliveTable => "KeepaliveTable",
            ResponseKind::ResolveRoute => "ResolveRoute",
            ResponseKind::OgmSchedule => "OgmSchedule",
            ResponseKind::Throughput => "Throughput",
            ResponseKind::Metrics => "Metrics",
            ResponseKind::Error => "Error",
            ResponseKind::Empty => "Empty",
            ResponseKind::TrustAnchor => "TrustAnchor",
            ResponseKind::SubmitCsr => "SubmitCsr",
            ResponseKind::SecurityStatus => "SecurityStatus",
            ResponseKind::ListCerts => "ListCerts",
            ResponseKind::ListPendingCsrs => "ListPendingCsrs",
            ResponseKind::Logs => "Logs",
            ResponseKind::LogFilter => "LogFilter",
            ResponseKind::AuthenticateUser => "AuthenticateUser",
            ResponseKind::ListUsers => "ListUsers",
            ResponseKind::CreateUser => "CreateUser",
        }
    }
}

/// The requests a client makes.
#[derive(Debug, Clone, Copy, PartialEq, Eq, Structural)]
pub enum RequestKind {
    GetNodeInfo,
    GetRoutingTable,
    GetLinkQualityTable,
    GetLinkFeaturesTable,
    GetKeepaliveTable,
    GetOgmSchedule,
    GetThroughput,
    GetMetrics,
    GetLogs,
    SetLogLevel,
    GetSecurityStatus,
    RevealEnrollmentToken,
    ResolveRoute,
    SetAuth,
    SetConfig,
    GetTrustAnchor,
    SubmitCsr,
    AuthenticateUser,
    RevokeNode,
    ListCerts,
    ListUsers,
    CreateUser,
    RemoveUser,
    ListPendingCsrs,
    ApproveCsr,
    DenyCsr,
}

impl RequestKind {
    /// The kind of reply that answers the request.
    pub open spec fn answered_by(self) -> ResponseKind {
        match self {
            RequestKind::GetNodeInfo => ResponseKind::NodeInfo,
            RequestKind::GetRoutingTable => ResponseKind::RoutingTable,
            RequestKind::GetLinkQualityTable => ResponseKind::LinkQualityTable,
            RequestKind::GetLinkFeaturesTable => ResponseKind::LinkFeaturesTable,
            RequestKind::GetKeepaliveTable => ResponseKind::KeepaliveTable,
            RequestKind::GetOgmSchedule => ResponseKind::OgmSchedule,
            RequestKind::GetThroughput => ResponseKind::Throughput,
            RequestKind::GetMetrics => ResponseKind::Metrics,
            RequestKind::GetLogs => ResponseKind::Logs,
            RequestKind::SetLogLevel => ResponseKind::LogFilter,
            RequestKind::GetSecurityStatus => ResponseKind::SecurityStatus,
            RequestKind::RevealEnrollmentToken => ResponseKind::EnrollmentToken,
            RequestKind::ResolveRoute => ResponseKind::ResolveRoute,
            RequestKind::SetAuth => ResponseKind::Empty,
            RequestKind::SetConfig => ResponseKind::Empty,
            RequestKind::GetTrustAnchor => ResponseKind::TrustAnchor,
            RequestKind::SubmitCsr => ResponseKind::SubmitCsr,
            RequestKind::AuthenticateUser => ResponseKind::AuthenticateUser,
            RequestKind::RevokeNode => ResponseKind::Empty,
            RequestKind::ListCerts => ResponseKind::ListCerts,
            RequestKind::ListUsers => ResponseKind::ListUsers,
            RequestKind::CreateUser => ResponseKind::CreateUser,
            RequestKind::RemoveUser => ResponseKind::Empty,
            RequestKind::ListPendingCsrs => ResponseKind::ListPendingCsrs,
            RequestKind::ApproveCsr => ResponseKind::Empty,
            RequestKind::DenyCsr => ResponseKind::Empty,
        }
    }

    /// What the request asks for, in messages: the kind of reply, or the request
    /// itself where the reply is empty.
    pub open spec fn label(self) -> Seq<char> {
        match self {
            RequestKind::SetAuth => "SetAuth"@,
            RequestKind::SetConfig => "SetConfig"@,
            RequestKind::RevokeNode => "RevokeNode"@,
            RequestKind::RemoveUser => "RemoveUser"@,
            RequestKind::ApproveCsr => "ApproveCsr"@,
            RequestKind::DenyCsr => "DenyCsr"@,
            _ => self.answered_by().label(),
        }
    }

    /// The kind of reply that answers the request.
    pub fn wants(self) -> (k: ResponseKind)
        ensures
            k == self.answered_by(),
    {
        match self {
            RequestKind::GetNodeInfo => ResponseKind::NodeInfo,
            RequestKind::GetRoutingTable => ResponseKind::RoutingTable,
            RequestKind::GetLinkQualityTable => ResponseKind::LinkQualityTable,
            RequestKind::GetLinkFeaturesTable => ResponseKind::LinkFeaturesTable,
            RequestKind::GetKeepaliveTable => ResponseKind::KeepaliveTable,
            RequestKind::GetOgmSchedule => ResponseKind::OgmSchedule,
            RequestKind::GetThroughput => ResponseKind::Throughput,
            RequestKind::GetMetrics => ResponseKind::Metrics,
            RequestKind::GetLogs => ResponseKind::Logs,
            RequestKind::SetLogLevel => ResponseKind::LogFilter,
            RequestKind::GetSecurityStatus => ResponseKind::SecurityStatus,
            RequestKind::RevealEnrollmentToken => ResponseKind::EnrollmentToken,
            RequestKind::ResolveRoute => ResponseKind::ResolveRoute,
            RequestKind::SetAuth => ResponseKind::Empty,
            RequestKind::SetConfig => ResponseKind::Empty,
            RequestKind::GetTrustAnchor => ResponseKind::TrustAnchor,
            RequestKind::SubmitCsr => ResponseKind::SubmitCsr,
            RequestKind::AuthenticateUser => ResponseKind::AuthenticateUser,
            RequestKind::RevokeNode => ResponseKind::Empty,
            RequestKind::ListCerts => ResponseKind::ListCerts,
            RequestKind::ListUsers => ResponseKind::ListUsers,
            RequestKind::CreateUser => ResponseKind::CreateUser,
            RequestKind::RemoveUser => ResponseKind::Empty,
            RequestKind::ListPendingCsrs => ResponseKind::ListPendingCsrs,
            RequestKind::ApproveCsr => ResponseKind::Empty,
            RequestKind::DenyCsr => ResponseKind::Empty,
        }
    }

    /// What the request asks for, in messages.
    pub fn name(self) -> (s: &'static str)
        ensures
            s@ == self.label(),
    {
        match self {
            RequestKind::SetAuth => "SetAuth",
            RequestKind::SetConfig => "SetConfig",
            RequestKind::RevokeNode => "RevokeNode",
            RequestKind::RemoveUser => "RemoveUser",
            RequestKind::ApproveCsr => "ApproveCsr",
            RequestKind::DenyCsr => "DenyCsr",
            _ => self.wants().name(),
        }
    }
}

/// The words for a reply of another kind than was asked for.
pub open spec fn unexpected_words(want: Seq<char>, got: ResponseKind) -> Seq<char> {
    "expected "@ + want + " response, got "@ + got.label()
}

/// Say that a reply was of another kind than was asked for.
pub fn unexpected(want: &str, got: ResponseKind) -> (s: String)
    ensures
        s@ == unexpected_words(want@, got),
{
    let mut s: String = "expected ".to_owned();
    s.append(want);
    s.append(" response, got ");
    s.append(got.name());
    s
}

/// A node's reply: an error in its own words, a reply of some kind, or an empty
/// envelope.
#[derive(Debug)]
pub enum Reply {
    Error(String),
    Kind(ResponseKind),
    Missing,
}

/// Accept a reply of the kind that answers a request, and say what is wrong with
/// any other: a server's error comes back in its own words.
pub fn accept_reply(request: RequestKind, reply: Reply) -> (r: Result<(), String>)
    ensures
        match (reply, r) {
            (Reply::Kind(got), Ok(_)) => got == request.answered_by(),
            (Reply::Kind(got), Err(s)) => got != request.answered_by() && s@
                == unexpected_words(request.label(), got),
            (Reply::Error(message), Err(s)) => s@ == "server error: "@ + message@,
            (Reply::Missing, Err(s)) => s@ == "server returned an empty response envelope"@,
            _ => false,
        },
        reply matches Reply::Kind(got) ==> (r is Ok) == (if is_command(request) {
            got == ResponseKind::Empty
        } else {
            asked_by(got) == Some(request)
        }),
{
    proof {
        if let Reply::Kind(got) = reply {
            reply_answers_what_was_asked(request, got);
        }
    }
    match reply {
        Reply::Error(message) => {
            let mut s: String = "server error: ".to_owned();
            s.append(message.as_str());
            Err(s)
        },
        Reply::Kind(got) => {
            if got == request.wants() {
                Ok(())
            } else {
                Err(unexpected(request.name(), got))
            }
        },
        Reply::Missing => Err("server returned an empty response envelope".to_owned()),
    }
}

/// Whether two texts are the same.
fn same_text(a: &str, b: &str) -> (same: bool)
    ensures
        same == (a@ == b@),
{
    let n: usize = a.unicode_len();
    if n != b.unicode_len() {
        return false;
    }
    let mut i: usize = 0;
    while i < n
        invariant
            i <= n,
            n == a@.len(),
            n == b@.len(),
            forall|j: int| 0 <= j < i ==> (#[trigger] a@[j]) == b@[j],
        decreases n - i,
    {
        if a.get_char(i) != b.get_char(i) {
            return false;
        }
        i = i + 1;
    }
    assert(a@ =~= b@);
    true
}

/// The likely cause of a refusal, from what the client itself presented.
pub open spec fn likely_cause(presented_cert: bool) -> Seq<char> {
    if presented_cert {
        "the certificate presented is not an admin certificate, has expired, has been revoked, or was issued by a different mesh root"@
    } else {
        "no membership certificate was presented, so this connection is limited to enrollment; anything else needs an admin certificate or the node's own key"@
    }
}

/// A refusal explained: the likely cause, behind the node's own words unless they
/// are the generic ones.
pub open spec fn denial_words(server_message: Seq<char>, presented_cert: bool) -> Seq<char> {
    if server_message == "authentication denied"@ {
        "authentication denied by the node: "@ + likely_cause(presented_cert)
    } else {
        "authentication denied by the node ("@ + server_message + "): "@ + likely_cause(
            presented_cert,
        )
    }
}

/// Turn a node's refusal into a message that names the likely cause.
pub fn explain_auth_denial(server_message: &str, presented_cert: bool) -> (s: String)
    ensures
        s@ == denial_words(server_message@, presented_cert),
{
    let cause: &str = if presented_cert {
        "the certificate presented is not an admin certificate, has expired, has been revoked, or was issued by a different mesh root"
    } else {
        "no membership certificate was presented, so this connection is limited to enrollment; anything else needs an admin certificate or the node's own key"
    };
    if same_text(server_message, "authentication denied") {
        let mut s: String = "authentication denied by the node: ".to_owned();
        s.append(cause);
        s
    } else {
        let mut s: String = "authentication denied by the node (".to_owned();
        s.append(server_message);
        s.append("): ");
        s.append(cause);
        s
    }
}

/// Decide whether a node admitted the client: an empty reply does, an error is
/// explained from whether a certificate was presented, and anything else is an
/// error, `None`, whose words are the caller's to find.
pub fn authenticated(reply: &Reply, cert: &[u8]) -> (r: Result<(), Option<String>>)
    ensures
        match (*reply, r) {
            (Reply::Kind(kind), Ok(_)) => kind == ResponseKind::Empty,
            (Reply::Kind(kind), Err(None)) => kind != ResponseKind::Empty,
            (Reply::Error(message), Err(Some(s))) => s@ == denial_words(
                message@,
                cert@.len() > 0,
            ),
            (Reply::Missing, Err(None)) => true,
            _ => false,
        },
{
    match reply {
        Reply::Kind(kind) => {
            if *kind == ResponseKind::Empty {
                Ok(())
            } else {
                Err(None)
            }
        },
        Reply::Error(message) => Err(
            Some(explain_auth_denial(message.as_str(), cert.len() > 0)),
        ),
        Reply::Missing => Err(None),
    }
}

/// How a provider admits nodes.
#[derive(Debug)]
pub enum Admission {
    /// To those that hold a token.
    Token(String),
    /// To anyone.
    Open,
}

/// The enrollment token a provider reported: `None` where enrollment is open, and
/// an error where it reported a rule this client does not know.
pub fn enrollment_token(admission: Option<Admission>) -> (r: Result<Option<String>, String>)
    ensures
        match (admission, r) {
            (Some(Admission::Token(token)), Ok(Some(t))) => t == token,
            (Some(Admission::Open), Ok(None)) => true,
            (None, Err(s)) => s@
                == "node reported an enrollment admission rule this client does not understand"@,
            _ => false,
        },
{
    match admission {
        Some(Admission::Token(token)) => Ok(Some(token)),
        Some(Admission::Open) => Ok(None),
        None => Err(
            "node reported an enrollment admission rule this client does not understand".to_owned(),
        ),
    }
}

/// The node's own words are never lost: the explanation holds them, unless they
/// are the generic ones it already begins with.
pub proof fn denial_keeps_the_nodes_words(message: Seq<char>, presented_cert: bool)
    requires
        message != "authentication denied"@,
    ensures
        exists|at: int|
            0 <= at && at + message.len() <= denial_words(message, presented_cert).len()
                && #[trigger] denial_words(message, presented_cert).subrange(
                at,
                at + message.len(),
            ) == message,
{
    let front = "authentication denied by the node ("@;
    let whole = denial_words(message, presented_cert);
    assert(whole.subrange(front.len() as int, (front.len() + message.len()) as int) =~= message);
}

/// The request that asks for a kind of reply, where one does.  An empty reply
/// answers several commands, and an error none.
pub open spec fn asked_by(kind: ResponseKind) -> Option<RequestKind> {
    match kind {
        ResponseKind::CreateUser => Some(RequestKind::CreateUser),
        ResponseKind::ListUsers => Some(RequestKind::ListUsers),
        ResponseKind::AuthenticateUser => Some(RequestKind::AuthenticateUser),
        ResponseKind::LogFilter => Some(RequestKind::SetLogLevel),
        ResponseKind::Logs => Some(RequestKind::GetLogs),
        ResponseKind::ListPendingCsrs => Some(RequestKind::ListPendingCsrs),
        ResponseKind::ListCerts => Some(RequestKind::ListCerts),
        ResponseKind::SecurityStatus => Some(RequestKind::GetSecurityStatus),
        ResponseKind::SubmitCsr => Some(RequestKind::SubmitCsr),
        ResponseKind::TrustAnchor => Some(RequestKind::GetTrustAnchor),
        ResponseKind::Metrics => Some(RequestKind::GetMetrics),
        ResponseKind::Throughput => Some(RequestKind::GetThroughput),
        ResponseKind::OgmSchedule => Some(RequestKind::GetOgmSchedule),
        ResponseKind::ResolveRoute => Some(RequestKind::ResolveRoute),
        ResponseKind::KeepaliveTable => Some(RequestKind::GetKeepaliveTable),
        ResponseKind::LinkFeaturesTable => Some(RequestKind::GetLinkFeaturesTable),
        ResponseKind::LinkQualityTable => Some(RequestKind::GetLinkQualityTable),
        ResponseKind::RoutingTable => Some(RequestKind::GetRoutingTable),
        ResponseKind::EnrollmentToken => Some(RequestKind::RevealEnrollmentToken),
        ResponseKind::NodeInfo => Some(RequestKind::GetNodeInfo),
        ResponseKind::Empty => None,
        ResponseKind::Error => None,
    }
}

/// Whether a request is a command, answered by an empty reply.
pub open spec fn is_command(request: RequestKind) -> bool {
    request == RequestKind::SetAuth || request == RequestKind::SetConfig || request
        == RequestKind::RevokeNode || request == RequestKind::RemoveUser || request
        == RequestKind::ApproveCsr || request == RequestKind::DenyCsr
}

/// A reply answers the request that asks for its kind and no other; an empty reply
/// answers the commands and nothing else; an error answers nothing.
pub proof fn reply_answers_what_was_asked(request: RequestKind, kind: ResponseKind)
    ensures
        kind != ResponseKind::Empty ==> (request.answered_by() == kind) == (asked_by(kind) == Some(
            request,
        )),
        (request.answered_by() == ResponseKind::Empty) == is_command(request),
        request.answered_by() != ResponseKind::Error,
{
}

/// No reply is taken for the answer to two requests, commands aside.
pub proof fn no_reply_answers_two_queries(a: RequestKind, b: RequestKind)
    requires
        a.answered_by() == b.answered_by(),
        !is_command(a),
    ensures
        a == b,
{
    reply_answers_what_was_asked(a, a.answered_by());
    reply_answers_what_was_asked(b, a.answered_by());
}

/// Two kinds of reply never go by the same name.
pub proof fn kinds_have_names_of_their_own(a: ResponseKind, b: ResponseKind)
    requires
        a != b,
    ensures
        a.label() != b.label(),
{
    reveal_strlit("NodeInfo");
    reveal_strlit("EnrollmentToken");
    reveal_strlit("RoutingTable");
    reveal_strlit("LinkQualityTable");
    reveal_strlit("LinkFeaturesTable");
    reveal_strlit("KeepaliveTable");
    reveal_strlit("ResolveRoute");
    reveal_strlit("OgmSchedule");
    reveal_strlit("Throughput");
    reveal_strlit("Metrics");
    reveal_strlit("Error");
    reveal_strlit("Empty");
    reveal_strlit("TrustAnchor");
    reveal_strlit("SubmitCsr");
    reveal_strlit("SecurityStatus");
    reveal_strlit("ListCerts");
    reveal_strlit("ListPendingCsrs");
    reveal_strlit("Logs");
    reveal_strlit("LogFilter");
    reveal_strlit("AuthenticateUser");
    reveal_strlit("ListUsers");
    reveal_strlit("CreateUser");
    let x = a.label();
    let y = b.label();
    if x.len() == y.len() {
        assert(x[0] != y[0] || x[1] != y[1] || x[4] != y[4] || x[5] != y[5]);
    }
}

/// The words for an unexpected reply name both what was asked for and what came.
pub proof fn unexpected_names_both(want: Seq<char>, got: ResponseKind)
    ensures
        ({
            let w = unexpected_words(want, got);
            &&& w.subrange(9, 9 + want.len() as int) == want
            &&& w.subrange(w.len() - got.label().len(), w.len() as int) == got.label()
        }),
{
    reveal_strlit("expected ");
    let w = unexpected_words(want, got);
    assert(w.subrange(9, 9 + want.len() as int) =~= want);
    assert(w.subrange(w.len() - got.label().len(), w.len() as int) =~= got.label());
}

/// A refusal is explained by what the client presented, and differently where it
/// presented a certificate and where it did not.
pub proof fn refusals_name_their_cause(message: Seq<char>, presented_cert: bool)
    ensures
        ({
            let words = denial_words(message, presented_cert);
            let cause = likely_cause(presented_cert);
            words.subrange(words.len() - cause.len(), words.len() as int) == cause
        }),
        likely_cause(true) != likely_cause(false),
        likely_cause(true).subrange(0, 15) == "the certificate"@,
        likely_cause(false).subrange(0, 14) == "no membership "@,
{
    reveal_strlit(
        "the certificate presented is not an admin certificate, has expired, has been revoked, or was issued by a different mesh root",
    );
    reveal_strlit(
        "no membership certificate was presented, so this connection is limited to enrollment; anything else needs an admin certificate or the node's own key",
    );
    reveal_strlit("the certificate");
    reveal_strlit("no membership ");
    let words = denial_words(message, presented_cert);
    let cause = likely_cause(presented_cert);
    assert(words.subrange(words.len() - cause.len(), words.len() as int) =~= cause);
    assert(likely_cause(true)[0] != likely_cause(false)[0]);
    assert(likely_cause(true).subrange(0, 15) =~= "the certificate"@);
    assert(likely_cause(false).subrange(0, 14) =~= "no membership "@);
}

/// A request is named in messages for the reply it asks for, and a command, whose
/// reply says nothing, for itself.
pub proof fn requests_are_named_for_what_they_ask(request: RequestKind)
    ensures
        !is_command(request) ==> request.label() == request.answered_by().label(),
        request is SetAuth ==> request.label() == "SetAuth"@,
        request is SetConfig ==> request.label() == "SetConfig"@,
        request is RevokeNode ==> request.label() == "RevokeNode"@,
        request is RemoveUser ==> request.label() == "RemoveUser"@,
        request is ApproveCsr ==> request.label() == "ApproveCsr"@,
        request is DenyCsr ==> request.label() == "DenyCsr"@,
{
}

} // verus!

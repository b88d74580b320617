//! The management client's keys and what it makes of replies.

use wayfinder::auth::key::Keypair;
use wayfinder::client::endpoint::check_pin;
use wayfinder::client::endpoint::ed25519_from_spki;
use wayfinder::client::endpoint::endpoint_keys;
use wayfinder::client::endpoint::EndpointError;
use wayfinder::client::endpoint::PinError;
use wayfinder::client::key::parse_key32;
use wayfinder::client::key::KeyError;
use wayfinder::client::reply::accept_reply;
use wayfinder::client::reply::authenticated;
use wayfinder::client::reply::enrollment_token;
use wayfinder::client::reply::explain_auth_denial;
use wayfinder::client::reply::unexpected;
use wayfinder::client::reply::Admission;
use wayfinder::client::reply::Reply;
use wayfinder::client::reply::RequestKind;
use wayfinder::client::reply::ResponseKind;

#[test]
fn a_denial_without_a_cert_names_the_enrollment_limit() {
    let explained = explain_auth_denial("authentication denied", false);

    assert!(explained.contains("no membership certificate"), "got: {explained}");
    assert!(explained.contains("limited to enrollment"), "got: {explained}");
}

#[test]
fn a_denial_with_a_cert_lists_the_candidate_causes() {
    let explained = explain_auth_denial("authentication denied", true);

    assert!(explained.contains("admin"), "got: {explained}");
    assert!(explained.contains("expired"), "got: {explained}");
    assert!(explained.contains("revoked"), "got: {explained}");
}

#[test]
fn the_nodes_message_is_preserved() {
    let explained = explain_auth_denial("mesh id mismatch", true);

    assert!(explained.contains("mesh id mismatch"), "got: {explained}");
}

#[test]
fn the_generic_message_is_not_doubled() {
    let explained = explain_auth_denial("authentication denied", false);

    assert_eq!(explained.matches("authentication denied").count(), 1, "got: {explained}");
}

#[test]
fn denials_word_for_word() {
    assert_eq!(
        explain_auth_denial("authentication denied", true),
        "authentication denied by the node: the certificate presented is not an admin \
         certificate, has expired, has been revoked, or was issued by a different mesh root"
    );
    assert_eq!(
        explain_auth_denial("mesh id mismatch", false),
        "authentication denied by the node (mesh id mismatch): no membership certificate was \
         presented, so this connection is limited to enrollment; anything else needs an admin \
         certificate or the node's own key"
    );
}

#[test]
fn keys_bare_and_with_colons() {
    let bare = "00ff".repeat(16);
    let mut expected = [0u8; 32];
    for i in 0..16 {
        expected[2 * i + 1] = 0xff;
    }
    assert_eq!(parse_key32(&bare), Ok(expected));
    assert_eq!(parse_key32(&bare.to_uppercase()), Ok(expected));
    let colons = vec!["0:FF"; 16].join(":");
    assert_eq!(parse_key32(&colons), Ok(expected));
    let mixed = vec!["00:fF"; 16].join(":");
    assert_eq!(parse_key32(&mixed), Ok(expected));
    // Leading zeros and a plus sign are read over.
    let padded = vec!["000:+ff"; 16].join(":");
    assert_eq!(parse_key32(&padded), Ok(expected));
}

#[test]
fn texts_that_are_no_keys() {
    assert_eq!(parse_key32("abc"), Err(KeyError::OddLength));
    assert_eq!(parse_key32("zz"), Err(KeyError::NotHex));
    assert_eq!(parse_key32("ab"), Err(KeyError::WrongLength(1)));
    assert_eq!(parse_key32(""), Err(KeyError::WrongLength(0)));
    assert_eq!(parse_key32("ab:cd"), Err(KeyError::WrongLength(2)));
    assert_eq!(parse_key32("ab:"), Err(KeyError::NotColonHex));
    assert_eq!(parse_key32("100:00"), Err(KeyError::NotColonHex));
    assert_eq!(parse_key32("+:00"), Err(KeyError::NotColonHex));
    assert_eq!(parse_key32(&"00".repeat(33)), Err(KeyError::WrongLength(33)));
}

#[test]
fn endpoints_default_to_the_identitys_own_key() {
    let seed = [7u8; 32];
    let keys = endpoint_keys(&seed, vec![1, 2], None).unwrap();
    assert_eq!(keys.identity.seed, seed);
    assert_eq!(keys.identity.cert, vec![1, 2]);
    assert_eq!(keys.node_key, Keypair::from_seed(&seed).ed_pubkey());

    let pinned = endpoint_keys(&seed, vec![], Some(&"11".repeat(32))).unwrap();
    assert_eq!(pinned.node_key, [0x11; 32]);

    assert_eq!(
        endpoint_keys(&[7u8; 31], vec![], None).map(|k| k.node_key),
        Err(EndpointError::SeedLength)
    );
    assert_eq!(
        endpoint_keys(&seed, vec![], Some("1")).map(|k| k.node_key),
        Err(EndpointError::NodeKey(KeyError::OddLength))
    );
}

#[test]
fn client_rejects_server_with_unpinned_key() {
    let wrong_key = Keypair::from_seed(&[99u8; 32]).ed_pubkey();
    let server_key = Keypair::from_seed(&[11u8; 32]).ed_pubkey();
    assert_eq!(check_pin(Some(server_key), &wrong_key), Err(PinError::Mismatch));
    assert_eq!(check_pin(None, &wrong_key), Err(PinError::NotEd25519));
    assert_eq!(check_pin(Some(wrong_key), &wrong_key), Ok(()));
}

#[test]
fn replies_are_held_to_the_kind_asked_for() {
    assert_eq!(
        accept_reply(RequestKind::GetNodeInfo, Reply::Kind(ResponseKind::NodeInfo)),
        Ok(())
    );
    assert_eq!(
        accept_reply(RequestKind::RevokeNode, Reply::Kind(ResponseKind::Logs)),
        Err("expected RevokeNode response, got Logs".to_string())
    );
    assert_eq!(
        accept_reply(RequestKind::GetLogs, Reply::Error("no".to_string())),
        Err("server error: no".to_string())
    );
    assert_eq!(
        accept_reply(RequestKind::GetLogs, Reply::Missing),
        Err("server returned an empty response envelope".to_string())
    );
    assert_eq!(
        unexpected("Logs", ResponseKind::CreateUser),
        "expected Logs response, got CreateUser"
    );
}

#[test]
fn every_kind_has_its_own_name() {
    let kinds = [
        ResponseKind::NodeInfo,
        ResponseKind::EnrollmentToken,
        ResponseKind::RoutingTable,
        ResponseKind::LinkQualityTable,
        ResponseKind::LinkFeaturesTable,
        ResponseKind::KeepaliveTable,
        ResponseKind::ResolveRoute,
        ResponseKind::OgmSchedule,
        ResponseKind::Throughput,
        ResponseKind::Metrics,
        ResponseKind::Error,
        ResponseKind::Empty,
        ResponseKind::TrustAnchor,
        ResponseKind::SubmitCsr,
        ResponseKind::SecurityStatus,
        ResponseKind::ListCerts,
        ResponseKind::ListPendingCsrs,
        ResponseKind::Logs,
        ResponseKind::LogFilter,
        ResponseKind::AuthenticateUser,
        ResponseKind::ListUsers,
        ResponseKind::CreateUser,
    ];
    for (i, a) in kinds.iter().enumerate() {
        assert_eq!(a.name(), format!("{a:?}"));
        for b in &kinds[i + 1..] {
            assert_ne!(a.name(), b.name());
        }
    }
}

#[test]
fn admission_is_read_from_the_reply() {
    assert_eq!(authenticated(&Reply::Kind(ResponseKind::Empty), &[]), Ok(()));
    assert_eq!(authenticated(&Reply::Kind(ResponseKind::Logs), &[]), Err(None));
    assert_eq!(authenticated(&Reply::Missing, &[]), Err(None));
    let denied = Reply::Error("authentication denied".to_string());
    assert_eq!(
        authenticated(&denied, &[]),
        Err(Some(explain_auth_denial("authentication denied", false)))
    );
    assert_eq!(
        authenticated(&denied, &[1]),
        Err(Some(explain_auth_denial("authentication denied", true)))
    );
}

#[test]
fn enrollment_rules() {
    assert_eq!(
        enrollment_token(Some(Admission::Token("t".to_string()))),
        Ok(Some("t".to_string()))
    );
    assert_eq!(enrollment_token(Some(Admission::Open)), Ok(None));
    assert_eq!(
        enrollment_token(None),
        Err("node reported an enrollment admission rule this client does not understand"
            .to_string())
    );
}

#[test]
fn requests_name_what_they_ask_for() {
    assert_eq!(RequestKind::SetLogLevel.wants(), ResponseKind::LogFilter);
    assert_eq!(RequestKind::SetLogLevel.name(), "LogFilter");
    assert_eq!(RequestKind::SetConfig.wants(), ResponseKind::Empty);
    assert_eq!(RequestKind::SetConfig.name(), "SetConfig");
    assert_eq!(RequestKind::DenyCsr.name(), "DenyCsr");
    assert_eq!(RequestKind::ResolveRoute.wants(), ResponseKind::ResolveRoute);
}

#[test]
fn keys_in_der_form() {
    let mut der =
        vec![0x30, 0x2a, 0x30, 0x05, 0x06, 0x03, 0x2b, 0x65, 0x70, 0x03, 0x21, 0x00];
    der.extend_from_slice(&[9u8; 32]);
    assert_eq!(ed25519_from_spki(&der), Some([9u8; 32]));
    assert_eq!(ed25519_from_spki(&der[..43]), None);
    der[8] = 0x71;
    assert_eq!(ed25519_from_spki(&der), None);
}

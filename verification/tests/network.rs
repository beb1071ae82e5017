use simulation_taps_tt::authority::ActorKeys;
use simulation_taps_tt::crypto::{IdentityKeyPair, TransportKeyPair};
use simulation_taps_tt::keys::Error;
use simulation_taps_tt::lobby::{announced_keys, roster, Admission, Lobby};
use simulation_taps_tt::network::{
    after_failed_bind, frame, frame_header, frame_length, AnchorError, AuthorityAnchor, Message, Role,
    AUTHORITY_ANCHOR_FILE,
};
use simulation_taps_tt::tracer_mesh::{tracer_addr, MeshStep, TracerMesh, TRACER_BASE_PORT};
use std::collections::BTreeMap;

fn keys() -> ActorKeys {
    ActorKeys {
        identity_pk: IdentityKeyPair::new().pk,
        transport_pk: TransportKeyPair::new().pk,
    }
}

fn hello(id: usize, role: Role, keys: &ActorKeys) -> Message {
    Message::Hello {
        id,
        role,
        pk: keys.transport_pk.serialize().to_vec(),
        identity_pk: keys.identity_pk.serialize().to_vec(),
    }
}

#[test]
fn anchor_reads_back_as_published() {
    let keys = keys();
    let anchor = AuthorityAnchor {
        identity_pk: keys.identity_pk,
        transport_pk: keys.transport_pk,
    };
    let bytes = anchor.encode();
    assert_eq!(bytes.len(), 66);
    assert_eq!(bytes[..33], keys.identity_pk.serialize());
    assert_eq!(AuthorityAnchor::parse(&bytes), Ok(anchor));
    assert_eq!(anchor.keys(), keys);
}

#[test]
fn malformed_anchors_are_refused() {
    let short = AuthorityAnchor::parse(&[2; 65]).unwrap_err();
    assert_eq!(short, AnchorError::Length(65));
    assert_eq!(
        short.message(),
        format!(
            "Malformed Authority trust anchor '{}': expected 66 bytes, found {}",
            AUTHORITY_ANCHOR_FILE, 65
        )
    );
    let no_key = AuthorityAnchor::parse(&[0; 66]).unwrap_err();
    assert_eq!(no_key, AnchorError::Key(Error::InvalidPublicKey));
    assert_eq!(no_key.message(), "malformed public key");

    let mut half = keys().identity_pk.serialize().to_vec();
    half.extend([9u8; 33]);
    assert_eq!(
        AuthorityAnchor::parse(&half),
        Err(AnchorError::Key(Error::InvalidPublicKey))
    );
}

#[test]
fn frames_carry_their_length() {
    assert_eq!(frame(b"abc"), vec![0, 0, 0, 3, b'a', b'b', b'c']);
    assert_eq!(frame(b""), vec![0, 0, 0, 0]);
    assert_eq!(frame_header(0x01_02_03_04), vec![1, 2, 3, 4]);
    assert_eq!(frame_length(&[1, 2, 3, 4]), 0x01_02_03_04);
    assert_eq!(frame_length(&frame_header(70_000)), 70_000);
    assert_eq!(frame_length(&[255; 4]), u32::MAX as usize);
}

#[test]
fn tracers_listen_next_to_each_other() {
    assert_eq!(TRACER_BASE_PORT, 8200);
    assert_eq!(tracer_addr(TRACER_BASE_PORT, 0), "127.0.0.1:8200");
    assert_eq!(tracer_addr(8400, 13), "127.0.0.1:8413");
}

#[test]
fn mesh_dials_down_and_accepts_up() {
    let roster: Vec<ActorKeys> = (0..4).map(|_| keys()).collect();
    let mut mesh: TracerMesh<&str> = TracerMesh::begin(1, 4).unwrap();
    assert_eq!(mesh.listen_addr(8200), Some("127.0.0.1:8201".to_string()));
    assert_eq!(mesh.next_step(), MeshStep::Dial(0));
    mesh.link_dialed("to 0");
    assert_eq!(mesh.next_step(), MeshStep::Accept);

    assert!(mesh.accept(&roster, &hello(3, Role::Tracer, &roster[3]), "from 3"));
    assert_eq!(mesh.next_step(), MeshStep::Accept);
    assert!(mesh.accept(&roster, &hello(2, Role::Tracer, &roster[2]), "from 2"));
    assert_eq!(mesh.next_step(), MeshStep::Ready);
    assert_eq!(mesh.peer_ids(), vec![0, 2, 3]);
    assert_eq!(mesh.peer_count(), 3);
    assert_eq!(mesh.peers[&3], "from 3");
}

#[test]
fn mesh_rejects_unexpected_hellos() {
    let roster: Vec<ActorKeys> = (0..4).map(|_| keys()).collect();
    let mut mesh: TracerMesh<u8> = TracerMesh::begin(1, 4).unwrap();
    mesh.link_dialed(0);
    // A lower index, this tracer itself, and an index out of range.
    assert!(!mesh.accept(&roster, &hello(0, Role::Tracer, &roster[0]), 1));
    assert!(!mesh.accept(&roster, &hello(1, Role::Tracer, &roster[1]), 1));
    assert!(!mesh.accept(&roster, &hello(4, Role::Tracer, &roster[3]), 1));
    // Another role, and another identity than the roster has.
    assert!(!mesh.accept(&roster, &hello(2, Role::Signer, &roster[2]), 1));
    assert!(!mesh.accept(&roster, &hello(2, Role::Tracer, &roster[3]), 1));
    // A duplicate.
    assert!(mesh.accept(&roster, &hello(2, Role::Tracer, &roster[2]), 2));
    assert!(!mesh.accept(&roster, &hello(2, Role::Tracer, &roster[2]), 3));
    assert_eq!(mesh.peers[&2], 2);
    assert_eq!(mesh.peer_ids(), vec![0, 2]);
}

#[test]
fn mesh_of_one_is_ready_at_once() {
    let mesh: TracerMesh<u8> = TracerMesh::begin(0, 1).unwrap();
    assert_eq!(mesh.next_step(), MeshStep::Ready);
    assert_eq!(mesh.listen_addr(8200), None);
    assert_eq!(mesh.peer_count(), 0);
    assert_eq!(mesh.exchange_plan(BTreeMap::<usize, u8>::new()), Ok(vec![]));
}

#[test]
fn mesh_needs_a_known_index() {
    let refused: Result<TracerMesh<u8>, String> = TracerMesh::begin(4, 4);
    assert_eq!(
        refused.err(),
        Some("Tracer index 4 out of range (n_3 = 4)".to_string())
    );
}

#[test]
fn last_tracer_has_nobody_to_listen_for() {
    let mesh: TracerMesh<u8> = TracerMesh::begin(3, 4).unwrap();
    assert_eq!(mesh.listen_addr(8200), None);
}

#[test]
fn exchange_needs_a_message_for_every_peer() {
    let mut mesh: TracerMesh<u8> = TracerMesh::begin(2, 3).unwrap();
    mesh.link_dialed(0);
    mesh.link_dialed(0);
    let mut outgoing = BTreeMap::new();
    outgoing.insert(0usize, "zero");
    outgoing.insert(7, "nobody");
    assert_eq!(
        mesh.exchange_plan(outgoing.clone()),
        Err("No outgoing message for tracer #1".to_string())
    );
    outgoing.insert(1, "one");
    assert_eq!(
        mesh.exchange_plan(outgoing),
        Ok(vec![(0, "zero"), (1, "one")])
    );
    let everyone = mesh.broadcast_plan(&"all".to_string());
    assert_eq!(
        everyone.into_iter().collect::<Vec<_>>(),
        vec![(0, "all".to_string()), (1, "all".to_string())]
    );
}

#[test]
fn lobby_seats_everyone_once() {
    let mut lobby: Lobby<&str> = Lobby::new(2, 1, true);
    assert!(!lobby.is_complete());
    assert_eq!(lobby.register(Role::Signer, 2, "x"), Admission::OutOfBounds);
    assert_eq!(lobby.register(Role::Signer, 1, "s1"), Admission::Admitted);
    assert_eq!(lobby.register(Role::Signer, 1, "s1 again"), Admission::Taken);
    assert_eq!(lobby.register(Role::Tracer, 1, "x"), Admission::OutOfBounds);
    assert_eq!(lobby.register(Role::Tracer, 0, "t0"), Admission::Admitted);
    assert_eq!(lobby.register(Role::Tracer, 0, "t0 again"), Admission::Taken);
    assert_eq!(lobby.register(Role::Combiner, 0, "c"), Admission::Admitted);
    assert_eq!(lobby.register(Role::Combiner, 0, "c again"), Admission::Taken);
    assert!(!lobby.is_complete());
    assert_eq!(lobby.register(Role::Signer, 0, "s0"), Admission::Admitted);
    assert!(lobby.is_complete());
    assert_eq!(lobby.connected, 4);
    assert_eq!(lobby.signers, vec![Some("s0"), Some("s1")]);
    assert_eq!(lobby.tracers, vec![Some("t0")]);
    assert_eq!(lobby.combiner, Some("c"));
}

#[test]
fn lobby_without_a_combiner_expects_none() {
    let mut lobby: Lobby<u8> = Lobby::new(1, 1, false);
    assert_eq!(lobby.register(Role::Combiner, 0, 0), Admission::Unexpected);
    lobby.register(Role::Signer, 0, 1);
    lobby.register(Role::Tracer, 0, 2);
    assert!(lobby.is_complete());
    assert_eq!(lobby.connected, 2);
}

#[test]
fn rosters_list_keys_by_id() {
    let (a, b) = (keys(), keys());
    let mut seats = vec![Some(("x", a)), None];
    assert_eq!(roster(&seats), None);
    seats[1] = Some(("y", b));
    assert_eq!(roster(&seats), Some(vec![a, b]));
}

#[test]
fn announced_keys_are_parsed() {
    let k = keys();
    let transport = k.transport_pk.serialize();
    let identity = k.identity_pk.serialize();
    assert_eq!(announced_keys(&transport, &identity), Ok(k));
    assert_eq!(announced_keys(&[1; 33], &identity), Err(Error::InvalidPublicKey));
    assert_eq!(announced_keys(&transport, &[]), Err(Error::InvalidPublicKey));
}

#[test]
fn binding_is_tried_sixty_times_while_the_port_is_in_use() {
    let first = after_failed_bind(0, true);
    assert_eq!((first.report, first.again), (true, true));
    let later = after_failed_bind(58, true);
    assert_eq!((later.report, later.again), (false, true));
    let last = after_failed_bind(59, true);
    assert_eq!((last.report, last.again), (false, false));
}

#[test]
fn other_failures_to_bind_are_final() {
    for attempt in [0, 1, 58, 59] {
        let next = after_failed_bind(attempt, false);
        assert_eq!((next.report, next.again), (false, false));
    }
}

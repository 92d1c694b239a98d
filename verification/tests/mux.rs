use ssh_agent_mux::keys::{copy_bytes, same_bytes, Identity, KnownKeys, PublicKey};
use ssh_agent_mux::mux::{
    forwarded, AckReply, Broadcast, Extension, ExtensionPlan, ExtensionReply, ListReply, MuxAgent,
    MuxError, SignStep, UpstreamError,
};

/// A stand-in for one upstream agent.
struct Upstream {
    path: String,
    reachable: bool,
    passphrase: Option<String>,
    keys: Vec<Identity>,
    binds_sessions: bool,
    contacts: usize,
}

fn upstream(path: &str, keys: Vec<Identity>) -> Upstream {
    Upstream {
        path: path.to_string(),
        reachable: true,
        passphrase: None,
        keys,
        binds_sessions: true,
        contacts: 0,
    }
}

fn ed25519(fill: u8) -> PublicKey {
    let mut blob = vec![0, 0, 0, 11];
    blob.extend_from_slice(b"ssh-ed25519");
    blob.extend_from_slice(&[0, 0, 0, 32]);
    blob.extend_from_slice(&[fill; 32]);
    PublicKey::new(blob)
}

fn identity(fill: u8, comment: &str) -> Identity {
    Identity::new(ed25519(fill), comment.to_string())
}

fn mux_over(upstreams: &[Upstream], target: Option<&str>) -> MuxAgent {
    MuxAgent::new(
        upstreams.iter().map(|u| u.path.clone()).collect(),
        target.map(|t| t.to_string()),
        5,
    )
}

fn ask_identities(u: &mut Upstream) -> ListReply {
    u.contacts += 1;
    if !u.reachable {
        Err(UpstreamError::ConnectFailed)
    } else if u.passphrase.is_some() {
        Ok(vec![])
    } else {
        Ok(u.keys.clone())
    }
}

fn ask_lock(u: &mut Upstream, passphrase: &str) -> AckReply {
    u.contacts += 1;
    if !u.reachable {
        Err(UpstreamError::ConnectFailed)
    } else if u.passphrase.is_some() {
        Err(UpstreamError::Failure)
    } else {
        u.passphrase = Some(passphrase.to_string());
        Ok(())
    }
}

fn ask_unlock(u: &mut Upstream, passphrase: &str) -> AckReply {
    u.contacts += 1;
    if !u.reachable {
        Err(UpstreamError::ConnectFailed)
    } else if u.passphrase.as_deref() == Some(passphrase) {
        u.passphrase = None;
        Ok(())
    } else {
        Err(UpstreamError::Failure)
    }
}

fn list(mux: &MuxAgent, cache: &mut KnownKeys, upstreams: &mut [Upstream]) -> Vec<Identity> {
    let replies: Vec<ListReply> = upstreams.iter_mut().map(ask_identities).collect();
    mux.refresh_identities(cache, &replies)
}

fn lock(mux: &MuxAgent, upstreams: &mut [Upstream], passphrase: &str) -> Result<(), MuxError> {
    let mut replies: Vec<AckReply> = Vec::new();
    loop {
        match mux.lock(&replies) {
            Broadcast::Contact(i) => {
                assert_eq!(i, replies.len());
                replies.push(ask_lock(&mut upstreams[i], passphrase));
            }
            Broadcast::Reply(answer) => return answer,
        }
    }
}

fn unlock(mux: &MuxAgent, upstreams: &mut [Upstream], passphrase: &str) -> Result<(), MuxError> {
    let mut replies: Vec<AckReply> = Vec::new();
    loop {
        match mux.unlock(&replies) {
            Broadcast::Contact(i) => replies.push(ask_unlock(&mut upstreams[i], passphrase)),
            Broadcast::Reply(answer) => return answer,
        }
    }
}

/// Runs a signing request and says which upstream agent signed.
fn sign(
    mux: &MuxAgent,
    cache: &mut KnownKeys,
    upstreams: &mut [Upstream],
    key: &PublicKey,
) -> Result<String, MuxError> {
    let mut refreshed = false;
    loop {
        match MuxAgent::get_agent_sock_for_pubkey(cache, key, refreshed) {
            SignStep::Refresh => {
                list(mux, cache, upstreams);
                refreshed = true;
            }
            SignStep::Forward(path) => {
                let signer = upstreams.iter_mut().find(|u| u.path == path).unwrap();
                signer.contacts += 1;
                let reply = if signer.reachable {
                    Ok(signer.path.clone())
                } else {
                    Err(UpstreamError::ConnectFailed)
                };
                return forwarded(reply);
            }
            SignStep::NotFound(_) => return Err(MuxError::KeyNotFound),
        }
    }
}

fn add_identity(mux: &MuxAgent, upstreams: &mut [Upstream], id: Identity) -> Result<(), MuxError> {
    let path = mux.add_identity()?;
    let target = upstreams.iter_mut().find(|u| u.path == path).unwrap();
    target.contacts += 1;
    let reply = if target.reachable {
        target.keys.push(id);
        Ok(())
    } else {
        Err(UpstreamError::ConnectTimeout)
    };
    forwarded(reply)
}

fn bind_request() -> Extension {
    Extension { name: "session-bind@openssh.com".to_string(), details: vec![1, 2, 3] }
}

#[test]
fn byte_strings_compare_and_copy() {
    assert!(same_bytes(&vec![], &vec![]));
    assert!(same_bytes(&vec![1, 2, 3], &vec![1, 2, 3]));
    assert!(!same_bytes(&vec![1, 2, 3], &vec![1, 2, 4]));
    assert!(!same_bytes(&vec![1, 2, 3], &vec![1, 2]));
    assert_eq!(copy_bytes(&vec![9, 8, 7]), vec![9, 8, 7]);
    assert!(ed25519(1).same_key(&ed25519(1).duplicate()));
    assert!(!ed25519(1).same_key(&ed25519(2)));
    let id = identity(3, "three");
    assert_eq!(id.duplicate(), id);
}

#[test]
fn fingerprint_is_the_sha256_of_the_encoded_key() {
    let mut blob = vec![0, 0, 0, 11];
    blob.extend_from_slice(b"ssh-ed25519");
    blob.extend_from_slice(&[0, 0, 0, 32]);
    blob.extend((1u8..=32).collect::<Vec<u8>>());
    assert_eq!(
        PublicKey::new(blob).fingerprint(),
        Some("SHA256:mKqU+0K8OhKmA8bBQi9Rz0Q5l7/g160hIP+rJYSTNj4".to_string())
    );
    assert_eq!(
        ed25519(7).fingerprint(),
        Some("SHA256:gNSIRW+2Iyiuvsdp/bgjy38bvWHw6wQm3tuoXrl3WjQ".to_string())
    );
}

#[test]
fn bytes_that_encode_no_key_have_no_fingerprint() {
    assert_eq!(PublicKey::new(vec![]).fingerprint(), None);
    assert_eq!(PublicKey::new(vec![1, 2, 3]).fingerprint(), None);
    let mut trailing = ed25519(7).blob;
    trailing.push(0);
    assert_eq!(PublicKey::new(trailing).fingerprint(), None);
}

#[test]
fn cache_starts_empty_and_last_insert_wins() {
    let mut cache = KnownKeys::new();
    assert_eq!(cache.get(&ed25519(1)), None);
    assert!(!cache.contains_key(&ed25519(1)));
    cache.insert(ed25519(1), "/a".to_string());
    cache.insert(ed25519(2), "/b".to_string());
    cache.insert(ed25519(1), "/c".to_string());
    assert_eq!(cache.get(&ed25519(1)), Some("/c".to_string()));
    assert_eq!(cache.get(&ed25519(2)), Some("/b".to_string()));
    assert!(cache.contains_key(&ed25519(2)));
    assert_eq!(cache.get(&ed25519(3)), None);
    cache.clear();
    assert_eq!(cache.get(&ed25519(1)), None);
    assert_eq!(cache.get(&ed25519(2)), None);
}

#[test]
fn empty_roster_lists_nothing() {
    let mut upstreams: Vec<Upstream> = vec![];
    let mux = mux_over(&upstreams, None);
    let mut cache = KnownKeys::new();
    assert!(list(&mux, &mut cache, &mut upstreams).is_empty());
    assert_eq!(lock(&mux, &mut upstreams, "pw"), Ok(()));
    assert_eq!(MuxAgent::session_bind(&vec![]), Err(MuxError::Unsupported));
}

#[test]
fn one_upstream_lists_all_its_keys() {
    let keys = vec![identity(1, "rsa"), identity(2, "ecdsa"), identity(3, "ed25519")];
    let mut upstreams = vec![upstream("/run/up.sock", keys.clone())];
    let mux = mux_over(&upstreams, None);
    let mut cache = KnownKeys::new();
    assert_eq!(list(&mux, &mut cache, &mut upstreams), keys);
    for id in &keys {
        assert_eq!(cache.get(&id.pubkey), Some("/run/up.sock".to_string()));
    }
}

#[test]
fn three_upstreams_list_in_roster_order() {
    let mut upstreams = vec![
        upstream("/run/rsa.sock", vec![identity(1, "rsa")]),
        upstream("/run/ecdsa.sock", vec![identity(2, "ecdsa")]),
        upstream("/run/ed25519.sock", vec![identity(3, "ed25519")]),
    ];
    let mux = mux_over(&upstreams, None);
    let mut cache = KnownKeys::new();
    assert_eq!(
        list(&mux, &mut cache, &mut upstreams),
        vec![identity(1, "rsa"), identity(2, "ecdsa"), identity(3, "ed25519")]
    );
    assert_eq!(cache.get(&ed25519(1)), Some("/run/rsa.sock".to_string()));
    assert_eq!(cache.get(&ed25519(2)), Some("/run/ecdsa.sock".to_string()));
    assert_eq!(cache.get(&ed25519(3)), Some("/run/ed25519.sock".to_string()));
}

#[test]
fn key_held_twice_is_cached_for_the_last_upstream() {
    let mut upstreams = vec![
        upstream("/run/a.sock", vec![identity(1, "shared"), identity(2, "only a")]),
        upstream("/run/b.sock", vec![identity(1, "shared too")]),
        upstream("/run/c.sock", vec![identity(3, "only c")]),
    ];
    let mux = mux_over(&upstreams, None);
    let mut cache = KnownKeys::new();
    let listed = list(&mux, &mut cache, &mut upstreams);
    assert_eq!(
        listed,
        vec![
            identity(1, "shared"),
            identity(2, "only a"),
            identity(1, "shared too"),
            identity(3, "only c")
        ]
    );
    assert_eq!(cache.get(&ed25519(1)), Some("/run/b.sock".to_string()));
    assert_eq!(cache.get(&ed25519(2)), Some("/run/a.sock".to_string()));
    assert_eq!(cache.get(&ed25519(3)), Some("/run/c.sock".to_string()));
}

#[test]
fn failing_upstreams_only_shrink_the_list() {
    let mux = MuxAgent::new(
        vec!["/a".to_string(), "/b".to_string(), "/c".to_string(), "/d".to_string(), "/e".to_string()],
        None,
        5,
    );
    let replies: Vec<ListReply> = vec![
        Err(UpstreamError::ConnectFailed),
        Ok(vec![identity(1, "one")]),
        Err(UpstreamError::RequestTimeout),
        Err(UpstreamError::Protocol),
        Ok(vec![identity(2, "two")]),
    ];
    let mut cache = KnownKeys::new();
    cache.insert(ed25519(9), "/gone".to_string());
    assert_eq!(
        mux.refresh_identities(&mut cache, &replies),
        vec![identity(1, "one"), identity(2, "two")]
    );
    assert_eq!(cache.get(&ed25519(1)), Some("/b".to_string()));
    assert_eq!(cache.get(&ed25519(2)), Some("/e".to_string()));
    assert_eq!(cache.get(&ed25519(9)), None);
}

#[test]
fn upstream_that_comes_back_is_discovered() {
    let mut upstreams = vec![
        upstream("/run/a.sock", vec![identity(1, "a")]),
        upstream("/run/b.sock", vec![identity(2, "b")]),
    ];
    upstreams[1].reachable = false;
    let mux = mux_over(&upstreams, None);
    let mut cache = KnownKeys::new();
    assert_eq!(list(&mux, &mut cache, &mut upstreams), vec![identity(1, "a")]);
    assert_eq!(cache.get(&ed25519(2)), None);
    upstreams[1].reachable = true;
    assert_eq!(
        list(&mux, &mut cache, &mut upstreams),
        vec![identity(1, "a"), identity(2, "b")]
    );
    assert_eq!(cache.get(&ed25519(2)), Some("/run/b.sock".to_string()));
}

#[test]
fn sign_on_a_miss_finds_an_upstream_that_came_back() {
    let mut upstreams = vec![
        upstream("/run/a.sock", vec![identity(1, "a")]),
        upstream("/run/b.sock", vec![identity(2, "b")]),
    ];
    upstreams[1].reachable = false;
    let mux = mux_over(&upstreams, None);
    let mut cache = KnownKeys::new();
    list(&mux, &mut cache, &mut upstreams);
    upstreams[1].reachable = true;
    assert_eq!(
        sign(&mux, &mut cache, &mut upstreams, &ed25519(2)),
        Ok("/run/b.sock".to_string())
    );
}

#[test]
fn upstream_that_disappears_is_forgotten() {
    let mut upstreams = vec![
        upstream("/run/a.sock", vec![identity(1, "a")]),
        upstream("/run/b.sock", vec![identity(2, "b")]),
    ];
    let mux = mux_over(&upstreams, None);
    let mut cache = KnownKeys::new();
    list(&mux, &mut cache, &mut upstreams);
    assert!(cache.contains_key(&ed25519(1)));
    upstreams[0].reachable = false;
    assert_eq!(list(&mux, &mut cache, &mut upstreams), vec![identity(2, "b")]);
    assert!(!cache.contains_key(&ed25519(1)));
    assert!(cache.contains_key(&ed25519(2)));
}

#[test]
fn sign_is_routed_by_the_cache() {
    let mut cache = KnownKeys::new();
    cache.insert(ed25519(1), "/run/a.sock".to_string());
    assert_eq!(
        MuxAgent::get_agent_sock_for_pubkey(&cache, &ed25519(1), false),
        SignStep::Forward("/run/a.sock".to_string())
    );
    assert_eq!(
        MuxAgent::get_agent_sock_for_pubkey(&cache, &ed25519(1), true),
        SignStep::Forward("/run/a.sock".to_string())
    );
    assert_eq!(
        MuxAgent::get_agent_sock_for_pubkey(&cache, &ed25519(7), false),
        SignStep::Refresh
    );
    assert_eq!(
        MuxAgent::get_agent_sock_for_pubkey(&cache, &ed25519(7), true),
        SignStep::NotFound(Some("SHA256:gNSIRW+2Iyiuvsdp/bgjy38bvWHw6wQm3tuoXrl3WjQ".to_string()))
    );
    assert_eq!(
        MuxAgent::get_agent_sock_for_pubkey(&cache, &PublicKey::new(vec![0]), true),
        SignStep::NotFound(None)
    );
}

#[test]
fn sign_for_an_unowned_key_refreshes_once_and_fails() {
    let mut upstreams = vec![
        upstream("/run/a.sock", vec![identity(1, "a")]),
        upstream("/run/b.sock", vec![identity(2, "b")]),
    ];
    let mux = mux_over(&upstreams, None);
    let mut cache = KnownKeys::new();
    assert_eq!(
        sign(&mux, &mut cache, &mut upstreams, &ed25519(9)),
        Err(MuxError::KeyNotFound)
    );
    assert_eq!(upstreams[0].contacts, 1);
    assert_eq!(upstreams[1].contacts, 1);
}

#[test]
fn sign_hit_contacts_only_the_owner() {
    let mut upstreams = vec![
        upstream("/run/a.sock", vec![identity(1, "a")]),
        upstream("/run/b.sock", vec![identity(2, "b")]),
    ];
    let mux = mux_over(&upstreams, None);
    let mut cache = KnownKeys::new();
    list(&mux, &mut cache, &mut upstreams);
    assert_eq!(
        sign(&mux, &mut cache, &mut upstreams, &ed25519(1)),
        Ok("/run/a.sock".to_string())
    );
    assert_eq!(upstreams[0].contacts, 2);
    assert_eq!(upstreams[1].contacts, 1);
}

#[test]
fn sign_surfaces_the_owner_failure_without_fallback() {
    let mut upstreams = vec![
        upstream("/run/a.sock", vec![identity(1, "a")]),
        upstream("/run/b.sock", vec![identity(1, "a again")]),
    ];
    let mux = mux_over(&upstreams, None);
    let mut cache = KnownKeys::new();
    list(&mux, &mut cache, &mut upstreams);
    upstreams[1].reachable = false;
    assert_eq!(
        sign(&mux, &mut cache, &mut upstreams, &ed25519(1)),
        Err(MuxError::Upstream(UpstreamError::ConnectFailed))
    );
    assert_eq!(upstreams[0].contacts, 1);
}

#[test]
fn forwarded_answers_pass_through() {
    assert_eq!(forwarded::<u8>(Ok(7)), Ok(7));
    assert_eq!(
        forwarded::<u8>(Err(UpstreamError::ConnectTimeout)),
        Err(MuxError::Upstream(UpstreamError::ConnectTimeout))
    );
    assert_eq!(
        forwarded::<()>(Err(UpstreamError::RequestTimeout)),
        Err(MuxError::Upstream(UpstreamError::RequestTimeout))
    );
    assert_eq!(
        forwarded::<()>(Err(UpstreamError::Failure)),
        Err(MuxError::Upstream(UpstreamError::Failure))
    );
    assert_eq!(
        forwarded::<()>(Err(UpstreamError::Protocol)),
        Err(MuxError::Upstream(UpstreamError::Protocol))
    );
}

#[test]
fn lock_then_list_is_empty_and_unlock_restores() {
    let keys = vec![identity(1, "rsa"), identity(2, "ecdsa"), identity(3, "ed25519")];
    let mut upstreams = vec![upstream("/run/up.sock", keys.clone())];
    let mux = mux_over(&upstreams, None);
    let mut cache = KnownKeys::new();
    assert_eq!(list(&mux, &mut cache, &mut upstreams), keys);
    assert_eq!(lock(&mux, &mut upstreams, "test-passphrase"), Ok(()));
    assert!(list(&mux, &mut cache, &mut upstreams).is_empty());
    assert!(!cache.contains_key(&ed25519(1)));
    assert_eq!(unlock(&mux, &mut upstreams, "test-passphrase"), Ok(()));
    assert_eq!(list(&mux, &mut cache, &mut upstreams), keys);
}

#[test]
fn lock_and_unlock_reach_every_upstream() {
    let mut upstreams = vec![
        upstream("/run/rsa.sock", vec![identity(1, "rsa")]),
        upstream("/run/ecdsa.sock", vec![identity(2, "ecdsa")]),
        upstream("/run/ed25519.sock", vec![identity(3, "ed25519")]),
    ];
    let mux = mux_over(&upstreams, None);
    let mut cache = KnownKeys::new();
    assert_eq!(lock(&mux, &mut upstreams, "test-passphrase"), Ok(()));
    assert!(upstreams.iter().all(|u| u.passphrase.is_some()));
    assert!(list(&mux, &mut cache, &mut upstreams).is_empty());
    assert_eq!(
        unlock(&mux, &mut upstreams, "wrong"),
        Err(MuxError::Upstream(UpstreamError::Failure))
    );
    assert_eq!(unlock(&mux, &mut upstreams, "test-passphrase"), Ok(()));
    assert!(upstreams.iter().all(|u| u.passphrase.is_none()));
    assert_eq!(list(&mux, &mut cache, &mut upstreams).len(), 3);
}

#[test]
fn lock_stops_at_the_first_unreachable_upstream() {
    let mut upstreams = vec![
        upstream("/run/a.sock", vec![]),
        upstream("/run/b.sock", vec![]),
        upstream("/run/c.sock", vec![]),
        upstream("/run/d.sock", vec![]),
    ];
    upstreams[2].reachable = false;
    let mux = mux_over(&upstreams, None);
    assert_eq!(
        lock(&mux, &mut upstreams, "pw"),
        Err(MuxError::Upstream(UpstreamError::ConnectFailed))
    );
    assert!(upstreams[0].passphrase.is_some());
    assert!(upstreams[1].passphrase.is_some());
    assert!(upstreams[2].passphrase.is_none());
    assert!(upstreams[3].passphrase.is_none());
    assert_eq!(upstreams[3].contacts, 0);
}

#[test]
fn broadcast_decisions_follow_the_replies() {
    let mux = MuxAgent::new(vec!["/a".to_string(), "/b".to_string()], None, 5);
    assert_eq!(mux.lock(&vec![]), Broadcast::Contact(0));
    assert_eq!(mux.lock(&vec![Ok(())]), Broadcast::Contact(1));
    assert_eq!(mux.lock(&vec![Ok(()), Ok(())]), Broadcast::Reply(Ok(())));
    assert_eq!(
        mux.lock(&vec![Err(UpstreamError::RequestTimeout)]),
        Broadcast::Reply(Err(MuxError::Upstream(UpstreamError::RequestTimeout)))
    );
    assert_eq!(
        mux.unlock(&vec![Ok(()), Err(UpstreamError::Failure)]),
        Broadcast::Reply(Err(MuxError::Upstream(UpstreamError::Failure)))
    );
    assert_eq!(
        mux.unlock(&vec![Err(UpstreamError::ConnectTimeout), Err(UpstreamError::Failure)]),
        Broadcast::Reply(Err(MuxError::Upstream(UpstreamError::ConnectTimeout)))
    );
    assert_eq!(mux.unlock(&vec![]), Broadcast::Contact(0));
    assert_eq!(mux.unlock(&vec![Ok(()), Ok(())]), Broadcast::Reply(Ok(())));
}

#[test]
fn query_is_answered_locally_with_the_one_extension() {
    let request = Extension { name: "query".to_string(), details: vec![] };
    let mut details = vec![0, 0, 0, 28, 0, 0, 0, 24];
    details.extend_from_slice(b"session-bind@openssh.com");
    assert_eq!(
        MuxAgent::extension(&request),
        ExtensionPlan::Answer(Extension { name: "query".to_string(), details })
    );
}

#[test]
fn query_answer_follows_the_encoder() {
    let message = Extension { name: "query".to_string(), details: vec![4, 2] };
    assert_eq!(
        MuxAgent::query_answer(Some(message.clone())),
        ExtensionPlan::Answer(message)
    );
    assert_eq!(MuxAgent::query_answer(None), ExtensionPlan::Reject(MuxError::Encoding));
}

#[test]
fn session_bind_is_broadcast_and_other_names_are_refused() {
    assert_eq!(MuxAgent::extension(&bind_request()), ExtensionPlan::Broadcast);
    for name in ["", "Query", "session-bind", "session-bind@openssh.com ", "other@example.com"] {
        let request = Extension { name: name.to_string(), details: vec![] };
        assert_eq!(
            MuxAgent::extension(&request),
            ExtensionPlan::Reject(MuxError::Unsupported)
        );
    }
}

#[test]
fn session_bind_needs_one_upstream_to_accept() {
    let declined: ExtensionReply = Err(UpstreamError::Failure);
    let accepted: ExtensionReply = Ok(None);
    let odd: ExtensionReply = Ok(Some(bind_request()));
    assert_eq!(
        MuxAgent::session_bind(&vec![declined.clone(), accepted.clone(), declined.clone()]),
        Ok(None)
    );
    assert_eq!(MuxAgent::session_bind(&vec![accepted.clone()]), Ok(None));
    assert_eq!(MuxAgent::session_bind(&vec![declined.clone(), odd]), Ok(None));
    assert_eq!(
        MuxAgent::session_bind(&vec![
            declined.clone(),
            Err(UpstreamError::ConnectFailed),
            Err(UpstreamError::ConnectTimeout),
            Err(UpstreamError::RequestTimeout),
            Err(UpstreamError::Protocol),
        ]),
        Err(MuxError::Unsupported)
    );
}

#[test]
fn add_identity_without_a_target_contacts_nobody() {
    let mut upstreams = vec![upstream("/run/a.sock", vec![])];
    let mux = mux_over(&upstreams, None);
    assert_eq!(mux.add_identity(), Err(MuxError::NotConfigured));
    assert_eq!(
        add_identity(&mux, &mut upstreams, identity(1, "new")),
        Err(MuxError::NotConfigured)
    );
    assert_eq!(upstreams[0].contacts, 0);
    assert!(upstreams[0].keys.is_empty());
}

#[test]
fn add_identity_goes_to_the_target_alone() {
    let mut upstreams = vec![upstream("/run/other.sock", vec![]), upstream("/run/target.sock", vec![])];
    let mux = mux_over(&upstreams, Some("/run/target.sock"));
    assert_eq!(mux.add_identity(), Ok("/run/target.sock".to_string()));
    assert_eq!(add_identity(&mux, &mut upstreams, identity(1, "new")), Ok(()));
    assert_eq!(upstreams[0].contacts, 0);
    assert_eq!(upstreams[1].keys, vec![identity(1, "new")]);
    upstreams[1].reachable = false;
    assert_eq!(
        add_identity(&mux, &mut upstreams, identity(2, "late")),
        Err(MuxError::Upstream(UpstreamError::ConnectTimeout))
    );
}

#[test]
fn two_upstreams_with_forwarding_end_to_end() {
    let mut upstreams = vec![
        upstream("/run/a.sock", vec![identity(1, "K1")]),
        upstream("/run/b.sock", vec![identity(2, "K2")]),
    ];
    let mux = mux_over(&upstreams, Some("/run/b.sock"));
    let mut cache = KnownKeys::new();
    assert_eq!(
        list(&mux, &mut cache, &mut upstreams),
        vec![identity(1, "K1"), identity(2, "K2")]
    );
    assert_eq!(cache.get(&ed25519(1)), Some("/run/a.sock".to_string()));
    assert_eq!(cache.get(&ed25519(2)), Some("/run/b.sock".to_string()));
    assert_eq!(
        sign(&mux, &mut cache, &mut upstreams, &ed25519(1)),
        Ok("/run/a.sock".to_string())
    );
    assert_eq!(add_identity(&mux, &mut upstreams, identity(3, "K3")), Ok(()));
    assert_eq!(upstreams[1].keys, vec![identity(2, "K2"), identity(3, "K3")]);
    assert_eq!(
        list(&mux, &mut cache, &mut upstreams),
        vec![identity(1, "K1"), identity(2, "K2"), identity(3, "K3")]
    );
    assert_eq!(cache.get(&ed25519(3)), Some("/run/b.sock".to_string()));
}

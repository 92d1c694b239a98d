//! The multiplexing session: for each agent operation, which upstream agents
//! are asked, in what order, and what the client is told once they answered.
//!
//! Nothing here opens a socket. The caller contacts the upstream agents and
//! reports how each contact ended; the functions below decide what follows.

use crate::keys::{sha256_fingerprint, Identity, KnownKeys, PublicKey};
use vstd::prelude::*;

verus! {

/// How a contact with one upstream agent failed.
#[derive(Debug, Clone, Copy, PartialEq, Eq, Structural)]
pub enum UpstreamError {
    /// The connection was not established within the timeout.
    ConnectTimeout,
    /// The connection could not be established at all.
    ConnectFailed,
    /// The upstream agent did not answer the request within the timeout.
    RequestTimeout,
    /// The upstream agent answered with its plain failure message, which is
    /// also how an agent declines an extension it does not know.
    Failure,
    /// The upstream agent answered with any other error.
    Protocol,
}

/// Why the multiplexer fails an operation towards its client.
#[derive(Debug, Clone, Copy, PartialEq, Eq, Structural)]
pub enum MuxError {
    /// The one upstream agent that had to answer failed in this way.
    Upstream(UpstreamError),
    /// No upstream agent advertises the key that a signature was asked for.
    KeyNotFound,
    /// A key was to be added, but no upstream agent is set to receive new keys.
    NotConfigured,
    /// The extension is unknown, or no upstream agent accepted it.
    Unsupported,
    /// The answer could not be put into its wire form.
    Encoding,
}

/// An extension message: its name and its undecoded payload.
#[derive(Debug, Clone, PartialEq, Eq)]
pub struct Extension {
    pub name: String,
    pub details: Vec<u8>,
}

/// How asking one upstream agent for its identities ended.
pub type ListReply = Result<Vec<Identity>, UpstreamError>;

/// How a request that is answered by success or failure alone ended.
pub type AckReply = Result<(), UpstreamError>;

/// How an extension request to one upstream agent ended.
pub type ExtensionReply = Result<Option<Extension>, UpstreamError>;

/// The next move in an all-or-nothing broadcast.
#[derive(Debug, Clone, Copy, PartialEq, Eq)]
pub enum Broadcast {
    /// Contact the upstream agent at this position of the roster next.
    Contact(usize),
    /// Contact nobody further and give the client this answer.
    Reply(Result<(), MuxError>),
}

/// The next move of a signing request.
#[derive(Debug, Clone, PartialEq, Eq)]
pub enum SignStep {
    /// The key is unknown: refresh the cache from all upstream agents, once.
    Refresh,
    /// Forward the request to the upstream agent at this socket path.
    Forward(String),
    /// The key is unknown even after a refresh: fail, naming the key by its
    /// fingerprint where it has one, and contact nobody.
    NotFound(Option<String>),
}

/// A signing request's next move, with its text as sequences of characters.
pub enum SignRoute {
    Refresh,
    Forward(Seq<char>),
    NotFound(Option<Seq<char>>),
}

impl View for SignStep {
    type V = SignRoute;

    open spec fn view(&self) -> SignRoute {
        match self {
            SignStep::Refresh => SignRoute::Refresh,
            SignStep::Forward(path) => SignRoute::Forward(path@),
            SignStep::NotFound(Some(fingerprint)) => SignRoute::NotFound(Some(fingerprint@)),
            SignStep::NotFound(None) => SignRoute::NotFound(None),
        }
    }
}

/// What is done about an extension request before any upstream is involved.
#[derive(Debug, Clone, PartialEq, Eq)]
pub enum ExtensionPlan {
    /// Answer at once with this message, contacting nobody.
    Answer(Extension),
    /// Send the request to every upstream agent of the roster.
    Broadcast,
    /// Fail at once for this reason, contacting nobody.
    Reject(MuxError),
}

/// The name of the extension that asks which extensions are on offer.
pub open spec fn query_name() -> Seq<char> {
    "query"@
}

/// The name of the one extension that is passed on to the upstream agents.
pub open spec fn session_bind_name() -> Seq<char> {
    "session-bind@openssh.com"@
}

/// A list of names, each as its sequence of characters.
pub open spec fn name_views(names: Seq<String>) -> Seq<Seq<char>> {
    names.map_values(|n: String| n@)
}

/// The payload that answers a `query` with the given extension names, in its
/// wire form, or nothing where the names cannot be put into that form.
pub uninterp spec fn query_response_details(extensions: Seq<Seq<char>>) -> Option<Seq<u8>>;

/// Calls `ssh_agent_lib::proto::Extension::new_message` on a `QueryResponse`
/// that lists `extensions`. Claimed: the message it builds is named `query`,
/// its payload is decided by the listed names alone, and it is nothing exactly
/// when the encoder refuses them.
#[verifier::external_body]
fn encode_query_response(extensions: &Vec<String>) -> (r: Option<Extension>)
    ensures
        r is Some == query_response_details(name_views(extensions@)) is Some,
        r is Some ==> r->Some_0.name@ == query_name(),
        r is Some ==> r->Some_0.details@ == query_response_details(name_views(extensions@))->Some_0,
{
    let response = ssh_agent_lib::proto::extension::QueryResponse { extensions: extensions.clone() };
    match ssh_agent_lib::proto::Extension::new_message(response) {
        Ok(message) => Some(Extension { name: message.name, details: message.details.into_bytes() }),
        Err(_) => None,
    }
}

/// The identities of a list, each as its key and comment.
pub open spec fn identity_views(ids: Seq<Identity>) -> Seq<(Seq<u8>, Seq<char>)> {
    ids.map_values(|id: Identity| id@)
}

/// The cache once the agent at `path` was recorded as holding each of `ids`.
pub open spec fn record_identities(
    cache: Map<Seq<u8>, Seq<char>>,
    ids: Seq<Identity>,
    path: Seq<char>,
) -> Map<Seq<u8>, Seq<char>>
    decreases ids.len(),
{
    if ids.len() == 0 {
        cache
    } else {
        record_identities(cache, ids.drop_last(), path).insert(ids.last().pubkey@, path)
    }
}

/// The cache that a refresh builds from the answers of the first `n` upstream
/// agents: it starts empty, and an agent that did not answer adds nothing.
pub open spec fn cache_after(roster: Seq<String>, replies: Seq<ListReply>, n: nat) -> Map<
    Seq<u8>,
    Seq<char>,
>
    decreases n,
{
    if n == 0 {
        Map::empty()
    } else {
        let before = cache_after(roster, replies, (n - 1) as nat);
        match replies[n - 1] {
            Ok(ids) => record_identities(before, ids@, roster[n - 1]@),
            Err(_) => before,
        }
    }
}

/// The identities that the first `n` upstream agents answered with, one
/// agent's after another's, in roster order.
pub open spec fn listed_after(replies: Seq<ListReply>, n: nat) -> Seq<(Seq<u8>, Seq<char>)>
    decreases n,
{
    if n == 0 {
        Seq::empty()
    } else {
        let before = listed_after(replies, (n - 1) as nat);
        match replies[n - 1] {
            Ok(ids) => before + identity_views(ids@),
            Err(_) => before,
        }
    }
}

/// The error of the first contact that failed, if any did.
pub open spec fn first_error(replies: Seq<AckReply>) -> Option<UpstreamError>
    decreases replies.len(),
{
    if replies.len() == 0 {
        None
    } else {
        match replies[0] {
            Err(e) => Some(e),
            Ok(_) => first_error(replies.skip(1)),
        }
    }
}

/// Every contact of a broadcast so far succeeded.
pub open spec fn all_agreed(replies: Seq<AckReply>) -> bool {
    forall|k: int| 0 <= k < replies.len() ==> (#[trigger] replies[k]) is Ok
}

/// `first_error` is nothing while every contact succeeded, and else the error
/// of the first contact that failed.
pub proof fn first_error_is_the_first(replies: Seq<AckReply>)
    ensures
        all_agreed(replies) ==> first_error(replies) is None,
        forall|i: int|
            0 <= i < replies.len() && (#[trigger] replies[i]) is Err && all_agreed(replies.take(i))
                ==> first_error(replies) == Some(replies[i]->Err_0),
    decreases replies.len(),
{
    if replies.len() > 0 {
        let rest = replies.skip(1);
        first_error_is_the_first(rest);
        if all_agreed(replies) {
            assert forall|k: int| 0 <= k < rest.len() implies (#[trigger] rest[k]) is Ok by {
                assert(replies[k + 1] is Ok);
            }
        }
        assert forall|i: int|
            0 <= i < replies.len() && (#[trigger] replies[i]) is Err && all_agreed(
                replies.take(i),
            ) implies first_error(replies) == Some(replies[i]->Err_0) by {
            if i > 0 {
                assert(replies.take(i)[0] is Ok);
                assert(rest[i - 1] == replies[i]);
                assert forall|k: int| 0 <= k < i - 1 implies (#[trigger] rest.take(i - 1)[k]) is Ok by {
                    assert(replies.take(i)[k + 1] is Ok);
                }
            }
        }
    }
}

/// The next move of a broadcast over `upstreams` agents of which the first
/// `replies.len()` have been contacted: stop at the first failure, go on to
/// the next agent while there is one, succeed when all have agreed.
pub open spec fn broadcast_decision(upstreams: nat, replies: Seq<AckReply>) -> Broadcast {
    match first_error(replies) {
        Some(e) => Broadcast::Reply(Err(MuxError::Upstream(e))),
        None => if replies.len() >= upstreams {
            Broadcast::Reply(Ok(()))
        } else {
            Broadcast::Contact(replies.len() as usize)
        },
    }
}

/// The next move of a signing request for `key`, given the cache and whether
/// this request has already refreshed it.
pub open spec fn sign_route(cache: Map<Seq<u8>, Seq<char>>, key: Seq<u8>, refreshed: bool)
    -> SignRoute {
    if cache.contains_key(key) {
        SignRoute::Forward(cache[key])
    } else if refreshed {
        SignRoute::NotFound(sha256_fingerprint(key))
    } else {
        SignRoute::Refresh
    }
}

/// Whether any upstream agent accepted the extension.
pub open spec fn any_accepted(replies: Seq<ExtensionReply>) -> bool {
    exists|i: int| 0 <= i < replies.len() && (#[trigger] replies[i]) is Ok
}

/// One multiplexer run's fixed configuration: the roster of upstream agents,
/// the agent that receives new keys, and the time allowed for each contact.
#[derive(Debug, Clone, PartialEq, Eq)]
pub struct MuxAgent {
    /// Socket paths of the upstream agents, in the order they are contacted.
    pub socket_paths: Vec<String>,
    /// Socket path of the upstream agent that new keys are forwarded to.
    pub added_keys_sock: Option<String>,
    /// Seconds allowed for a connection and for each request.
    pub agent_timeout: u64,
}

/// What the client is told when the one upstream agent that a request was
/// forwarded to has answered: its answer, or its own failure.
pub fn forwarded<T>(reply: Result<T, UpstreamError>) -> (r: Result<T, MuxError>)
    ensures
        match reply {
            Ok(v) => r == Ok::<T, MuxError>(v),
            Err(e) => r == Err::<T, MuxError>(MuxError::Upstream(e)),
        },
{
    match reply {
        Ok(v) => Ok(v),
        Err(e) => Err(MuxError::Upstream(e)),
    }
}

/// The next move of a broadcast that stops at the first failure.
fn broadcast_all(upstreams: usize, replies: &Vec<AckReply>) -> (r: Broadcast)
    ensures
        r == broadcast_decision(upstreams as nat, replies@),
        all_agreed(replies@) && replies.len() < upstreams ==> r == Broadcast::Contact(
            replies.len(),
        ),
        all_agreed(replies@) && replies.len() >= upstreams ==> r == Broadcast::Reply(Ok(())),
        forall|i: int|
            0 <= i < replies.len() && (#[trigger] replies@[i]) is Err && all_agreed(
                replies@.take(i),
            ) ==> r == Broadcast::Reply(Err(MuxError::Upstream(replies@[i]->Err_0))),
{
    let mut i: usize = 0;
    proof {
        assert(replies@.skip(0) =~= replies@);
    }
    while i < replies.len()
        invariant
            i <= replies.len(),
            first_error(replies@) == first_error(replies@.skip(i as int)),
        decreases replies.len() - i,
    {
        proof {
            assert(replies@.skip(i as int).skip(1) =~= replies@.skip(i + 1));
        }
        match replies[i] {
            Err(e) => {
                proof {
                    first_error_is_the_first(replies@);
                }
                return Broadcast::Reply(Err(MuxError::Upstream(e)));
            },
            Ok(_) => {},
        }
        i += 1;
    }
    proof {
        first_error_is_the_first(replies@);
    }
    if replies.len() >= upstreams {
        Broadcast::Reply(Ok(()))
    } else {
        Broadcast::Contact(replies.len())
    }
}

impl MuxAgent {
    /// A run over `socket_paths`, forwarding new keys to `added_keys_sock`.
    pub fn new(socket_paths: Vec<String>, added_keys_sock: Option<String>, agent_timeout: u64) -> (r:
        MuxAgent)
        ensures
            r.socket_paths == socket_paths,
            r.added_keys_sock == added_keys_sock,
            r.agent_timeout == agent_timeout,
    {
        MuxAgent { socket_paths, added_keys_sock, agent_timeout }
    }

    /// Rebuilds the cache from scratch out of what each upstream agent of the
    /// roster answered when asked for its identities, `replies[i]` being the
    /// answer of `socket_paths[i]`, and returns the identities of all that
    /// answered, in roster order. An agent that failed is passed over.
    pub fn refresh_identities(&self, known_keys: &mut KnownKeys, replies: &Vec<ListReply>) -> (identities:
        Vec<Identity>)
        requires
            replies.len() == self.socket_paths.len(),
        ensures
            final(known_keys)@ == cache_after(
                self.socket_paths@,
                replies@,
                replies.len() as nat,
            ),
            identity_views(identities@) == listed_after(replies@, replies.len() as nat),
    {
        let mut identities: Vec<Identity> = Vec::new();
        known_keys.clear();
        let mut i: usize = 0;
        proof {
            assert(identity_views(identities@) =~= listed_after(replies@, 0));
        }
        while i < replies.len()
            invariant
                i <= replies.len(),
                replies.len() == self.socket_paths.len(),
                known_keys@ == cache_after(self.socket_paths@, replies@, i as nat),
                identity_views(identities@) == listed_after(replies@, i as nat),
            decreases replies.len() - i,
        {
            match &replies[i] {
                Ok(ids) => {
                    let mut j: usize = 0;
                    proof {
                        assert(ids@.take(0) =~= Seq::<Identity>::empty());
                        assert(identity_views(identities@) =~= listed_after(replies@, i as nat)
                            + identity_views(ids@.take(0)));
                    }
                    while j < ids.len()
                        invariant
                            j <= ids.len(),
                            i < self.socket_paths.len(),
                            known_keys@ == record_identities(
                                cache_after(self.socket_paths@, replies@, i as nat),
                                ids@.take(j as int),
                                self.socket_paths@[i as int]@,
                            ),
                            identity_views(identities@) == listed_after(replies@, i as nat)
                                + identity_views(ids@.take(j as int)),
                        decreases ids.len() - j,
                    {
                        let ghost listed = identities@;
                        known_keys.insert(ids[j].pubkey.duplicate(), self.socket_paths[i].clone());
                        identities.push(ids[j].duplicate());
                        proof {
                            let longer = ids@.take(j + 1);
                            assert(longer.drop_last() =~= ids@.take(j as int));
                            assert(longer.last() == ids@[j as int]);
                            assert(identity_views(identities@) =~= identity_views(listed).push(
                                ids@[j as int]@,
                            ));
                            assert(identity_views(longer) =~= identity_views(
                                ids@.take(j as int),
                            ).push(ids@[j as int]@));
                            assert(identity_views(identities@) =~= listed_after(
                                replies@,
                                i as nat,
                            ) + identity_views(longer));
                        }
                        j += 1;
                    }
                    proof {
                        assert(ids@.take(ids.len() as int) =~= ids@);
                    }
                },
                Err(_) => {},
            }
            i += 1;
        }
        identities
    }

    /// The next move of a signing request for `pubkey`: forward it to the
    /// agent the cache names; if the cache names none, refresh the cache once;
    /// if it still names none after that, fail.
    pub fn get_agent_sock_for_pubkey(known_keys: &KnownKeys, pubkey: &PublicKey, refreshed: bool) -> (r:
        SignStep)
        ensures
            r@ == sign_route(known_keys@, pubkey@, refreshed),
    {
        match known_keys.get(pubkey) {
            Some(path) => SignStep::Forward(path),
            None => if refreshed {
                SignStep::NotFound(pubkey.fingerprint())
            } else {
                SignStep::Refresh
            },
        }
    }

    /// The next move of a lock request, `replies` being how locking the first
    /// `replies.len()` agents of the roster ended.
    pub fn lock(&self, replies: &Vec<AckReply>) -> (r: Broadcast)
        ensures
            r == broadcast_decision(self.socket_paths@.len(), replies@),
            all_agreed(replies@) && replies.len() < self.socket_paths.len() ==> r
                == Broadcast::Contact(replies.len()),
            all_agreed(replies@) && replies.len() >= self.socket_paths.len() ==> r
                == Broadcast::Reply(Ok(())),
            forall|i: int|
                0 <= i < replies.len() && (#[trigger] replies@[i]) is Err && all_agreed(
                    replies@.take(i),
                ) ==> r == Broadcast::Reply(Err(MuxError::Upstream(replies@[i]->Err_0))),
    {
        broadcast_all(self.socket_paths.len(), replies)
    }

    /// The next move of an unlock request, `replies` being how unlocking the
    /// first `replies.len()` agents of the roster ended.
    pub fn unlock(&self, replies: &Vec<AckReply>) -> (r: Broadcast)
        ensures
            r == broadcast_decision(self.socket_paths@.len(), replies@),
            all_agreed(replies@) && replies.len() < self.socket_paths.len() ==> r
                == Broadcast::Contact(replies.len()),
            all_agreed(replies@) && replies.len() >= self.socket_paths.len() ==> r
                == Broadcast::Reply(Ok(())),
            forall|i: int|
                0 <= i < replies.len() && (#[trigger] replies@[i]) is Err && all_agreed(
                    replies@.take(i),
                ) ==> r == Broadcast::Reply(Err(MuxError::Upstream(replies@[i]->Err_0))),
    {
        broadcast_all(self.socket_paths.len(), replies)
    }

    /// Where a new key goes: to the agent set to receive new keys, or nowhere
    /// when none is set.
    pub fn add_identity(&self) -> (r: Result<String, MuxError>)
        ensures
            match self.added_keys_sock {
                Some(path) => r is Ok && r->Ok_0@ == path@,
                None => r == Err::<String, MuxError>(MuxError::NotConfigured),
            },
    {
        match &self.added_keys_sock {
            Some(path) => Ok(path.clone()),
            None => Err(MuxError::NotConfigured),
        }
    }

    /// The answer to a `query`, given what encoding the list of extensions on
    /// offer came to: the encoded message, or a failure where there is none.
    pub fn query_answer(encoded: Option<Extension>) -> (r: ExtensionPlan)
        ensures
            r == match encoded {
                Some(message) => ExtensionPlan::Answer(message),
                None => ExtensionPlan::Reject(MuxError::Encoding),
            },
    {
        match encoded {
            Some(message) => ExtensionPlan::Answer(message),
            None => ExtensionPlan::Reject(MuxError::Encoding),
        }
    }

    /// What is done about an extension request, by its name alone: a `query`
    /// is answered at once with the one extension on offer, a session binding
    /// goes to the upstream agents, anything else is refused as unsupported.
    pub fn extension(request: &Extension) -> (r: ExtensionPlan)
        ensures
            request.name@ == query_name() ==> match query_response_details(
                seq![session_bind_name()],
            ) {
                Some(details) => r is Answer && r->Answer_0.name@ == query_name()
                    && r->Answer_0.details@ == details,
                None => r == ExtensionPlan::Reject(MuxError::Encoding),
            },
            request.name@ == session_bind_name() ==> r == ExtensionPlan::Broadcast,
            request.name@ != query_name() && request.name@ != session_bind_name() ==> r
                == ExtensionPlan::Reject(MuxError::Unsupported),
    {
        proof {
            reveal_strlit("query");
            reveal_strlit("session-bind@openssh.com");
        }
        if request.name == "query".to_owned() {
            let mut extensions: Vec<String> = Vec::new();
            extensions.push("session-bind@openssh.com".to_owned());
            proof {
                assert(name_views(extensions@) =~= seq![session_bind_name()]);
                assert(query_name().len() == 5);
                assert(session_bind_name().len() == 24);
            }
            MuxAgent::query_answer(encode_query_response(&extensions))
        } else if request.name == "session-bind@openssh.com".to_owned() {
            ExtensionPlan::Broadcast
        } else {
            ExtensionPlan::Reject(MuxError::Unsupported)
        }
    }

    /// What the client is told about a session binding once every upstream
    /// agent of the roster was tried: success, with no payload, if any of
    /// them accepted it, whatever the others did.
    pub fn session_bind(replies: &Vec<ExtensionReply>) -> (r: Result<Option<Extension>, MuxError>)
        ensures
            any_accepted(replies@) ==> r is Ok && r->Ok_0 is None,
            !any_accepted(replies@) ==> r == Err::<Option<Extension>, MuxError>(
                MuxError::Unsupported,
            ),
    {
        let mut i: usize = 0;
        while i < replies.len()
            invariant
                i <= replies.len(),
                forall|k: int| 0 <= k < i ==> (#[trigger] replies@[k]) is Err,
            decreases replies.len() - i,
        {
            if replies[i].is_ok() {
                return Ok(None);
            }
            i += 1;
        }
        Err(MuxError::Unsupported)
    }
}

} // verus!

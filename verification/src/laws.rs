//! What holds of the multiplexer whatever the roster and whatever the
//! upstream agents answer.

use crate::keys::{sha256_fingerprint, Identity};
use crate::mux::{
    all_agreed, broadcast_decision, cache_after, first_error_is_the_first, identity_views,
    listed_after, record_identities, sign_route, AckReply, Broadcast, ListReply, MuxError,
    SignRoute,
};
use vstd::prelude::*;

verus! {

/// `key` is the key of one of `ids`.
pub open spec fn holds_key(ids: Seq<Identity>, key: Seq<u8>) -> bool {
    exists|j: int| 0 <= j < ids.len() && (#[trigger] ids[j]).pubkey@ == key
}

/// The upstream agent at position `i` answered, and listed `key`.
pub open spec fn advertises(replies: Seq<ListReply>, i: int, key: Seq<u8>) -> bool {
    &&& 0 <= i < replies.len()
    &&& replies[i] is Ok
    &&& holds_key(replies[i]->Ok_0@, key)
}

/// The upstream agent at position `i` answered, and listed `identity`.
pub open spec fn answers_with(replies: Seq<ListReply>, i: int, identity: (Seq<u8>, Seq<char>)) -> bool {
    &&& 0 <= i < replies.len()
    &&& replies[i] is Ok
    &&& identity_views(replies[i]->Ok_0@).contains(identity)
}

/// The key of the identity that the upstream agent at position `i` listed
/// in place `j`.
pub open spec fn key_at(replies: Seq<ListReply>, i: int, j: int) -> Seq<u8> {
    replies[i]->Ok_0@[j].pubkey@
}

/// The upstream agent at position `i` answered with an identity in place `j`.
pub open spec fn lists_at(replies: Seq<ListReply>, i: int, j: int) -> bool {
    &&& 0 <= i < replies.len()
    &&& replies[i] is Ok
    &&& 0 <= j < replies[i]->Ok_0@.len()
}

/// No key is listed twice, neither by one upstream agent nor by two.
pub open spec fn listed_once(replies: Seq<ListReply>) -> bool {
    forall|i: int, j: int, i2: int, j2: int|
        lists_at(replies, i, j) && lists_at(replies, i2, j2) && (i != i2 || j != j2)
            ==> #[trigger] key_at(replies, i, j) != #[trigger] key_at(replies, i2, j2)
}

proof fn lemma_record_identities(
    cache: Map<Seq<u8>, Seq<char>>,
    ids: Seq<Identity>,
    path: Seq<char>,
    key: Seq<u8>,
)
    ensures
        record_identities(cache, ids, path).contains_key(key) <==> cache.contains_key(key)
            || holds_key(ids, key),
        holds_key(ids, key) ==> record_identities(cache, ids, path)[key] == path,
        !holds_key(ids, key) && cache.contains_key(key) ==> record_identities(cache, ids, path)[key]
            == cache[key],
    decreases ids.len(),
{
    if ids.len() > 0 {
        let shorter = ids.drop_last();
        lemma_record_identities(cache, shorter, path, key);
        if holds_key(shorter, key) {
            let j = choose|j: int| 0 <= j < shorter.len() && (#[trigger] shorter[j]).pubkey@ == key;
            assert(ids[j].pubkey@ == key);
        }
        if ids.last().pubkey@ == key {
            assert(ids[ids.len() - 1].pubkey@ == key);
        }
        if holds_key(ids, key) {
            let j = choose|j: int| 0 <= j < ids.len() && (#[trigger] ids[j]).pubkey@ == key;
            if j < shorter.len() {
                assert(shorter[j].pubkey@ == key);
            }
        }
    }
}

proof fn lemma_cache_after(roster: Seq<String>, replies: Seq<ListReply>, n: nat, key: Seq<u8>)
    requires
        n <= replies.len(),
    ensures
        cache_after(roster, replies, n).contains_key(key) <==> exists|i: int|
            0 <= i < n && advertises(replies, i, key),
        forall|i: int|
            0 <= i < n && #[trigger] advertises(replies, i, key) && (forall|k: int|
                i < k < n ==> !advertises(replies, k, key)) ==> cache_after(roster, replies, n)[key]
                == roster[i]@,
    decreases n,
{
    if n > 0 {
        let m = (n - 1) as nat;
        let before = cache_after(roster, replies, m);
        let after = cache_after(roster, replies, n);
        lemma_cache_after(roster, replies, m, key);
        match replies[n - 1] {
            Ok(ids) => {
                lemma_record_identities(before, ids@, roster[n - 1]@, key);
            },
            Err(_) => {},
        }
        if after.contains_key(key) {
            if advertises(replies, n - 1, key) {
            } else {
                let i = choose|i: int| 0 <= i < m && advertises(replies, i, key);
                assert(0 <= i < n && advertises(replies, i, key));
            }
        }
        assert forall|i: int|
            0 <= i < n && #[trigger] advertises(replies, i, key) && (forall|k: int|
                i < k < n ==> !advertises(replies, k, key)) implies after[key] == roster[i]@ by {
            if i < n - 1 {
                assert(!advertises(replies, n - 1, key));
                assert(forall|k: int| i < k < m ==> !advertises(replies, k, key));
                assert(before.contains_key(key));
                assert(before[key] == roster[i]@);
            }
        }
    }
}

proof fn lemma_listed_after(replies: Seq<ListReply>, n: nat, identity: (Seq<u8>, Seq<char>))
    requires
        n <= replies.len(),
    ensures
        listed_after(replies, n).contains(identity) <==> exists|i: int|
            0 <= i < n && answers_with(replies, i, identity),
    decreases n,
{
    if n > 0 {
        let m = (n - 1) as nat;
        let before = listed_after(replies, m);
        let after = listed_after(replies, n);
        lemma_listed_after(replies, m, identity);
        match replies[n - 1] {
            Ok(ids) => {
                let added = identity_views(ids@);
                assert(after == before + added);
                if before.contains(identity) {
                    let p = choose|p: int| 0 <= p < before.len() && before[p] == identity;
                    assert(after[p] == identity);
                }
                if added.contains(identity) {
                    let p = choose|p: int| 0 <= p < added.len() && added[p] == identity;
                    assert(after[before.len() + p] == identity);
                    assert(answers_with(replies, n - 1, identity));
                }
                if after.contains(identity) {
                    let p = choose|p: int| 0 <= p < after.len() && after[p] == identity;
                    if p < before.len() {
                        assert(before[p] == identity);
                    } else {
                        assert(added[p - before.len()] == identity);
                    }
                }
            },
            Err(_) => {},
        }
        if before.contains(identity) {
            let i = choose|i: int| 0 <= i < m && answers_with(replies, i, identity);
            assert(0 <= i < n && answers_with(replies, i, identity));
        }
    }
}

/// After a refresh the cache knows a key exactly when some upstream agent
/// that answered listed it: each such key once, and no key that none of them
/// lists any more, whatever the cache held before.
pub proof fn refresh_caches_what_is_advertised(
    roster: Seq<String>,
    replies: Seq<ListReply>,
    key: Seq<u8>,
)
    requires
        roster.len() == replies.len(),
    ensures
        cache_after(roster, replies, replies.len()).contains_key(key) <==> exists|i: int|
            advertises(replies, i, key),
{
    lemma_cache_after(roster, replies, replies.len(), key);
    if exists|i: int| advertises(replies, i, key) {
        let i = choose|i: int| advertises(replies, i, key);
        assert(0 <= i < replies.len() && advertises(replies, i, key));
    }
}

/// Where several upstream agents list one key, the cache names the last of
/// them in roster order.
pub proof fn refresh_last_advertiser_wins(
    roster: Seq<String>,
    replies: Seq<ListReply>,
    key: Seq<u8>,
    last: int,
)
    requires
        roster.len() == replies.len(),
        advertises(replies, last, key),
        forall|k: int| last < k < replies.len() ==> !advertises(replies, k, key),
    ensures
        cache_after(roster, replies, replies.len()).contains_key(key),
        cache_after(roster, replies, replies.len())[key] == roster[last]@,
{
    lemma_cache_after(roster, replies, replies.len(), key);
}

/// The list that a refresh returns holds an identity exactly when some
/// upstream agent that answered listed it.
pub proof fn refresh_lists_what_is_answered(replies: Seq<ListReply>, identity: (Seq<u8>, Seq<char>))
    ensures
        listed_after(replies, replies.len()).contains(identity) <==> exists|i: int|
            answers_with(replies, i, identity),
{
    lemma_listed_after(replies, replies.len(), identity);
    if exists|i: int| answers_with(replies, i, identity) {
        let i = choose|i: int| answers_with(replies, i, identity);
        assert(0 <= i < replies.len() && answers_with(replies, i, identity));
    }
}

/// Which upstream agent, and which place in its answer, the identity in
/// place `p` of the returned list comes from.
pub open spec fn origin_of(replies: Seq<ListReply>, n: nat, p: int) -> (int, int)
    decreases n,
{
    if n == 0 {
        (0, 0)
    } else if p < listed_after(replies, (n - 1) as nat).len() {
        origin_of(replies, (n - 1) as nat, p)
    } else {
        (n - 1, p - listed_after(replies, (n - 1) as nat).len())
    }
}

proof fn lemma_origin(replies: Seq<ListReply>, n: nat, p: int)
    requires
        n <= replies.len(),
        0 <= p < listed_after(replies, n).len(),
    ensures
        origin_of(replies, n, p).0 < n,
        lists_at(replies, origin_of(replies, n, p).0, origin_of(replies, n, p).1),
        listed_after(replies, n)[p] == replies[origin_of(replies, n, p).0]->Ok_0@[origin_of(
            replies,
            n,
            p,
        ).1]@,
    decreases n,
{
    if n > 0 {
        let m = (n - 1) as nat;
        if p < listed_after(replies, m).len() {
            lemma_origin(replies, m, p);
        }
    }
}

proof fn lemma_origin_increases(replies: Seq<ListReply>, n: nat, p: int, q: int)
    requires
        n <= replies.len(),
        0 <= p < q < listed_after(replies, n).len(),
    ensures
        origin_of(replies, n, p).0 < origin_of(replies, n, q).0 || (origin_of(replies, n, p).0
            == origin_of(replies, n, q).0 && origin_of(replies, n, p).1 < origin_of(
            replies,
            n,
            q,
        ).1),
    decreases n,
{
    if n > 0 {
        let m = (n - 1) as nat;
        let before = listed_after(replies, m);
        if q < before.len() {
            lemma_origin_increases(replies, m, p, q);
        } else if p < before.len() {
            lemma_origin(replies, m, p);
        }
    }
}

/// Where no key is listed twice by the upstream agents that answered, no key
/// occurs twice in the list that a refresh returns.
pub proof fn refresh_lists_each_key_once(replies: Seq<ListReply>, p: int, q: int)
    requires
        listed_once(replies),
        0 <= p < q < listed_after(replies, replies.len()).len(),
    ensures
        listed_after(replies, replies.len())[p].0 != listed_after(replies, replies.len())[q].0,
{
    let first = origin_of(replies, replies.len(), p);
    let second = origin_of(replies, replies.len(), q);
    lemma_origin(replies, replies.len(), p);
    lemma_origin(replies, replies.len(), q);
    lemma_origin_increases(replies, replies.len(), p, q);
    assert(key_at(replies, first.0, first.1) != key_at(replies, second.0, second.1));
}

/// An upstream agent that answers this time is found, whatever happened the
/// time before: each identity it lists is in the returned list and its key is
/// in the cache.
pub proof fn refresh_discovers_reachable_upstream(
    roster: Seq<String>,
    replies: Seq<ListReply>,
    i: int,
    j: int,
)
    requires
        roster.len() == replies.len(),
        0 <= i < replies.len(),
        replies[i] is Ok,
        0 <= j < replies[i]->Ok_0@.len(),
    ensures
        listed_after(replies, replies.len()).contains(replies[i]->Ok_0@[j]@),
        cache_after(roster, replies, replies.len()).contains_key(replies[i]->Ok_0@[j].pubkey@),
{
    let ids = replies[i]->Ok_0@;
    assert(identity_views(ids)[j] == ids[j]@);
    assert(answers_with(replies, i, ids[j]@));
    refresh_lists_what_is_answered(replies, ids[j]@);
    assert(holds_key(ids, ids[j].pubkey@));
    assert(advertises(replies, i, ids[j].pubkey@));
    refresh_caches_what_is_advertised(roster, replies, ids[j].pubkey@);
}

/// A key that no answering upstream agent lists is not found: the signing
/// request that has refreshed the cache fails without a further contact,
/// naming the key by its fingerprint.
pub proof fn sign_of_unowned_key_is_not_found(
    roster: Seq<String>,
    replies: Seq<ListReply>,
    key: Seq<u8>,
)
    requires
        roster.len() == replies.len(),
        forall|i: int| !advertises(replies, i, key),
    ensures
        sign_route(cache_after(roster, replies, replies.len()), key, true) == SignRoute::NotFound(
            sha256_fingerprint(key),
        ),
{
    refresh_caches_what_is_advertised(roster, replies, key);
}

/// A signing request for a key that some answering upstream agent lists is
/// forwarded, once the cache is refreshed, to the last agent in roster order
/// that lists it, and to no other.
pub proof fn sign_after_refresh_reaches_last_advertiser(
    roster: Seq<String>,
    replies: Seq<ListReply>,
    key: Seq<u8>,
    last: int,
    refreshed: bool,
)
    requires
        roster.len() == replies.len(),
        advertises(replies, last, key),
        forall|k: int| last < k < replies.len() ==> !advertises(replies, k, key),
    ensures
        sign_route(cache_after(roster, replies, replies.len()), key, refreshed)
            == SignRoute::Forward(roster[last]@),
{
    refresh_last_advertiser_wins(roster, replies, key, last);
}

/// A signing request refreshes the cache at most once: after a refresh it is
/// either forwarded to the one agent that the cache names, or it fails.
pub proof fn sign_refreshes_at_most_once(cache: Map<Seq<u8>, Seq<char>>, key: Seq<u8>)
    ensures
        sign_route(cache, key, true) != SignRoute::Refresh,
        cache.contains_key(key) ==> sign_route(cache, key, false) == SignRoute::Forward(cache[key]),
{
}

/// A broadcast in which the upstream agent at position `failed` is the first
/// to fail contacts the agents before it and that agent, one after another in
/// roster order, then fails with that agent's error; no agent after it is
/// contacted, whatever is reported of them.
pub proof fn broadcast_stops_at_first_failure(
    upstreams: nat,
    replies: Seq<AckReply>,
    failed: int,
)
    requires
        0 <= failed < replies.len(),
        failed < upstreams,
        replies[failed] is Err,
        all_agreed(replies.take(failed)),
    ensures
        forall|j: int|
            0 <= j <= failed ==> #[trigger] broadcast_decision(upstreams, replies.take(j))
                == Broadcast::Contact(j as usize),
        forall|m: int|
            failed < m <= replies.len() ==> #[trigger] broadcast_decision(upstreams, replies.take(m))
                == Broadcast::Reply(Err(MuxError::Upstream(replies[failed]->Err_0))),
{
    assert forall|j: int| 0 <= j <= failed implies #[trigger] broadcast_decision(
        upstreams,
        replies.take(j),
    ) == Broadcast::Contact(j as usize) by {
        let seen = replies.take(j);
        assert forall|k: int| 0 <= k < seen.len() implies (#[trigger] seen[k]) is Ok by {
            assert(replies.take(failed)[k] is Ok);
        }
        first_error_is_the_first(seen);
    }
    assert forall|m: int| failed < m <= replies.len() implies #[trigger] broadcast_decision(
        upstreams,
        replies.take(m),
    ) == Broadcast::Reply(Err(MuxError::Upstream(replies[failed]->Err_0))) by {
        let seen = replies.take(m);
        assert(seen.take(failed) =~= replies.take(failed));
        assert(seen[failed] == replies[failed]);
        first_error_is_the_first(seen);
    }
}

/// A broadcast in which every upstream agent agrees contacts each agent of
/// the roster, one after another in roster order, and then succeeds.
pub proof fn broadcast_reaches_every_upstream(upstreams: nat, replies: Seq<AckReply>)
    requires
        replies.len() == upstreams,
        all_agreed(replies),
    ensures
        forall|j: int|
            0 <= j < upstreams ==> #[trigger] broadcast_decision(upstreams, replies.take(j))
                == Broadcast::Contact(j as usize),
        broadcast_decision(upstreams, replies) == Broadcast::Reply(Ok(())),
{
    first_error_is_the_first(replies);
    assert forall|j: int| 0 <= j < upstreams implies #[trigger] broadcast_decision(
        upstreams,
        replies.take(j),
    ) == Broadcast::Contact(j as usize) by {
        let seen = replies.take(j);
        assert forall|k: int| 0 <= k < seen.len() implies (#[trigger] seen[k]) is Ok by {
            assert(replies[k] is Ok);
        }
        first_error_is_the_first(seen);
    }
}

/// While no upstream agent lists an identity, as when all of them are locked,
/// a refresh returns nothing and leaves the cache empty.
pub proof fn refresh_of_silent_upstreams_is_empty(roster: Seq<String>, replies: Seq<ListReply>)
    requires
        roster.len() == replies.len(),
        forall|i: int|
            0 <= i < replies.len() && (#[trigger] replies[i]) is Ok ==> replies[i]->Ok_0@.len() == 0,
    ensures
        listed_after(replies, replies.len()) == Seq::<(Seq<u8>, Seq<char>)>::empty(),
        cache_after(roster, replies, replies.len()) == Map::<Seq<u8>, Seq<char>>::empty(),
{
    let listed = listed_after(replies, replies.len());
    let cache = cache_after(roster, replies, replies.len());
    if listed.len() > 0 {
        assert(listed.contains(listed[0]));
        refresh_lists_what_is_answered(replies, listed[0]);
        let i = choose|i: int| answers_with(replies, i, listed[0]);
        assert(identity_views(replies[i]->Ok_0@).len() == 0);
    }
    assert(listed =~= Seq::<(Seq<u8>, Seq<char>)>::empty());
    assert forall|key: Seq<u8>| !cache.contains_key(key) by {
        refresh_caches_what_is_advertised(roster, replies, key);
    }
    assert(cache =~= Map::<Seq<u8>, Seq<char>>::empty());
}

} // verus!

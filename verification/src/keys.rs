//! Public keys, identities, and the cache that remembers which upstream agent
//! advertised which key.

use vstd::prelude::*;

verus! {

/// An SSH public key in its wire encoding: the algorithm name followed by the
/// key material. Two keys are the same key exactly when their encodings agree.
#[derive(Debug, Clone, PartialEq, Eq)]
pub struct PublicKey {
    pub blob: Vec<u8>,
}

impl View for PublicKey {
    type V = Seq<u8>;

    open spec fn view(&self) -> Seq<u8> {
        self.blob@
    }
}

/// Copies a byte string.
pub fn copy_bytes(bytes: &Vec<u8>) -> (r: Vec<u8>)
    ensures
        r@ == bytes@,
{
    let mut out: Vec<u8> = Vec::new();
    let mut i: usize = 0;
    while i < bytes.len()
        invariant
            i <= bytes.len(),
            out@ == bytes@.take(i as int),
        decreases bytes.len() - i,
    {
        out.push(bytes[i]);
        proof {
            assert(bytes@.take(i + 1) =~= bytes@.take(i as int).push(bytes@[i as int]));
        }
        i += 1;
    }
    proof {
        assert(bytes@.take(bytes.len() as int) =~= bytes@);
    }
    out
}

/// Tells whether two byte strings hold the same bytes.
pub fn same_bytes(a: &Vec<u8>, b: &Vec<u8>) -> (r: bool)
    ensures
        r == (a@ == b@),
{
    if a.len() != b.len() {
        return false;
    }
    let mut i: usize = 0;
    while i < a.len()
        invariant
            a.len() == b.len(),
            i <= a.len(),
            a@.take(i as int) == b@.take(i as int),
        decreases a.len() - i,
    {
        if a[i] != b[i] {
            return false;
        }
        proof {
            assert(a@.take(i + 1) =~= a@.take(i as int).push(a@[i as int]));
            assert(b@.take(i + 1) =~= b@.take(i as int).push(b@[i as int]));
        }
        i += 1;
    }
    proof {
        assert(a@.take(a.len() as int) =~= a@);
        assert(b@.take(b.len() as int) =~= b@);
    }
    true
}

/// The SHA-256 fingerprint of the key that `blob` encodes, in the usual
/// notation (`SHA256:` and the digest in base 64), or nothing where `blob` is
/// not the encoding of a key.
pub uninterp spec fn sha256_fingerprint(blob: Seq<u8>) -> Option<Seq<char>>;

/// Calls `ssh_key::PublicKey::from_bytes` and, on the key it yields,
/// `fingerprint` with SHA-256, written out as text. Claimed: the outcome is
/// decided by the bytes alone, and is nothing exactly when the bytes are
/// refused as a key.
#[verifier::external_body]
fn key_fingerprint(blob: &Vec<u8>) -> (r: Option<String>)
    ensures
        r is Some == sha256_fingerprint(blob@) is Some,
        r is Some ==> r->Some_0@ == sha256_fingerprint(blob@)->Some_0,
{
    match ssh_agent_lib::ssh_key::PublicKey::from_bytes(blob.as_slice()) {
        Ok(key) => Some(key.fingerprint(ssh_agent_lib::ssh_key::HashAlg::Sha256).to_string()),
        Err(_) => None,
    }
}

impl PublicKey {
    /// Wraps an encoded key.
    pub fn new(blob: Vec<u8>) -> (r: PublicKey)
        ensures
            r@ == blob@,
    {
        PublicKey { blob }
    }

    /// Whether `other` is the same key.
    pub fn same_key(&self, other: &PublicKey) -> (r: bool)
        ensures
            r == (self@ == other@),
    {
        same_bytes(&self.blob, &other.blob)
    }

    /// The key's SHA-256 fingerprint, by which people and logs name it;
    /// nothing where the bytes are not the encoding of a key.
    pub fn fingerprint(&self) -> (r: Option<String>)
        ensures
            r is Some == sha256_fingerprint(self@) is Some,
            r is Some ==> r->Some_0@ == sha256_fingerprint(self@)->Some_0,
    {
        key_fingerprint(&self.blob)
    }

    /// A second value for the same key.
    pub fn duplicate(&self) -> (r: PublicKey)
        ensures
            r@ == self@,
    {
        PublicKey { blob: copy_bytes(&self.blob) }
    }
}

/// What an upstream agent advertises: a public key and a free-form comment.
#[derive(Debug, Clone, PartialEq, Eq)]
pub struct Identity {
    pub pubkey: PublicKey,
    pub comment: String,
}

impl View for Identity {
    type V = (Seq<u8>, Seq<char>);

    open spec fn view(&self) -> (Seq<u8>, Seq<char>) {
        (self.pubkey@, self.comment@)
    }
}

impl Identity {
    /// An identity from its two parts.
    pub fn new(pubkey: PublicKey, comment: String) -> (r: Identity)
        ensures
            r@ == (pubkey@, comment@),
    {
        Identity { pubkey, comment }
    }

    /// A second value for the same identity.
    pub fn duplicate(&self) -> (r: Identity)
        ensures
            r@ == self@,
    {
        Identity { pubkey: self.pubkey.duplicate(), comment: self.comment.clone() }
    }
}

/// One remembered advertisement. Later entries shadow earlier ones for the
/// same key.
#[derive(Debug)]
struct Entry {
    key: PublicKey,
    path: String,
}

/// The mapping that a sequence of advertisements amounts to, the last one for
/// each key being the one that counts.
spec fn map_of(entries: Seq<Entry>) -> Map<Seq<u8>, Seq<char>>
    decreases entries.len(),
{
    if entries.len() == 0 {
        Map::empty()
    } else {
        map_of(entries.drop_last()).insert(entries.last().key@, entries.last().path@)
    }
}

/// Entries from `from` on do not matter to a key that none of them names.
proof fn lemma_map_of_skips(entries: Seq<Entry>, from: int, key: Seq<u8>)
    requires
        0 <= from <= entries.len(),
        forall|j: int| from <= j < entries.len() ==> entries[j].key@ != key,
    ensures
        map_of(entries).contains_key(key) == map_of(entries.take(from)).contains_key(key),
        map_of(entries).contains_key(key) ==> map_of(entries)[key] == map_of(
            entries.take(from),
        )[key],
    decreases entries.len(),
{
    if from == entries.len() {
        assert(entries.take(from) =~= entries);
    } else {
        let shorter = entries.drop_last();
        lemma_map_of_skips(shorter, from, key);
        assert(shorter.take(from) =~= entries.take(from));
    }
}

/// The known-identity cache: for each public key, the socket path of the
/// upstream agent that last advertised it. A key has at most one path.
#[derive(Debug)]
pub struct KnownKeys {
    entries: Vec<Entry>,
}

impl View for KnownKeys {
    type V = Map<Seq<u8>, Seq<char>>;

    closed spec fn view(&self) -> Map<Seq<u8>, Seq<char>> {
        map_of(self.entries@)
    }
}

impl KnownKeys {
    /// The empty cache, as it is when the multiplexer starts.
    pub fn new() -> (r: KnownKeys)
        ensures
            r@ == Map::<Seq<u8>, Seq<char>>::empty(),
    {
        KnownKeys { entries: Vec::new() }
    }

    /// Forgets every key.
    pub fn clear(&mut self)
        ensures
            final(self)@ == Map::<Seq<u8>, Seq<char>>::empty(),
    {
        self.entries.clear();
    }

    /// Records that the agent at `path` holds `key`, in place of whatever was
    /// recorded for that key before.
    pub fn insert(&mut self, key: PublicKey, path: String)
        ensures
            final(self)@ == old(self)@.insert(key@, path@),
    {
        self.entries.push(Entry { key, path });
        proof {
            assert(self.entries@.drop_last() =~= old(self).entries@);
        }
    }

    /// The socket path recorded for `key`, if there is one.
    pub fn get(&self, key: &PublicKey) -> (r: Option<String>)
        ensures
            r is Some == self@.contains_key(key@),
            r is Some ==> r->Some_0@ == self@[key@],
    {
        let mut i: usize = self.entries.len();
        while i > 0
            invariant
                i <= self.entries.len(),
                forall|j: int| i <= j < self.entries.len() ==> self.entries@[j].key@ != key@,
            decreases i,
        {
            i -= 1;
            if self.entries[i].key.same_key(key) {
                proof {
                    lemma_map_of_skips(self.entries@, i + 1, key@);
                    assert(self.entries@.take(i + 1).drop_last() =~= self.entries@.take(i as int));
                }
                return Some(self.entries[i].path.clone());
            }
        }
        proof {
            lemma_map_of_skips(self.entries@, 0, key@);
        }
        None
    }

    /// Whether a path is recorded for `key`.
    pub fn contains_key(&self, key: &PublicKey) -> (r: bool)
        ensures
            r == self@.contains_key(key@),
    {
        self.get(key).is_some()
    }
}

} // verus!

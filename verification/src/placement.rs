//! Replica placement: the preference list of a key.
//!
//! A key is hashed to a starting node; that node and the next two, wrapping round
//! the cluster, hold the key. Nodes are named by the decimal numerals of their
//! positions, from `0`.

use crate::text::{contains_text, decimal, decimal_text, texts};
use byteorder::ByteOrder;
use vstd::prelude::*;

verus! {

/// The MD5 digest of the UTF-8 bytes of a text.
pub uninterp spec fn md5_of_text(text: Seq<char>) -> Seq<u8>;

/// `md5::compute` on the bytes of `key`: the sixteen bytes of the digest, which
/// depend on `key` alone.
#[verifier::external_body]
fn md5_digest(key: &str) -> (digest: [u8; 16])
    ensures
        digest@ == md5_of_text(key@),
{
    md5::compute(key).0
}

/// The number that bytes spell with the least significant byte first.
pub open spec fn little_endian(bytes: Seq<u8>) -> nat
    decreases bytes.len(),
{
    if bytes.len() == 0 {
        0
    } else {
        bytes[0] as nat + 256 * little_endian(bytes.drop_first())
    }
}

/// `byteorder::LittleEndian::read_u128` on sixteen bytes: the number they spell
/// with the least significant byte first.
#[verifier::external_body]
fn read_little_endian(bytes: &[u8; 16]) -> (n: u128)
    ensures
        n == little_endian(bytes@),
{
    byteorder::LittleEndian::read_u128(bytes)
}

/// The position of the `i`-th replica of a key whose hash is `hash`, among
/// `node_count` nodes.
pub open spec fn replica_position(hash: nat, node_count: nat, i: nat) -> nat {
    ((hash % node_count) + i) % node_count
}

/// The hash that places `key`.
pub open spec fn key_hash(key: Seq<char>) -> nat {
    little_endian(md5_of_text(key))
}

/// A list is the preference list for `hash` among `node_count` nodes when it names
/// the three replica positions in order.
pub open spec fn is_preference_list(list: Seq<Seq<char>>, hash: nat, node_count: nat) -> bool {
    &&& list.len() == 3
    &&& forall|i: int| 0 <= i < 3 ==> #[trigger] list[i] == decimal(replica_position(hash, node_count, i as nat))
}

/// The nodes that hold a key with this hash: the node at `hash` modulo
/// `node_count` and the two after it, wrapping round.
pub fn preference_list(hash: u128, node_count: u32) -> (replicas: Vec<String>)
    requires
        node_count > 0,
    ensures
        is_preference_list(texts(replicas@), hash as nat, node_count as nat),
{
    let mut replicas: Vec<String> = Vec::new();
    let start: u32 = (hash % (node_count as u128)) as u32;
    let mut replica: u32 = start;
    let mut i: usize = 0;
    proof {
        vstd::arithmetic::div_mod::lemma_small_mod(start as nat, node_count as nat);
    }
    while i < 3
        invariant
            i <= 3,
            node_count > 0,
            start == hash as nat % node_count as nat,
            replica < node_count,
            replica == replica_position(hash as nat, node_count as nat, i as nat),
            replicas.len() == i,
            forall|k: int|
                0 <= k < i ==> #[trigger] texts(replicas@)[k] == decimal(
                    replica_position(hash as nat, node_count as nat, k as nat),
                ),
        decreases 3 - i,
    {
        let ghost before = texts(replicas@);
        replicas.push(decimal_text(replica));
        proof {
            assert forall|k: int| 0 <= k < i + 1 implies #[trigger] texts(replicas@)[k] == decimal(
                replica_position(hash as nat, node_count as nat, k as nat),
            ) by {
                if k < i {
                    assert(texts(replicas@)[k] == before[k]);
                }
            }
            lemma_next_position(start as nat, node_count as nat, i as nat);
        }
        replica += 1;
        if replica == node_count {
            replica = 0;
        }
        i += 1;
    }
    replicas
}

/// Stepping to the next node, wrapping at the end, is adding one modulo the node
/// count.
proof fn lemma_next_position(start: nat, n: nat, i: nat)
    requires
        n > 0,
        start < n,
    ensures
        (start + i + 1) % n == if (start + i) % n + 1 == n {
            0
        } else {
            (start + i) % n + 1
        },
{
    let a = (start + i) as int;
    let m = n as int;
    assert(a == m * (a / m) + a % m) by (nonlinear_arith)
        requires
            m > 0,
    ;
    if a % m + 1 == m {
        assert((a + 1) % m == 0) by (nonlinear_arith)
            requires
                m > 0,
                a % m + 1 == m,
                a == m * (a / m) + a % m,
        ;
    } else {
        assert((a + 1) % m == a % m + 1) by (nonlinear_arith)
            requires
                m > 0,
                0 <= a % m,
                a % m + 1 < m,
                a == m * (a / m) + a % m,
        ;
    }
}

/// The nodes that hold `key` in a cluster of `node_count` nodes.
pub fn key_replicas(key: &str, node_count: u32) -> (replicas: Vec<String>)
    requires
        node_count > 0,
    ensures
        is_preference_list(texts(replicas@), key_hash(key@), node_count as nat),
{
    let digest = md5_digest(key);
    let hash = read_little_endian(&digest);
    preference_list(hash, node_count)
}

/// The nodes that are not among the replicas, in the order of `nodes`.
pub fn non_replicas(nodes: &Vec<String>, replicas: &Vec<String>) -> (others: Vec<String>)
    ensures
        texts(others@) == texts(nodes@).filter(|n: Seq<char>| !texts(replicas@).contains(n)),
{
    let ghost all = texts(nodes@);
    let ghost outside = |n: Seq<char>| !texts(replicas@).contains(n);
    let mut others: Vec<String> = Vec::new();
    let mut i: usize = 0;
    proof {
        reveal(Seq::filter);
        assert(all.take(0).filter(outside) == Seq::<Seq<char>>::empty());
    }
    while i < nodes.len()
        invariant
            i <= nodes.len(),
            all == texts(nodes@),
            outside == |n: Seq<char>| !texts(replicas@).contains(n),
            texts(others@) == all.take(i as int).filter(outside),
        decreases nodes.len() - i,
    {
        let ghost seen = all.take(i as int);
        let ghost before = texts(others@);
        proof {
            assert(all.take(i + 1) == seen.push(all[i as int]));
            seen.lemma_filter_push(all[i as int], outside);
        }
        if !contains_text(replicas, &nodes[i]) {
            others.push(nodes[i].clone());
            assert(texts(others@) == before.push(all[i as int]));
        }
        i += 1;
    }
    assert(all.take(nodes.len() as int) == all);
    others
}

/// Whether `node` is one of the replicas that hold `key`.
pub fn holds_key(node: &String, key: &str, node_count: u32) -> (r: bool)
    requires
        node_count > 0,
    ensures
        r == {
            ||| node@ == decimal(replica_position(key_hash(key@), node_count as nat, 0))
            ||| node@ == decimal(replica_position(key_hash(key@), node_count as nat, 1))
            ||| node@ == decimal(replica_position(key_hash(key@), node_count as nat, 2))
        },
{
    let replicas = key_replicas(key, node_count);
    let found = contains_text(&replicas, node);
    proof {
        let list = texts(replicas@);
        assert(list[0] == decimal(replica_position(key_hash(key@), node_count as nat, 0)));
        assert(list[1] == decimal(replica_position(key_hash(key@), node_count as nat, 1)));
        assert(list[2] == decimal(replica_position(key_hash(key@), node_count as nat, 2)));
    }
    found
}

/// In a cluster of at least three nodes the three replicas of a key are three
/// different nodes.
pub proof fn lemma_replicas_distinct(list: Seq<Seq<char>>, hash: nat, node_count: nat)
    requires
        node_count >= 3,
        is_preference_list(list, hash, node_count),
    ensures
        list.no_duplicates(),
{
    let start = hash % node_count;
    let first = replica_position(hash, node_count, 0);
    let second = replica_position(hash, node_count, 1);
    let third = replica_position(hash, node_count, 2);
    vstd::arithmetic::div_mod::lemma_small_mod(start, node_count);
    lemma_next_position(start, node_count, 0);
    lemma_next_position(start, node_count, 1);
    assert(first != second && second != third && first != third);
    assert(list[0] == decimal(first) && list[1] == decimal(second) && list[2] == decimal(third));
    assert forall|i: int, j: int| 0 <= i < list.len() && 0 <= j < list.len() && i != j implies list[i]
        != list[j] by {
        if list[i] == list[j] {
            crate::text::lemma_decimal_injective(
                replica_position(hash, node_count, i as nat),
                replica_position(hash, node_count, j as nat),
            );
        }
    }
}

/// In a cluster of at most three nodes every node is a replica of every key.
pub proof fn lemma_small_cluster_covered(hash: nat, node_count: nat, node: nat)
    requires
        0 < node_count <= 3,
        node < node_count,
    ensures
        node == replica_position(hash, node_count, 0) || node == replica_position(
            hash,
            node_count,
            1,
        ) || node == replica_position(hash, node_count, 2),
{
    let start = hash % node_count;
    vstd::arithmetic::div_mod::lemma_small_mod(start, node_count);
    lemma_next_position(start, node_count, 0);
    lemma_next_position(start, node_count, 1);
}

} // verus!

use vstd::prelude::*;
use crate::errors::GraphError;
use crate::graph::HelixGraphStorage;

verus! {

/// `256^n`.
pub open spec fn pow256(n: nat) -> nat
    decreases n,
{
    if n == 0 {
        1
    } else {
        256 * pow256((n - 1) as nat)
    }
}

/// The `n` low-order base-256 digits of `x`, most significant first.
pub open spec fn be_bytes(x: nat, n: nat) -> Seq<u8>
    decreases n,
{
    if n == 0 {
        Seq::empty()
    } else {
        be_bytes(x / 256, (n - 1) as nat).push((x % 256) as u8)
    }
}

/// The unsigned number that a big-endian byte string denotes.
pub open spec fn be_value(bytes: Seq<u8>) -> nat
    decreases bytes.len(),
{
    if bytes.len() == 0 {
        0
    } else {
        be_value(bytes.drop_last()) * 256 + bytes.last() as nat
    }
}

pub proof fn lemma_be_bytes_len(x: nat, n: nat)
    ensures
        be_bytes(x, n).len() == n,
    decreases n,
{
    if n > 0 {
        lemma_be_bytes_len(x / 256, (n - 1) as nat);
    }
}

pub proof fn lemma_be_value_bound(bytes: Seq<u8>)
    ensures
        be_value(bytes) < pow256(bytes.len()),
    decreases bytes.len(),
{
    if bytes.len() > 0 {
        lemma_be_value_bound(bytes.drop_last());
    }
}

/// Decoding undoes encoding for every number that fits in `n` bytes.
pub proof fn lemma_be_roundtrip(x: nat, n: nat)
    requires
        x < pow256(n),
    ensures
        be_value(be_bytes(x, n)) == x,
    decreases n,
{
    if n > 0 {
        lemma_be_roundtrip(x / 256, (n - 1) as nat);
        lemma_be_bytes_len(x / 256, (n - 1) as nat);
        assert(be_bytes(x, n).drop_last() =~= be_bytes(x / 256, (n - 1) as nat));
    }
}

proof fn lemma_pow256_16()
    ensures
        pow256(16) == u128::MAX as nat + 1,
{
    reveal_with_fuel(pow256, 17);
}

/// The 16-byte big-endian form of `x`.
pub fn u128_to_be(x: u128) -> (out: [u8; 16])
    ensures
        out@ == be_bytes(x as nat, 16),
{
    let mut out = [0u8; 16];
    let mut v: u128 = x;
    let mut k: usize = 0;
    while k < 16
        invariant
            k <= 16,
            out@.len() == 16,
            be_bytes(x as nat, 16) == be_bytes(v as nat, (16 - k) as nat) + out@.subrange(
                16 - k,
                16,
            ),
        decreases 16 - k,
    {
        let pos = 15 - k;
        let ghost before = out@;
        let ghost m = (16 - k) as nat;
        out[pos] = (v % 256) as u8;
        proof {
            assert(be_bytes(v as nat, m) == be_bytes((v / 256) as nat, (m - 1) as nat).push(
                (v % 256) as u8,
            ));
            assert(out@.subrange(16 - (k + 1), 16) =~= seq![(v % 256) as u8]
                + before.subrange(16 - k, 16));
        }
        v = v / 256;
        k = k + 1;
    }
    assert(out@.subrange(0, 16) =~= out@);
    out
}

/// The number that 16 big-endian bytes of `bytes`, from `start`, denote.
pub fn u128_from_be(bytes: &[u8], start: usize) -> (x: u128)
    requires
        start + 16 <= bytes@.len(),
    ensures
        x as nat == be_value(bytes@.subrange(start as int, start + 16)),
{
    let len = bytes.len();
    let mut acc: u128 = 0;
    let mut i: usize = 0;
    while i < 16
        invariant
            i <= 16,
            len == bytes@.len(),
            start + 16 <= bytes@.len(),
            acc as nat == be_value(bytes@.subrange(start as int, start + i)),
        decreases 16 - i,
    {
        proof {
            lemma_be_value_bound(bytes@.subrange(start as int, start + i));
            lemma_pow256_16();
            assert(pow256(i as nat) <= pow256(15)) by {
                lemma_pow256_mono(i as nat, 15);
            }
            assert(pow256(16) == 256 * pow256(15));
            assert(bytes@.subrange(start as int, start + i + 1).drop_last() =~= bytes@.subrange(
                start as int,
                start + i,
            ));
        }
        acc = acc * 256 + bytes[start + i] as u128;
        i = i + 1;
    }
    acc
}

proof fn lemma_pow256_mono(a: nat, b: nat)
    requires
        a <= b,
    ensures
        pow256(a) <= pow256(b),
    decreases b,
{
    if a < b {
        lemma_pow256_mono(a, (b - 1) as nat);
    }
}

/// The number that `bytes` denote, least significant byte first.
pub open spec fn le_value(bytes: Seq<u8>) -> nat
    decreases bytes.len(),
{
    if bytes.len() == 0 {
        0
    } else {
        bytes[0] as nat + 256 * le_value(bytes.drop_first())
    }
}

/// `n` little-endian bytes denote a number below `256^n`.
pub proof fn lemma_le_value_bound(bytes: Seq<u8>)
    ensures
        le_value(bytes) < pow256(bytes.len()),
    decreases bytes.len(),
{
    if bytes.len() > 0 {
        lemma_le_value_bound(bytes.drop_first());
    }
}

/// The number that 8 little-endian bytes of `bytes`, from the start, denote.
pub fn u64_from_le(bytes: &[u8]) -> (x: u64)
    requires
        8 <= bytes@.len(),
    ensures
        x as nat == le_value(bytes@.subrange(0, 8)),
{
    let mut acc: u64 = 0;
    let mut i: usize = 8;
    while i > 0
        invariant
            i <= 8,
            8 <= bytes@.len(),
            acc as nat == le_value(bytes@.subrange(i as int, 8)),
        decreases i,
    {
        proof {
            lemma_le_value_bound(bytes@.subrange(i as int, 8));
            assert(pow256((8 - i) as nat) <= pow256(7)) by {
                lemma_pow256_mono((8 - i) as nat, 7);
            }
            reveal_with_fuel(pow256, 9);
            assert(bytes@.subrange(i - 1, 8).drop_first() =~= bytes@.subrange(i as int, 8));
        }
        acc = acc * 256 + bytes[i - 1] as u64;
        i = i - 1;
    }
    acc
}

/// Byte length of an adjacency key: a node id and a label hash.
pub const ADJ_KEY_LEN: usize = 20;

/// Byte length of an adjacency value: an edge id and a node id.
pub const ADJ_DATA_LEN: usize = 32;

/// `node` followed by the four label-hash bytes: the layout of both
/// adjacency keys.
pub open spec fn adjacency_key(node: u128, label: Seq<u8>) -> Seq<u8> {
    be_bytes(node as nat, 16) + label
}

/// An edge id followed by the id of the node at its other end.
pub open spec fn adjacency_data(edge: u128, node: u128) -> Seq<u8> {
    be_bytes(edge as nat, 16) + be_bytes(node as nat, 16)
}

fn adjacency_key_bytes(node: &u128, label: &[u8; 4]) -> (key: [u8; 20])
    ensures
        key@ == adjacency_key(*node, label@),
{
    let head = u128_to_be(*node);
    let mut key = [0u8; 20];
    let mut i: usize = 0;
    while i < 16
        invariant
            i <= 16,
            key@.len() == 20,
            head@ == be_bytes(*node as nat, 16),
            forall|j: int| 0 <= j < i ==> key@[j] == head@[j],
        decreases 16 - i,
    {
        key[i] = head[i];
        i = i + 1;
    }
    while i < 20
        invariant
            16 <= i <= 20,
            key@.len() == 20,
            head@ == be_bytes(*node as nat, 16),
            forall|j: int| 0 <= j < 16 ==> key@[j] == head@[j],
            forall|j: int| 16 <= j < i ==> key@[j] == label@[j - 16],
        decreases 20 - i,
    {
        key[i] = label[i - 16];
        i = i + 1;
    }
    proof {
        lemma_be_bytes_len(*node as nat, 16);
    }
    assert(key@ =~= adjacency_key(*node, label@));
    key
}

impl HelixGraphStorage {
    /// The key under which a node is stored: its id.
    pub fn node_key(id: &u128) -> (key: &u128)
        ensures
            *key == *id,
    {
        id
    }

    /// The key under which an edge is stored: its id.
    pub fn edge_key(id: &u128) -> (key: &u128)
        ensures
            *key == *id,
    {
        id
    }

    /// The key of the outgoing-edge list of `from_node_id` for one label:
    /// the node id in big-endian order, then the label hash.
    pub fn out_edge_key(from_node_id: &u128, label: &[u8; 4]) -> (key: [u8; 20])
        ensures
            key@ == adjacency_key(*from_node_id, label@),
    {
        adjacency_key_bytes(from_node_id, label)
    }

    /// The key of the incoming-edge list of `to_node_id` for one label,
    /// laid out as `out_edge_key` lays out its key.
    pub fn in_edge_key(to_node_id: &u128, label: &[u8; 4]) -> (key: [u8; 20])
        ensures
            key@ == adjacency_key(*to_node_id, label@),
    {
        adjacency_key_bytes(to_node_id, label)
    }

    /// An adjacency entry: the edge id, then the node id, both big-endian.
    pub fn pack_edge_data(edge_id: &u128, node_id: &u128) -> (data: [u8; 32])
        ensures
            data@ == adjacency_data(*edge_id, *node_id),
    {
        let e = u128_to_be(*edge_id);
        let n = u128_to_be(*node_id);
        let mut data = [0u8; 32];
        let mut i: usize = 0;
        while i < 32
            invariant
                i <= 32,
                data@.len() == 32,
                e@ == be_bytes(*edge_id as nat, 16),
                n@ == be_bytes(*node_id as nat, 16),
                forall|j: int| 0 <= j < i && j < 16 ==> data@[j] == e@[j],
                forall|j: int| 16 <= j < i ==> data@[j] == n@[j - 16],
            decreases 32 - i,
        {
            if i < 16 {
                data[i] = e[i];
            } else {
                data[i] = n[i - 16];
            }
            i = i + 1;
        }
        proof {
            lemma_be_bytes_len(*edge_id as nat, 16);
            lemma_be_bytes_len(*node_id as nat, 16);
        }
        assert(data@ =~= adjacency_data(*edge_id, *node_id));
        data
    }

    /// Reads an adjacency entry back: the edge id from the first sixteen
    /// bytes, the node id from the next sixteen.
    pub fn unpack_adj_edge_data(data: &[u8]) -> (res: Result<(u128, u128), GraphError>)
        requires
            data@.len() >= 32,
        ensures
            res matches Ok((e, n)) && e as nat == be_value(data@.subrange(0, 16)) && n as nat
                == be_value(data@.subrange(16, 32)),
    {
        let edge_id = u128_from_be(data, 0);
        let node_id = u128_from_be(data, 16);
        Ok((edge_id, node_id))
    }
}

/// Reading an adjacency entry gives back the edge id and node id that
/// were packed into it.
pub proof fn lemma_pack_unpack_roundtrip(edge_id: u128, node_id: u128)
    ensures
        be_value(adjacency_data(edge_id, node_id).subrange(0, 16)) == edge_id,
        be_value(adjacency_data(edge_id, node_id).subrange(16, 32)) == node_id,
{
    lemma_be_bytes_len(edge_id as nat, 16);
    lemma_be_bytes_len(node_id as nat, 16);
    lemma_pow256_16();
    lemma_be_roundtrip(edge_id as nat, 16);
    lemma_be_roundtrip(node_id as nat, 16);
    assert(adjacency_data(edge_id, node_id).subrange(0, 16) =~= be_bytes(edge_id as nat, 16));
    assert(adjacency_data(edge_id, node_id).subrange(16, 32) =~= be_bytes(node_id as nat, 16));
}

/// The node id leads an adjacency key and can be read back from it; the
/// label hash follows it unchanged.
pub proof fn lemma_adjacency_key_layout(node: u128, label: Seq<u8>)
    requires
        label.len() == 4,
    ensures
        adjacency_key(node, label).len() == 20,
        be_value(adjacency_key(node, label).subrange(0, 16)) == node,
        adjacency_key(node, label).subrange(16, 20) == label,
{
    lemma_be_bytes_len(node as nat, 16);
    lemma_pow256_16();
    lemma_be_roundtrip(node as nat, 16);
    assert(adjacency_key(node, label).subrange(0, 16) =~= be_bytes(node as nat, 16));
    assert(adjacency_key(node, label).subrange(16, 20) =~= label);
}

/// Distinct nodes or distinct labels give distinct adjacency keys.
pub proof fn lemma_adjacency_key_injective(n1: u128, l1: Seq<u8>, n2: u128, l2: Seq<u8>)
    requires
        l1.len() == 4,
        l2.len() == 4,
        adjacency_key(n1, l1) == adjacency_key(n2, l2),
    ensures
        n1 == n2,
        l1 == l2,
{
    lemma_adjacency_key_layout(n1, l1);
    lemma_adjacency_key_layout(n2, l2);
}

/// Settings a storage is opened with.
pub struct StorageConfig {
    pub schema: Option<String>,
    pub graphvis_node_label: Option<String>,
    pub embedding_model: Option<String>,
}

impl StorageConfig {
    pub fn new(
        schema: Option<String>,
        graphvis_node_label: Option<String>,
        embedding_model: Option<String>,
    ) -> (config: StorageConfig)
        ensures
            config.schema == schema,
            config.graphvis_node_label == graphvis_node_label,
            config.embedding_model == embedding_model,
    {
        StorageConfig { schema, graphvis_node_label, embedding_model }
    }
}

} // verus!

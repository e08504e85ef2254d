//! The homebrew Huffman compression used for Teeworlds packets and demos.
//!
//! The tree has 257 leaves (the 256 byte values and an end-of-stream symbol)
//! and 256 inner nodes. Leaves store their bit pattern instead of children.
use vstd::prelude::*;
use crate::buffer::CapacityError;

verus! {

pub const EOF: u16 = 256;

pub const NUM_SYMBOLS: u16 = 257;

pub const NUM_NODES: usize = 513;

pub const ROOT_IDX: u16 = 512;

pub const NUM_FREQUENCIES: usize = 256;

/// The longest bit pattern a symbol may have.
pub const MAX_CODE_BITS: u8 = 24;

/// A tree node. For a leaf, the two children encode the leaf's bit pattern.
#[derive(Clone, Copy, Debug)]
pub struct Node {
    pub children: [u16; 2],
}

/// The bit pattern of a symbol: `num_bits` bits, least significant first.
#[derive(Clone, Copy, Debug)]
pub struct SymbolRepr {
    bits: u32,
    num_bits: u8,
}

/// The tree could not be built from the given frequencies.
#[derive(Clone, Copy, Debug, PartialEq, Eq, Structural)]
pub struct Error;

/// Decompression failed.
#[derive(Clone, Copy, Debug, PartialEq, Eq, Structural)]
pub enum DecompressionError {
    Capacity(CapacityError),
    InvalidInput,
}


/// Bit pattern stored in a leaf node.
pub open spec fn leaf_bits(n: Node) -> u32 {
    ((n.children[0] & 0xff) as u32) << 16u32 | n.children[1] as u32
}

/// Length of the bit pattern stored in a leaf node.
pub open spec fn leaf_num_bits(n: Node) -> u8 {
    (n.children[0] >> 8u16) as u8
}

/// Node storing the bit pattern `bits` of length `num_bits`.
pub open spec fn repr_node(bits: u32, num_bits: u8) -> Node {
    Node { children: [(num_bits as u16) << 8u16 | (bits >> 16u32) as u16, bits as u16] }
}

impl Node {
    pub fn to_symbol_repr(self) -> (r: SymbolRepr)
        ensures
            r.spec_bits() == leaf_bits(self),
            r.spec_num_bits() == leaf_num_bits(self),
    {
        SymbolRepr {
            bits: ((self.children[0] & 0xff) as u32) << 16u32 | self.children[1] as u32,
            num_bits: (self.children[0] >> 8u16) as u8,
        }
    }
}

impl SymbolRepr {
    pub closed spec fn spec_bits(self) -> u32 {
        self.bits
    }

    pub closed spec fn spec_num_bits(self) -> u8 {
        self.num_bits
    }

    pub fn new(bits: u32, num_bits: u8) -> (r: SymbolRepr)
        ensures
            r.spec_bits() == bits,
            r.spec_num_bits() == num_bits,
    {
        SymbolRepr { bits, num_bits }
    }

    pub fn to_node(self) -> (r: Node)
        requires
            self.spec_bits() < 0x100_0000,
        ensures
            r == repr_node(self.spec_bits(), self.spec_num_bits()),
    {
        Node {
            children: [
                (self.num_bits as u16) << 8u16 | (self.bits >> 16u32) as u16,
                self.bits as u16,
            ],
        }
    }

    /// Number of bits of the pattern.
    pub fn num_bits(self) -> (r: u32)
        ensures
            r == self.spec_num_bits(),
    {
        self.num_bits as u32
    }

    /// Bit `idx` of the pattern.
    pub fn bit(self, idx: u32) -> (r: bool)
        requires
            idx < self.spec_num_bits(),
            self.spec_num_bits() <= 32,
        ensures
            r == ((self.spec_bits() >> idx) & 1u32 != 0),
    {
        ((self.bits >> idx) & 1u32) != 0
    }
}

/// Converting a node to a bit pattern and back gives the same node.
pub proof fn lemma_roundtrip_node(c0: u16, c1: u16)
    ensures
        repr_node(leaf_bits(Node { children: [c0, c1] }), leaf_num_bits(Node { children: [c0, c1] }))
            == (Node { children: [c0, c1] }),
{
    let n = Node { children: [c0, c1] };
    assert(n.children[0] == c0 && n.children[1] == c1);
    let bits = ((c0 & 0xff) as u32) << 16u32 | c1 as u32;
    let nb = (c0 >> 8u16) as u8;
    assert((nb as u16) << 8u16 | (bits >> 16u32) as u16 == c0) by (bit_vector)
        requires
            bits == ((c0 & 0xff) as u32) << 16u32 | c1 as u32,
            nb == (c0 >> 8u16) as u8,
    ;
    assert(bits as u16 == c1) by (bit_vector)
        requires
            bits == ((c0 & 0xff) as u32) << 16u32 | c1 as u32,
    ;
    assert(repr_node(bits, nb).children =~= n.children);
}

/// Converting a 24-bit pattern to a node and back gives the same pattern.
pub proof fn lemma_roundtrip_symbol(bits: u32, num_bits: u8)
    requires
        bits < 0x100_0000,
    ensures
        leaf_bits(repr_node(bits, num_bits)) == bits,
        leaf_num_bits(repr_node(bits, num_bits)) == num_bits,
{
    let n = repr_node(bits, num_bits);
    let c0 = (num_bits as u16) << 8u16 | (bits >> 16u32) as u16;
    let c1 = bits as u16;
    assert(n.children[0] == c0 && n.children[1] == c1);
    assert(((c0 & 0xff) as u32) << 16u32 | c1 as u32 == bits) by (bit_vector)
        requires
            bits < 0x100_0000,
            c0 == (num_bits as u16) << 8u16 | (bits >> 16u32) as u16,
            c1 == bits as u16,
    ;
    assert((c0 >> 8u16) as u8 == num_bits) by (bit_vector)
        requires
            bits < 0x100_0000,
            c0 == (num_bits as u16) << 8u16 | (bits >> 16u32) as u16,
    ;
}

// ---------------------------------------------------------------------------
// Model of the tree.

/// Well-formed tree: 513 nodes, inner nodes only point to lower indices,
/// leaves hold patterns of at most 24 bits.
pub open spec fn tree_wf(nodes: Seq<Node>) -> bool {
    &&& nodes.len() == NUM_NODES
    &&& forall|i: int|
        #![trigger nodes[i]]
        NUM_SYMBOLS <= i < NUM_NODES ==> nodes[i].children[0] < i && nodes[i].children[1] < i
    &&& forall|i: int|
        #![trigger nodes[i]]
        0 <= i < NUM_SYMBOLS ==> leaf_num_bits(nodes[i]) <= MAX_CODE_BITS && leaf_bits(nodes[i])
            < 0x100_0000
}

/// Bit `k` of a byte stream, least significant bit first, zeros past the end.
pub open spec fn input_bit(input: Seq<u8>, k: int) -> u8 {
    let byte: u8 = if k / 8 < input.len() {
        input[k / 8]
    } else {
        0
    };
    (byte >> ((k % 8) as u8)) & 1u8
}

/// Follows the bits of `input` from bit `pos`, starting at node `idx`, down
/// to a leaf; returns the leaf and the bit position after it.
pub open spec fn walk(nodes: Seq<Node>, idx: int, input: Seq<u8>, pos: int) -> (int, int)
    decreases idx,
{
    if idx < NUM_SYMBOLS || idx >= nodes.len() {
        (idx, pos)
    } else {
        let c = nodes[idx].children[input_bit(input, pos) as int] as int;
        if c < idx {
            walk(nodes, c, input, pos + 1)
        } else {
            (c, pos + 1)
        }
    }
}

/// Bit position after decoding `n` symbols.
pub open spec fn pos_after(nodes: Seq<Node>, input: Seq<u8>, n: nat) -> int
    decreases n,
{
    if n == 0 {
        0
    } else {
        walk(nodes, ROOT_IDX as int, input, pos_after(nodes, input, (n - 1) as nat)).1
    }
}

/// The `i`-th decoded symbol.
pub open spec fn sym_at(nodes: Seq<Node>, input: Seq<u8>, i: nat) -> int {
    walk(nodes, ROOT_IDX as int, input, pos_after(nodes, input, i)).0
}

proof fn lemma_bit_lt2(byte: u8, sh: u8)
    ensures
        (byte >> sh) & 1u8 < 2,
{
    assert((byte >> sh) & 1u8 < 2) by (bit_vector);
}

proof fn lemma_input_bit(input: Seq<u8>, k: int)
    ensures
        input_bit(input, k) < 2,
{
    let byte: u8 = if k / 8 < input.len() {
        input[k / 8]
    } else {
        0
    };
    lemma_bit_lt2(byte, (k % 8) as u8);
}

/// Index of the first end-of-stream symbol among the first `cap + 1`
/// decoded symbols.
pub open spec fn first_eof(nodes: Seq<Node>, input: Seq<u8>, cap: nat) -> Option<nat> {
    if exists|i: nat| i <= cap && sym_at(nodes, input, i) == EOF as int {
        Some(
            choose|i: nat|
                i <= cap && sym_at(nodes, input, i) == EOF as int && forall|j: nat|
                    j < i ==> sym_at(nodes, input, j) != EOF as int,
        )
    } else {
        None
    }
}

/// What decompressing `input` into at most `cap` bytes gives: the symbols
/// before the end-of-stream symbol, or `None` if there are more than `cap`.
pub open spec fn decompressed(nodes: Seq<Node>, input: Seq<u8>, cap: nat) -> Option<Seq<u8>> {
    match first_eof(nodes, input, cap) {
        Some(n) => Some(Seq::new(n, |i: int| sym_at(nodes, input, i as nat) as u8)),
        None => None,
    }
}

proof fn lemma_first_eof(nodes: Seq<Node>, input: Seq<u8>, cap: nat, n: nat)
    requires
        n <= cap,
        sym_at(nodes, input, n) == EOF as int,
        forall|j: nat| j < n ==> sym_at(nodes, input, j) != EOF as int,
    ensures
        first_eof(nodes, input, cap) == Some(n),
{
    let c = choose|i: nat|
        i <= cap && sym_at(nodes, input, i) == EOF as int && forall|j: nat|
            j < i ==> sym_at(nodes, input, j) != EOF as int;
    assert(c <= cap && sym_at(nodes, input, c) == EOF as int && forall|j: nat|
        j < c ==> sym_at(nodes, input, j) != EOF as int);
    if c < n {
        assert(sym_at(nodes, input, c) != EOF as int);
    }
    if n < c {
        assert(sym_at(nodes, input, n) != EOF as int);
    }
}

proof fn lemma_walk_leaf(nodes: Seq<Node>, idx: int, input: Seq<u8>, pos: int)
    requires
        tree_wf(nodes),
        0 <= idx < NUM_NODES,
    ensures
        0 <= walk(nodes, idx, input, pos).0 < NUM_SYMBOLS,
        walk(nodes, idx, input, pos).1 >= pos,
    decreases idx,
{
    if idx >= NUM_SYMBOLS {
        let c = nodes[idx].children[input_bit(input, pos) as int] as int;
        lemma_input_bit(input, pos);
        assert(nodes[idx].children[0] < idx && nodes[idx].children[1] < idx);
        lemma_walk_leaf(nodes, c, input, pos + 1);
    }
}

// ---------------------------------------------------------------------------
// Model of compression.

/// Bit `i` of the pattern of symbol `s`.
pub open spec fn code_bit(nodes: Seq<Node>, s: int, i: int) -> u8 {
    ((leaf_bits(nodes[s]) >> (i as u32)) & 1u32) as u8
}

/// The bits of the pattern of symbol `s`.
pub open spec fn sym_code(nodes: Seq<Node>, s: int) -> Seq<u8> {
    Seq::new(leaf_num_bits(nodes[s]) as nat, |i: int| code_bit(nodes, s, i))
}

/// The patterns of the bytes of `input`, one after the other.
pub open spec fn codes_of(nodes: Seq<Node>, input: Seq<u8>) -> Seq<u8>
    decreases input.len(),
{
    if input.len() == 0 {
        Seq::empty()
    } else {
        codes_of(nodes, input.drop_last()) + sym_code(nodes, input.last() as int)
    }
}

/// The bit stream of a compressed input: the patterns of its bytes and of
/// the end-of-stream symbol.
pub open spec fn code_stream(nodes: Seq<Node>, input: Seq<u8>) -> Seq<u8> {
    codes_of(nodes, input) + sym_code(nodes, EOF as int)
}

/// Byte `j` of a packed bit stream, from its first `n` bits.
pub open spec fn byte_of(bits: Seq<u8>, j: int, n: int) -> u8
    decreases n,
{
    if n <= 0 {
        0
    } else {
        byte_of(bits, j, n - 1) | (bits[8 * j + n - 1] << ((n - 1) as u8))
    }
}

/// A bit stream packed into bytes, least significant bit first; the last byte
/// is filled up with zeros.
pub open spec fn pack_bits(bits: Seq<u8>) -> Seq<u8> {
    Seq::new(
        ((bits.len() + 7) / 8) as nat,
        |j: int|
            byte_of(
                bits,
                j,
                if bits.len() - 8 * j >= 8 {
                    8
                } else {
                    bits.len() - 8 * j
                },
            ),
    )
}

/// What compression writes. With `bug`, a stream that exactly fills its bytes
/// gets one more zero byte, as Teeworlds itself does.
pub open spec fn compressed(nodes: Seq<Node>, input: Seq<u8>, bug: bool) -> Seq<u8> {
    let bits = code_stream(nodes, input);
    pack_bits(bits) + (if bug && bits.len() % 8 == 0 {
        seq![0u8]
    } else {
        Seq::empty()
    })
}

proof fn lemma_byte_of_push(bits: Seq<u8>, x: u8, j: int, n: int)
    requires
        0 <= j,
        8 * j + n <= bits.len(),
    ensures
        byte_of(bits.push(x), j, n) == byte_of(bits, j, n),
    decreases n,
{
    if n > 0 {
        lemma_byte_of_push(bits, x, j, n - 1);
        assert(bits.push(x)[8 * j + n - 1] == bits[8 * j + n - 1]);
    }
}

proof fn lemma_codes_of_len(nodes: Seq<Node>, input: Seq<u8>)
    requires
        tree_wf(nodes),
    ensures
        codes_of(nodes, input).len() <= 24 * input.len(),
    decreases input.len(),
{
    if input.len() > 0 {
        lemma_codes_of_len(nodes, input.drop_last());
        assert(leaf_num_bits(nodes[input.last() as int]) <= 24);
    }
}

// ---------------------------------------------------------------------------
// Decompressing what was compressed.

/// Bit `i` of the byte `v`.
pub open spec fn bit_of_byte(v: u8, i: int) -> u8 {
    (v >> (i as u8)) & 1u8
}

/// Setting bit `m` of a byte whose bits from `m` on are clear; and a bit of
/// a 32-bit value is 0 or 1.
proof fn lemma_bits_or(x: u8, b: u8, m: u8, i: u8, y: u32, sh: u32, z: u32, dd: u32, t: u32)
    by (bit_vector)
    ensures
        (dd < 24 && z < (1u32 << dd)) ==> {
            &&& ((z | (1u32 << dd)) >> dd) & 1u32 == 1u32
            &&& (z >> dd) & 1u32 == 0u32
            &&& (z | (1u32 << dd)) < (1u32 << (dd + 1) as u32)
            &&& z < (1u32 << (dd + 1) as u32)
            &&& t < dd ==> ((z | (1u32 << dd)) >> t) & 1u32 == (z >> t) & 1u32
        },
        (dd <= 24 && z < (1u32 << dd)) ==> z < 0x100_0000u32,
        z < (1u32 << 0u32) ==> z == 0u32,
        (m < 8 && i <= m && b < 2 && (x as u32) < (1u32 << (m as u32))) ==> {
            &&& ((x | (b << m)) as u32) < (1u32 << ((m + 1) as u32))
            &&& i == m ==> ((x | (b << m)) >> i) & 1u8 == b
            &&& i < m ==> ((x | (b << m)) >> i) & 1u8 == (x >> i) & 1u8
        },
        (0u8 as u32) < (1u32 << 0u32),
        (y >> sh) & 1u32 < 2,
{
}

/// Bit `i` of byte `j` of a packed stream of 0s and 1s is bit `8 * j + i`
/// of the stream.
proof fn lemma_byte_of_bits(bits: Seq<u8>, j: int, n: int)
    requires
        0 <= j,
        0 <= n <= 8,
        8 * j + n <= bits.len(),
        forall|k: int| 0 <= k < bits.len() ==> #[trigger] bits[k] < 2,
    ensures
        (byte_of(bits, j, n) as u32) < (1u32 << (n as u32)),
        forall|i: int| 0 <= i < n ==> #[trigger] bit_of_byte(byte_of(bits, j, n), i) == bits[8 * j + i],
    decreases n,
{
    if n > 0 {
        lemma_byte_of_bits(bits, j, n - 1);
        let x = byte_of(bits, j, n - 1);
        let b = bits[8 * j + n - 1];
        let m = (n - 1) as u8;
        assert(byte_of(bits, j, n) == x | (b << m));
        lemma_bits_or(x, b, m, m, 0, 0, 0, 0, 0);
        assert forall|i: int| 0 <= i < n implies #[trigger] bit_of_byte(byte_of(bits, j, n), i) == bits[8 * j + i] by {
            lemma_bits_or(x, b, m, i as u8, 0, 0, 0, 0, 0);
            if i < n - 1 {
                assert(bit_of_byte(x, i) == bits[8 * j + i]);
            }
        }
    } else {
        lemma_bits_or(0, 0, 0, 0, 0, 0, 0, 0, 0);
    }
}

/// Reading bit `k` of a packed stream of 0s and 1s, whatever follows it,
/// gives bit `k` of the stream.
proof fn lemma_packed_bit(bits: Seq<u8>, tail: Seq<u8>, k: int)
    requires
        0 <= k < bits.len(),
        forall|i: int| 0 <= i < bits.len() ==> #[trigger] bits[i] < 2,
    ensures
        input_bit(pack_bits(bits) + tail, k) == bits[k],
{
    let j = k / 8;
    let m = if bits.len() - 8 * j >= 8 {
        8
    } else {
        bits.len() - 8 * j
    };
    lemma_byte_of_bits(bits, j, m);
    assert((pack_bits(bits) + tail)[j] == byte_of(bits, j, m));
    assert(bit_of_byte(byte_of(bits, j, m), k % 8) == bits[8 * j + k % 8]);
}

/// The patterns are made of 0s and 1s.
proof fn lemma_codes_binary(nodes: Seq<Node>, input: Seq<u8>, s: int)
    ensures
        forall|k: int| 0 <= k < codes_of(nodes, input).len() ==> #[trigger] codes_of(nodes, input)[k] < 2,
        forall|k: int| 0 <= k < sym_code(nodes, s).len() ==> #[trigger] sym_code(nodes, s)[k] < 2,
    decreases input.len(),
{
    assert forall|k: int| 0 <= k < sym_code(nodes, s).len() implies #[trigger] sym_code(nodes, s)[k] < 2 by {
        lemma_bits_or(0, 0, 0, 0, leaf_bits(nodes[s]), k as u32, 0, 0, 0);
    }
    if input.len() > 0 {
        let a = codes_of(nodes, input.drop_last());
        let c = sym_code(nodes, input.last() as int);
        lemma_codes_binary(nodes, input.drop_last(), input.last() as int);
        assert(codes_of(nodes, input) == a + c);
        assert forall|k: int| 0 <= k < codes_of(nodes, input).len() implies #[trigger] codes_of(nodes, input)[k] < 2 by {
            if k < a.len() {
                assert(codes_of(nodes, input)[k] == a[k]);
            } else {
                assert(codes_of(nodes, input)[k] == c[k - a.len()]);
            }
        }
    }
}

/// The patterns of two inputs one after the other.
proof fn lemma_codes_of_add(nodes: Seq<Node>, a: Seq<u8>, b: Seq<u8>)
    ensures
        codes_of(nodes, a + b) == codes_of(nodes, a) + codes_of(nodes, b),
    decreases b.len(),
{
    if b.len() == 0 {
        assert(a + b =~= a);
        assert(codes_of(nodes, a) + codes_of(nodes, b) =~= codes_of(nodes, a));
    } else {
        lemma_codes_of_add(nodes, a, b.drop_last());
        assert((a + b).drop_last() =~= a + b.drop_last());
        assert(codes_of(nodes, a) + codes_of(nodes, b) =~= codes_of(nodes, a) + codes_of(nodes, b.drop_last())
            + sym_code(nodes, b.last() as int));
    }
}

/// The pattern of symbol `s` leads from the root to `s`: wherever a stream
/// holds it from bit `pos` on, walking the tree from the root there ends
/// at `s`, just after the pattern.
pub open spec fn code_leads(nodes: Seq<Node>, s: int) -> bool {
    forall|stream: Seq<u8>, pos: int|
        #![trigger walk(nodes, ROOT_IDX as int, stream, pos)]
        0 <= pos && (forall|i: int|
            0 <= i < sym_code(nodes, s).len() ==> input_bit(stream, pos + i) == #[trigger] sym_code(
                nodes,
                s,
            )[i]) ==> walk(nodes, ROOT_IDX as int, stream, pos) == (s, pos + sym_code(nodes, s).len())
}

/// Decoding a stream that holds the patterns of `input` gives its first
/// `i` bytes, each pattern read where it stands.
proof fn lemma_decode_prefix(nodes: Seq<Node>, input: Seq<u8>, stream: Seq<u8>, i: nat)
    requires
        forall|s: int| 0 <= s < NUM_SYMBOLS ==> #[trigger] code_leads(nodes, s),
        i <= input.len(),
        forall|k: int|
            0 <= k < code_stream(nodes, input).len() ==> input_bit(stream, k) == #[trigger] code_stream(
                nodes,
                input,
            )[k],
    ensures
        pos_after(nodes, stream, i) == codes_of(nodes, input.subrange(0, i as int)).len(),
        forall|j: nat| j < i ==> #[trigger] sym_at(nodes, stream, j) == input[j as int],
    decreases i,
{
    if i == 0 {
        assert(input.subrange(0, 0) =~= Seq::<u8>::empty());
    } else {
        let h = (i - 1) as nat;
        lemma_decode_prefix(nodes, input, stream, h);
        let pre = input.subrange(0, h as int);
        let cur = input.subrange(0, i as int);
        let rest = input.subrange(i as int, input.len() as int);
        let s = input[h as int] as int;
        assert(cur.drop_last() =~= pre);
        assert(cur.last() == input[h as int]);
        assert(codes_of(nodes, cur) == codes_of(nodes, pre) + sym_code(nodes, s));
        lemma_codes_of_add(nodes, cur, rest);
        assert(cur + rest =~= input);
        let p = codes_of(nodes, pre).len() as int;
        let code = sym_code(nodes, s);
        assert forall|t: int| 0 <= t < code.len() implies input_bit(stream, p + t) == #[trigger] code[t] by {
            assert(code_stream(nodes, input)[p + t] == codes_of(nodes, input)[p + t]);
            assert(codes_of(nodes, input)[p + t] == codes_of(nodes, cur)[p + t]);
            assert(codes_of(nodes, cur)[p + t] == code[t]);
        }
        assert(code_leads(nodes, s));
        assert(walk(nodes, ROOT_IDX as int, stream, p) == (s, p + code.len()));
        assert forall|j: nat| j < i implies #[trigger] sym_at(nodes, stream, j) == input[j as int] by {
            if j < h {
                assert(sym_at(nodes, stream, j) == input[j as int]);
            }
        }
    }
}

/// Where the pattern of each symbol leads to it, decompressing what
/// compression wrote (with or without the extra zero byte) gives the input
/// back, given room for it.
pub proof fn lemma_roundtrip_codes_lead(nodes: Seq<Node>, input: Seq<u8>, cap: nat, bug: bool)
    requires
        forall|s: int| 0 <= s < NUM_SYMBOLS ==> #[trigger] code_leads(nodes, s),
        input.len() <= cap,
    ensures
        decompressed(nodes, compressed(nodes, input, bug), cap) == Some(input),
{
    let bits = code_stream(nodes, input);
    let tail: Seq<u8> = if bug && bits.len() % 8 == 0 {
        seq![0u8]
    } else {
        Seq::empty()
    };
    let stream = compressed(nodes, input, bug);
    assert(stream == pack_bits(bits) + tail);
    lemma_codes_binary(nodes, input, EOF as int);
    assert forall|k: int| 0 <= k < bits.len() implies #[trigger] bits[k] < 2 by {
        if k < codes_of(nodes, input).len() {
            assert(bits[k] == codes_of(nodes, input)[k]);
        } else {
            assert(bits[k] == sym_code(nodes, EOF as int)[k - codes_of(nodes, input).len()]);
        }
    }
    assert forall|k: int| 0 <= k < bits.len() implies input_bit(stream, k) == #[trigger] bits[k] by {
        lemma_packed_bit(bits, tail, k);
    }
    let n = input.len();
    lemma_decode_prefix(nodes, input, stream, n);
    assert(input.subrange(0, n as int) =~= input);
    let p = codes_of(nodes, input).len() as int;
    let code = sym_code(nodes, EOF as int);
    assert forall|t: int| 0 <= t < code.len() implies input_bit(stream, p + t) == #[trigger] code[t] by {
        assert(bits[p + t] == code[t]);
    }
    assert(code_leads(nodes, EOF as int));
    assert(walk(nodes, ROOT_IDX as int, stream, p) == (EOF as int, p + code.len()));
    assert(sym_at(nodes, stream, n) == EOF as int);
    assert forall|j: nat| j < n implies sym_at(nodes, stream, j) != EOF as int by {
        assert(sym_at(nodes, stream, j) == input[j as int]);
    }
    lemma_first_eof(nodes, stream, cap, n);
    assert(Seq::new(n, |i: int| sym_at(nodes, stream, i as nat) as u8) =~= input) by {
        assert forall|i: int| 0 <= i < n implies Seq::new(n, |i: int| sym_at(nodes, stream, i as nat) as u8)[i]
            == input[i] by {
            assert(sym_at(nodes, stream, i as nat) == input[i]);
        }
    }
}

// ---------------------------------------------------------------------------
// The patterns the tree assigns lead to their leaves.

/// Leaf `s` lies below node `idx` of the tree.
pub open spec fn reaches(nodes: Seq<Node>, idx: int, s: int) -> bool
    decreases idx,
{
    if idx < NUM_SYMBOLS {
        idx == s
    } else if idx >= nodes.len() {
        false
    } else {
        let l = nodes[idx].children[0] as int;
        let r = nodes[idx].children[1] as int;
        (l < idx && reaches(nodes, l, s)) || (r < idx && reaches(nodes, r, s))
    }
}

/// Two trees with the same inner nodes.
pub open spec fn same_inner(a: Seq<Node>, b: Seq<Node>) -> bool {
    &&& a.len() == b.len()
    &&& forall|i: int| NUM_SYMBOLS <= i < a.len() ==> #[trigger] a[i] == b[i]
}

/// Bit `t` of the pattern `b`.
pub open spec fn label_bit(b: u32, t: int) -> u8 {
    ((b >> (t as u32)) & 1u32) as u8
}

/// Bits `k..d` of the pattern `b` lead from node `idx` to leaf `s`:
/// wherever a stream holds them from bit `pos` on, walking from `idx`
/// there ends at `s`, just after them.
pub open spec fn path_leads(nodes: Seq<Node>, idx: int, s: int, b: u32, k: int, d: int) -> bool {
    forall|stream: Seq<u8>, pos: int|
        #![trigger walk(nodes, idx, stream, pos)]
        (forall|t: int| k <= t < d ==> input_bit(stream, pos + t - k) == #[trigger] label_bit(b, t)) ==> walk(
            nodes,
            idx,
            stream,
            pos,
        ) == (s, pos + d - k)
}

/// The leaf `leaf` holds a pattern for leaf `s` below node `idx`, which is
/// reached by the path `bits` of length `depth`: the pattern starts with
/// that path, and the rest of it leads from `idx` to `s`.
pub open spec fn labelled(nodes: Seq<Node>, leaf: Node, idx: int, s: int, bits: u32, depth: int) -> bool {
    let b = leaf_bits(leaf);
    let d = leaf_num_bits(leaf) as int;
    &&& depth <= d <= MAX_CODE_BITS
    &&& b < 0x100_0000
    &&& forall|t: int| 0 <= t < depth ==> #[trigger] label_bit(b, t) == label_bit(bits, t)
    &&& path_leads(nodes, idx, s, b, depth, d)
}

proof fn lemma_reaches_same(a: Seq<Node>, b: Seq<Node>, idx: int, s: int)
    requires
        same_inner(a, b),
    ensures
        reaches(a, idx, s) == reaches(b, idx, s),
    decreases idx,
{
    if idx >= NUM_SYMBOLS && idx < a.len() {
        assert(a[idx] == b[idx]);
        let l = a[idx].children[0] as int;
        let r = a[idx].children[1] as int;
        if l < idx {
            lemma_reaches_same(a, b, l, s);
        }
        if r < idx {
            lemma_reaches_same(a, b, r, s);
        }
    }
}

proof fn lemma_walk_same(a: Seq<Node>, b: Seq<Node>, idx: int, stream: Seq<u8>, pos: int)
    requires
        same_inner(a, b),
    ensures
        walk(a, idx, stream, pos) == walk(b, idx, stream, pos),
    decreases idx,
{
    if idx >= NUM_SYMBOLS && idx < a.len() {
        assert(a[idx] == b[idx]);
        let c = a[idx].children[input_bit(stream, pos) as int] as int;
        if c < idx {
            lemma_walk_same(a, b, c, stream, pos + 1);
        }
    }
}

proof fn lemma_path_leads_same(a: Seq<Node>, b: Seq<Node>, idx: int, s: int, bits: u32, k: int, d: int)
    requires
        same_inner(a, b),
        path_leads(a, idx, s, bits, k, d),
    ensures
        path_leads(b, idx, s, bits, k, d),
{
    assert forall|stream: Seq<u8>, pos: int|
        (forall|t: int| k <= t < d ==> input_bit(stream, pos + t - k) == #[trigger] label_bit(bits, t)) implies #[trigger] walk(
            b,
            idx,
            stream,
            pos,
        ) == (s, pos + d - k) by {
        lemma_walk_same(a, b, idx, stream, pos);
        assert(walk(a, idx, stream, pos) == (s, pos + d - k));
    }
}

/// One step down: a pattern whose bit `depth` picks the child `child` of
/// node `idx`, and whose later bits lead from the child to `s`, leads from
/// `idx` to `s`.
proof fn lemma_path_step(nodes: Seq<Node>, idx: int, side: int, s: int, b: u32, depth: int, d: int)
    requires
        NUM_SYMBOLS <= idx < nodes.len(),
        side == 0 || side == 1,
        depth < d,
        (nodes[idx].children[side] as int) < idx,
        label_bit(b, depth) == side as u8,
        path_leads(nodes, nodes[idx].children[side] as int, s, b, depth + 1, d),
    ensures
        path_leads(nodes, idx, s, b, depth, d),
{
    let child = nodes[idx].children[side] as int;
    assert forall|stream: Seq<u8>, pos: int|
        (forall|t: int| depth <= t < d ==> input_bit(stream, pos + t - depth) == #[trigger] label_bit(b, t)) implies #[trigger] walk(
            nodes,
            idx,
            stream,
            pos,
        ) == (s, pos + d - depth) by {
        assert(input_bit(stream, pos + depth - depth) == label_bit(b, depth));
        assert(input_bit(stream, pos) == side as u8);
        assert forall|t: int| depth + 1 <= t < d implies input_bit(stream, (pos + 1) + t - (depth + 1)) == #[trigger] label_bit(b, t) by {
            assert(input_bit(stream, pos + t - depth) == label_bit(b, t));
        }
        assert(walk(nodes, child, stream, pos + 1) == (s, pos + 1 + d - (depth + 1)));
    }
}

/// Numbering the leaves below node `idx`, reached by the path `bits` of
/// length `depth`, keeps the inner nodes and the leaves not below `idx`,
/// and gives every leaf below `idx` a pattern that starts with the path
/// and then leads from `idx` to the leaf.
proof fn lemma_assign_leads(nodes: Seq<Node>, idx: int, bits: u32, depth: u8)
    requires
        nodes.len() == NUM_NODES,
        0 <= idx < NUM_NODES,
        depth <= MAX_CODE_BITS,
        bits < (1u32 << (depth as u32)),
        assign_spec(nodes, idx, bits, depth).0,
    ensures
        same_inner(nodes, assign_spec(nodes, idx, bits, depth).1),
        forall|s: int|
            0 <= s < NUM_SYMBOLS && !reaches(nodes, idx, s) ==> #[trigger] assign_spec(nodes, idx, bits, depth).1[s]
                == nodes[s],
        forall|s: int|
            0 <= s < NUM_SYMBOLS && reaches(nodes, idx, s) ==> labelled(
                nodes,
                #[trigger] assign_spec(nodes, idx, bits, depth).1[s],
                idx,
                s,
                bits,
                depth as int,
            ),
    decreases idx,
{
    let n2 = assign_spec(nodes, idx, bits, depth).1;
    lemma_bits_or(0, 0, 0, 0, 0, 0, bits, depth as u32, 0);
    if idx < NUM_SYMBOLS {
        lemma_roundtrip_symbol(bits, depth);
        assert(n2 == nodes.update(idx, repr_node(bits, depth)));
        assert forall|s: int| 0 <= s < NUM_SYMBOLS && reaches(nodes, idx, s) implies labelled(
            nodes,
            #[trigger] n2[s],
            idx,
            s,
            bits,
            depth as int,
        ) by {
            assert(s == idx);
            assert forall|stream: Seq<u8>, pos: int|
                (forall|t: int| depth <= t < depth ==> input_bit(stream, pos + t - depth) == #[trigger] label_bit(bits, t)) implies #[trigger] walk(
                    nodes,
                    idx,
                    stream,
                    pos,
                ) == (s, pos + depth - depth) by {
            }
        }
    } else {
        let l = nodes[idx].children[0] as int;
        let r = nodes[idx].children[1] as int;
        let d1 = (depth + 1) as u8;
        let bits2 = bits | (1u32 << (depth as u32));
        assert(depth < MAX_CODE_BITS && l < idx && r < idx);
        let n1 = assign_spec(nodes, l, bits, d1).1;
        assert(assign_spec(nodes, l, bits, d1).0);
        assert(n2 == assign_spec(n1, r, bits2, d1).1);
        assert(d1 as u32 == (depth as u32 + 1) as u32);
        lemma_assign_leads(nodes, l, bits, d1);
        lemma_assign_leads(n1, r, bits2, d1);
        assert(same_inner(nodes, n2));
        assert forall|s: int| 0 <= s < NUM_SYMBOLS implies {
            &&& !reaches(nodes, idx, s) ==> #[trigger] n2[s] == nodes[s]
            &&& reaches(nodes, idx, s) ==> labelled(nodes, n2[s], idx, s, bits, depth as int)
        } by {
            lemma_reaches_same(nodes, n1, r, s);
            if reaches(nodes, r, s) {
                let leaf = n2[s];
                let b = leaf_bits(leaf);
                let d = leaf_num_bits(leaf) as int;
                assert(labelled(n1, leaf, r, s, bits2, d1 as int));
                lemma_path_leads_same(n1, nodes, r, s, b, d1 as int, d);
                assert(label_bit(b, depth as int) == label_bit(bits2, depth as int));
                assert forall|t: int| 0 <= t < depth implies #[trigger] label_bit(b, t) == label_bit(bits, t) by {
                    assert(label_bit(b, t) == label_bit(bits2, t));
                    lemma_bits_or(0, 0, 0, 0, 0, 0, bits, depth as u32, t as u32);
                }
                lemma_path_step(nodes, idx, 1, s, b, depth as int, d);
            } else if reaches(nodes, l, s) {
                let leaf = n2[s];
                assert(leaf == n1[s]);
                let b = leaf_bits(leaf);
                let d = leaf_num_bits(leaf) as int;
                assert(labelled(nodes, leaf, l, s, bits, d1 as int));
                assert(label_bit(b, depth as int) == label_bit(bits, depth as int));
                lemma_path_step(nodes, idx, 0, s, b, depth as int, d);
            } else {
                assert(n2[s] == n1[s]);
            }
        }
    }
}

/// Where numbering the leaves from the root succeeds and every leaf lies
/// below the root, each leaf's pattern leads from the root to it.
proof fn lemma_assigned_codes_lead(nodes: Seq<Node>)
    requires
        nodes.len() == NUM_NODES,
        assign_spec(nodes, ROOT_IDX as int, 0, 0).0,
        forall|s: int| 0 <= s < NUM_SYMBOLS ==> #[trigger] reaches(nodes, ROOT_IDX as int, s),
    ensures
        forall|s: int| 0 <= s < NUM_SYMBOLS ==> #[trigger] code_leads(assign_spec(nodes, ROOT_IDX as int, 0, 0).1, s),
        forall|s: int|
            0 <= s < NUM_SYMBOLS ==> leaf_num_bits(#[trigger] assign_spec(nodes, ROOT_IDX as int, 0, 0).1[s])
                <= MAX_CODE_BITS,
        same_inner(nodes, assign_spec(nodes, ROOT_IDX as int, 0, 0).1),
{
    let n = assign_spec(nodes, ROOT_IDX as int, 0, 0).1;
    lemma_bits_or(0, 0, 0, 0, 0, 0, 0, 0, 0);
    lemma_assign_leads(nodes, ROOT_IDX as int, 0, 0);
    assert forall|s: int| 0 <= s < NUM_SYMBOLS implies #[trigger] code_leads(n, s) by {
        assert(reaches(nodes, ROOT_IDX as int, s));
        let b = leaf_bits(n[s]);
        let d = leaf_num_bits(n[s]) as int;
        assert(labelled(nodes, n[s], ROOT_IDX as int, s, 0, 0));
        lemma_path_leads_same(nodes, n, ROOT_IDX as int, s, b, 0, d);
        assert forall|stream: Seq<u8>, pos: int|
            0 <= pos && (forall|i: int|
                0 <= i < sym_code(n, s).len() ==> input_bit(stream, pos + i) == #[trigger] sym_code(n, s)[i]) implies #[trigger] walk(
                n,
                ROOT_IDX as int,
                stream,
                pos,
            ) == (s, pos + sym_code(n, s).len()) by {
            assert forall|t: int| 0 <= t < d implies input_bit(stream, pos + t - 0) == #[trigger] label_bit(b, t) by {
                assert(sym_code(n, s)[t] == label_bit(b, t));
            }
        }
    }
}

/// Leaf `s` lies below the node of some entry of `freqs`.
pub open spec fn leaf_covered(freqs: Seq<(u32, u16)>, nodes: Seq<Node>, s: int) -> bool {
    exists|k: int| 0 <= k < freqs.len() && #[trigger] reaches(nodes, freqs[k].1 as int, s)
}

/// How far joining has come: one entry more than nodes still to make, the
/// entries name nodes there are, the newest node is the last entry, and
/// every leaf lies below some entry.
pub open spec fn join_inv(freqs: Seq<(u32, u16)>, nodes: Seq<Node>) -> bool {
    &&& NUM_SYMBOLS <= nodes.len()
    &&& nodes.len() + freqs.len() == NUM_NODES + 1
    &&& freqs.len() >= 1
    &&& forall|k: int| 0 <= k < freqs.len() ==> (#[trigger] freqs[k]).1 < nodes.len()
    &&& nodes.len() > NUM_SYMBOLS ==> freqs.last().1 == nodes.len() - 1
    &&& forall|s: int| 0 <= s < NUM_SYMBOLS ==> #[trigger] leaf_covered(freqs, nodes, s)
}

proof fn lemma_reaches_push(nodes: Seq<Node>, x: Node, idx: int, s: int)
    requires
        idx < nodes.len(),
    ensures
        reaches(nodes.push(x), idx, s) == reaches(nodes, idx, s),
    decreases idx,
{
    if idx >= NUM_SYMBOLS {
        assert(nodes.push(x)[idx] == nodes[idx]);
        let l = nodes[idx].children[0] as int;
        let r = nodes[idx].children[1] as int;
        if l < idx {
            lemma_reaches_push(nodes, x, l, s);
        }
        if r < idx {
            lemma_reaches_push(nodes, x, r, s);
        }
    }
}

/// Joining ends with all 513 nodes, every leaf below the root.
proof fn lemma_join_reaches(freqs: Seq<(u32, u16)>, nodes: Seq<Node>)
    requires
        join_inv(freqs, nodes),
    ensures
        join_spec(freqs, nodes).len() == NUM_NODES,
        forall|s: int| 0 <= s < NUM_SYMBOLS ==> #[trigger] reaches(join_spec(freqs, nodes), ROOT_IDX as int, s),
    decreases freqs.len(),
{
    if freqs.len() <= 1 {
        assert(join_spec(freqs, nodes) == nodes);
        assert(freqs[0].1 == ROOT_IDX);
        assert forall|s: int| 0 <= s < NUM_SYMBOLS implies #[trigger] reaches(nodes, ROOT_IDX as int, s) by {
            assert(leaf_covered(freqs, nodes, s));
            let k = choose|k: int| 0 <= k < freqs.len() && #[trigger] reaches(nodes, freqs[k].1 as int, s);
            assert(k == 0);
        }
    } else {
        let t = insertion_sort(freqs);
        lemma_insertion_sort(freqs);
        lemma_sort_desc(t, freqs);
        let len = t.len() as int;
        let f1 = t[len - 1];
        let f2 = t[len - 2];
        let idx = nodes.len() as int;
        let node = Node { children: [f1.1, f2.1] };
        let nf = t.subrange(0, len - 2).push((f1.0.saturating_add(f2.0), nodes.len() as u16));
        let nn = nodes.push(node);
        assert(join_spec(freqs, nodes) == join_spec(nf, nn));
        assert(node.children[0] == f1.1 && node.children[1] == f2.1);
        assert forall|i: int| 0 <= i < len implies (#[trigger] t[i]).1 < idx by {
            assert(t.contains(t[i]));
            let j = choose|j: int| 0 <= j < freqs.len() && freqs[j] == t[i];
            assert(freqs[j].1 < idx);
        }
        assert(f1.1 < idx && f2.1 < idx);
        assert(idx <= 512);
        assert((nodes.len() as u16) as int == idx);
        assert forall|k: int| 0 <= k < nf.len() implies (#[trigger] nf[k]).1 < nn.len() by {
            if k < len - 2 {
                assert(nf[k] == t[k]);
            }
        }
        assert forall|s: int| 0 <= s < NUM_SYMBOLS implies #[trigger] leaf_covered(nf, nn, s) by {
            assert(leaf_covered(freqs, nodes, s));
            let k = choose|k: int| 0 <= k < freqs.len() && #[trigger] reaches(nodes, freqs[k].1 as int, s);
            let y = freqs[k];
            assert(freqs.contains(y));
            assert(t.contains(y));
            let i = choose|i: int| 0 <= i < t.len() && t[i] == y;
            lemma_reaches_push(nodes, node, y.1 as int, s);
            if i < len - 2 {
                assert(nf[i] == y);
                assert(reaches(nn, nf[i].1 as int, s));
            } else {
                assert(nn[idx] == node);
                lemma_reaches_push(nodes, node, f1.1 as int, s);
                lemma_reaches_push(nodes, node, f2.1 as int, s);
                assert(reaches(nn, idx, s));
                assert(nf[len - 2].1 == idx);
                assert(reaches(nn, nf[len - 2].1 as int, s));
            }
        }
        assert(join_inv(nf, nn));
        lemma_join_reaches(nf, nn);
    }
}

/// Joining starts as it should.
proof fn lemma_join_initial(frequencies: Seq<u32>)
    ensures
        join_inv(initial_freqs(frequencies), blank_leaves()),
{
    let fr = initial_freqs(frequencies);
    let nodes = blank_leaves();
    assert forall|k: int| 0 <= k < fr.len() implies (#[trigger] fr[k]).1 < nodes.len() by {
        if k < 256 {
            assert(fr[k].1 == k as u16);
        }
    }
    assert forall|s: int| 0 <= s < NUM_SYMBOLS implies #[trigger] leaf_covered(fr, nodes, s) by {
        if s < 256 {
            assert(fr[s].1 == s as u16);
        } else {
            assert(fr[s].1 == EOF);
        }
        assert(reaches(nodes, fr[s].1 as int, s));
    }
}

/// Decompressing what compression wrote with a tree built from frequencies
/// gives the input back, given room for it; with or without the extra zero
/// byte that Teeworlds itself writes.
pub proof fn lemma_compress_roundtrip(frequencies: Seq<u32>, input: Seq<u8>, cap: nat, bug: bool)
    requires
        built_tree(frequencies).0,
        input.len() <= cap,
    ensures
        decompressed(
            built_tree(frequencies).1,
            compressed(built_tree(frequencies).1, input, bug),
            cap,
        ) == Some(input),
{
    lemma_built_codes_lead(frequencies);
    lemma_roundtrip_codes_lead(built_tree(frequencies).1, input, cap, bug);
}

/// In a tree built from frequencies, each symbol's pattern leads from the
/// root to it, has at most 24 bits, and every node above the leaves is
/// below the root.
proof fn lemma_built_codes_lead(frequencies: Seq<u32>)
    requires
        built_tree(frequencies).0,
    ensures
        built_tree(frequencies).1.len() == NUM_NODES,
        forall|s: int| 0 <= s < NUM_SYMBOLS ==> #[trigger] code_leads(built_tree(frequencies).1, s),
        forall|s: int| 0 <= s < NUM_SYMBOLS ==> leaf_num_bits(#[trigger] built_tree(frequencies).1[s]) <= MAX_CODE_BITS,
{
    let joined = join_spec(initial_freqs(frequencies), blank_leaves());
    lemma_join_initial(frequencies);
    lemma_join_reaches(initial_freqs(frequencies), blank_leaves());
    lemma_assigned_codes_lead(joined);
}

/// The patterns of a tree built from frequencies: each has between 1 and
/// 24 bits, and none is the start of another's.
pub proof fn lemma_codes_prefix_free(frequencies: Seq<u32>, a: int, b: int)
    requires
        built_tree(frequencies).0,
        0 <= a < NUM_SYMBOLS,
        0 <= b < NUM_SYMBOLS,
        a != b,
    ensures
        1 <= sym_code(built_tree(frequencies).1, a).len() <= MAX_CODE_BITS,
        !(sym_code(built_tree(frequencies).1, a).len() <= sym_code(built_tree(frequencies).1, b).len()
            && sym_code(built_tree(frequencies).1, b).subrange(0, sym_code(built_tree(frequencies).1, a).len() as int)
            == sym_code(built_tree(frequencies).1, a)),
{
    let n = built_tree(frequencies).1;
    lemma_built_codes_lead(frequencies);
    let ca = sym_code(n, a);
    let cb = sym_code(n, b);
    lemma_codes_binary(n, Seq::empty(), b);
    let stream = pack_bits(cb);
    assert forall|k: int| 0 <= k < cb.len() implies input_bit(stream, k) == #[trigger] cb[k] by {
        lemma_packed_bit(cb, Seq::empty(), k);
        assert(pack_bits(cb) + Seq::<u8>::empty() =~= pack_bits(cb));
    }
    assert(code_leads(n, b));
    assert(walk(n, ROOT_IDX as int, stream, 0) == (b, cb.len() as int)) by {
        assert forall|i: int| 0 <= i < cb.len() implies input_bit(stream, 0 + i) == #[trigger] cb[i] by {}
    }
    if ca.len() <= cb.len() && cb.subrange(0, ca.len() as int) == ca {
        assert(code_leads(n, a));
        assert forall|i: int| 0 <= i < ca.len() implies input_bit(stream, 0 + i) == #[trigger] ca[i] by {
            assert(cb.subrange(0, ca.len() as int)[i] == cb[i]);
        }
        assert(walk(n, ROOT_IDX as int, stream, 0) == (a, ca.len() as int));
    }
    // The root is no leaf: reading a pattern takes at least one bit.
    assert(code_leads(n, a));
    let s2 = pack_bits(ca);
    if ca.len() == 0 {
        assert(walk(n, ROOT_IDX as int, s2, 0) == (a, 0int));
        lemma_walk_leaf_pos(n, ROOT_IDX as int, s2, 0);
    }
}

/// Walking from a node above the leaves reads at least one bit.
proof fn lemma_walk_leaf_pos(nodes: Seq<Node>, idx: int, input: Seq<u8>, pos: int)
    requires
        NUM_SYMBOLS <= idx < nodes.len(),
    ensures
        walk(nodes, idx, input, pos).1 >= pos + 1,
    decreases idx,
{
    let c = nodes[idx].children[input_bit(input, pos) as int] as int;
    lemma_input_bit(input, pos);
    assert(walk(nodes, idx, input, pos) == (if c < idx {
        walk(nodes, c, input, pos + 1)
    } else {
        (c, pos + 1)
    }));
    if c < idx {
        if c >= NUM_SYMBOLS && c < nodes.len() {
            lemma_walk_leaf_pos(nodes, c, input, pos + 1);
        } else {
            assert(walk(nodes, c, input, pos + 1) == (c, pos + 1));
        }
    }
}

/// The packed bytes of a stream whose length is a multiple of 8, from its
/// complete bytes.
spec fn full_bytes(bits: Seq<u8>, n: int) -> Seq<u8> {
    Seq::new(n as nat, |j: int| byte_of(bits, j, 8))
}

/// A compressor's progress: `out` holds the complete bytes of `bits`, `cur`
/// the incomplete one with `nbits` bits.
spec fn packing(bits: Seq<u8>, out: Seq<u8>, cur: u8, nbits: u8) -> bool {
    &&& nbits < 8
    &&& bits.len() == 8 * out.len() + nbits
    &&& out == full_bytes(bits, out.len() as int)
    &&& cur == byte_of(bits, out.len() as int, nbits as int)
}

/// The entries the tree is built from: each byte with its frequency, then
/// the end-of-stream symbol with frequency 1.
pub open spec fn initial_freqs(frequencies: Seq<u32>) -> Seq<(u32, u16)> {
    Seq::new(NUM_FREQUENCIES as nat, |i: int| (frequencies[i], i as u16)).push((1u32, EOF))
}

/// The symbol leaves before they get their patterns.
pub open spec fn blank_leaves() -> Seq<Node> {
    Seq::new(NUM_SYMBOLS as nat, |i: int| repr_node(0, 0))
}

/// The nodes after joining, while more than one entry is left, the two
/// least frequent entries into a new node: the entries are sorted stably
/// by descending frequency, the last becomes the left child and the one
/// before it the right child, and the new node enters the entries with
/// their summed frequency (saturating).
pub open spec fn join_spec(freqs: Seq<(u32, u16)>, nodes: Seq<Node>) -> Seq<Node>
    decreases freqs.len(),
{
    let s = sort_desc(freqs);
    if freqs.len() <= 1 || s.len() != freqs.len() {
        nodes
    } else {
        let f1 = s[s.len() - 1];
        let f2 = s[s.len() - 2];
        join_spec(
            s.subrange(0, s.len() - 2).push((f1.0.saturating_add(f2.0), nodes.len() as u16)),
            nodes.push(Node { children: [f1.1, f2.1] }),
        )
    }
}

/// Whether the tree for the byte frequencies `frequencies` can be built,
/// and its nodes: joined as `join_spec` says, then the leaves numbered by
/// their path from the root.
pub open spec fn built_tree(frequencies: Seq<u32>) -> (bool, Seq<Node>) {
    assign_spec(join_spec(initial_freqs(frequencies), blank_leaves()), ROOT_IDX as int, 0, 0)
}

/// The Huffman coder.
pub struct Huffman {
    nodes: Vec<Node>,
}

impl Huffman {
    #[verifier::type_invariant]
    spec fn inv(self) -> bool {
        tree_wf(self.nodes@)
    }

    /// The nodes of the tree.
    pub closed spec fn spec_nodes(&self) -> Seq<Node> {
        self.nodes@
    }

    /// Builds the tree for the byte frequencies `frequencies`.
    pub fn from_frequencies(frequencies: &[u32]) -> (r: Result<Huffman, Error>)
        requires
            frequencies@.len() == NUM_FREQUENCIES,
        ensures
            r matches Ok(h) ==> tree_wf(h.spec_nodes()),
            match r {
                Ok(h) => built_tree(frequencies@).0 && h.spec_nodes() == built_tree(frequencies@).1,
                Err(_) => !built_tree(frequencies@).0,
            },
    {
        match Huffman::from_frequencies_array(frequencies) {
            Ok(h) => {
                proof {
                    use_type_invariant(&h);
                }
                Ok(h)
            },
            Err(e) => Err(e),
        }
    }

    /// Builds the tree: repeatedly joins the two least frequent nodes (ties:
    /// later entries first) and then numbers the leaves by their path, the
    /// left child adding a 0 bit and the right child a 1 bit. Fails if a
    /// pattern would be longer than 24 bits.
    pub fn from_frequencies_array(frequencies: &[u32]) -> (r: Result<Huffman, Error>)
        requires
            frequencies@.len() == NUM_FREQUENCIES,
        ensures
            match r {
                Ok(h) => built_tree(frequencies@).0 && h.spec_nodes() == built_tree(frequencies@).1,
                Err(_) => !built_tree(frequencies@).0,
            },
    {
        let mut freqs: Vec<(u32, u16)> = Vec::new();
        let mut i: usize = 0;
        while i < NUM_FREQUENCIES
            invariant
                i <= NUM_FREQUENCIES,
                frequencies@.len() == NUM_FREQUENCIES,
                freqs@.len() == i,
                forall|k: int| 0 <= k < i ==> (#[trigger] freqs@[k]).1 < NUM_SYMBOLS,
                forall|k: int| 0 <= k < i ==> #[trigger] freqs@[k] == (frequencies@[k], k as u16),
            decreases NUM_FREQUENCIES - i,
        {
            freqs.push((frequencies[i], i as u16));
            i = i + 1;
        }
        freqs.push((1, EOF));
        assert(freqs@ =~= initial_freqs(frequencies@));
        let mut nodes: Vec<Node> = Vec::new();
        let mut k: usize = 0;
        let blank = SymbolRepr { bits: 0, num_bits: 0 }.to_node();
        proof {
            lemma_roundtrip_symbol(0, 0);
        }
        while k < NUM_SYMBOLS as usize
            invariant
                k <= NUM_SYMBOLS,
                nodes@.len() == k,
                leaf_num_bits(blank) == 0 && leaf_bits(blank) == 0,
                forall|i: int| 0 <= i < k ==> #[trigger] nodes@[i] == blank,
            decreases NUM_SYMBOLS - k,
        {
            nodes.push(blank);
            k = k + 1;
        }
        assert(blank == repr_node(0, 0));
        assert(nodes@ =~= blank_leaves());
        let ghost joined = join_spec(freqs@, nodes@);
        while freqs.len() > 1
            invariant
                joined == join_spec(freqs@, nodes@),
                nodes@.len() >= NUM_SYMBOLS,
                nodes@.len() + freqs@.len() == NUM_NODES + 1,
                freqs@.len() >= 1,
                forall|k: int| 0 <= k < freqs@.len() ==> (#[trigger] freqs@[k]).1 < nodes@.len(),
                forall|i: int|
                    NUM_SYMBOLS <= i < nodes@.len() ==> #[trigger] nodes@[i].children[0] < i
                        && nodes@[i].children[1] < i,
                leaf_num_bits(blank) == 0 && leaf_bits(blank) == 0,
                forall|i: int| 0 <= i < NUM_SYMBOLS ==> #[trigger] nodes@[i] == blank,
            decreases freqs@.len(),
        {
            let ghost before = freqs@;
            let ghost nodes_before = nodes@;
            sort_descending(&mut freqs, Ghost(nodes@.len() as int));
            let ghost sorted = freqs@;
            let f1 = freqs.pop().unwrap();
            let f2 = freqs.pop().unwrap();
            let idx: u16 = nodes.len() as u16;
            let node = Node { children: [f1.1, f2.1] };
            assert(node.children[0] == f1.1 && node.children[1] == f2.1);
            nodes.push(node);
            freqs.push((f1.0.saturating_add(f2.0), idx));
            proof {
                assert(sorted == sort_desc(before));
                assert(f1 == sorted[sorted.len() - 1]);
                assert(f2 == sorted[sorted.len() - 2]);
                assert(freqs@ =~= sorted.subrange(0, sorted.len() - 2).push(
                    (f1.0.saturating_add(f2.0), nodes_before.len() as u16),
                ));
                assert(node == (Node { children: [f1.1, f2.1] }));
                assert(nodes@ == nodes_before.push(node));
                assert(join_spec(before, nodes_before) == join_spec(freqs@, nodes@));
            }
        }
        assert(nodes@.len() == NUM_NODES);
        assert(join_spec(freqs@, nodes@) == nodes@);
        let ok = assign_codes(&mut nodes, ROOT_IDX, 0, 0);
        if !ok {
            return Err(Error);
        }
        Ok(Huffman { nodes })
    }

    fn get_node(&self, idx: u16) -> (r: Result<Node, SymbolRepr>)
        requires
            idx < NUM_NODES,
        ensures
            idx >= NUM_SYMBOLS ==> r == Ok::<Node, SymbolRepr>(self.spec_nodes()[idx as int]),
            idx < NUM_SYMBOLS ==> (r matches Err(s) && s.spec_bits() == leaf_bits(
                self.spec_nodes()[idx as int],
            ) && s.spec_num_bits() == leaf_num_bits(self.spec_nodes()[idx as int])),
    {
        proof {
            use_type_invariant(self);
        }
        let n = self.nodes[idx as usize];
        if idx >= NUM_SYMBOLS {
            Ok(n)
        } else {
            Err(n.to_symbol_repr())
        }
    }

    /// Length of the pattern of symbol `idx`.
    fn symbol_bit_length(&self, idx: u16) -> (r: u32)
        requires
            idx < NUM_SYMBOLS,
        ensures
            r == leaf_num_bits(self.spec_nodes()[idx as int]),
            r <= 24,
    {
        proof {
            use_type_invariant(self);
        }
        match self.get_node(idx) {
            Ok(_) => 0,
            Err(s) => s.num_bits(),
        }
    }

    /// Number of bits compressing `input` produces.
    pub fn compressed_bit_len(&self, input: &[u8]) -> (r: usize)
        requires
            input@.len() <= usize::MAX / 32,
        ensures
            r == code_stream(self.spec_nodes(), input@).len(),
            r <= 24 * input@.len() + 24,
    {
        proof {
            use_type_invariant(self);
        }
        let mut total: usize = 0;
        let mut i: usize = 0;
        while i < input.len()
            invariant
                tree_wf(self.spec_nodes()),
                i <= input@.len(),
                input@.len() <= usize::MAX / 32,
                total == codes_of(self.spec_nodes(), input@.subrange(0, i as int)).len(),
                total <= 24 * i,
            decreases input@.len() - i,
        {
            let b = self.symbol_bit_length(input[i] as u16);
            proof {
                let pre = input@.subrange(0, i + 1);
                assert(pre.drop_last() =~= input@.subrange(0, i as int));
                assert(pre.last() == input@[i as int]);
            }
            total = total + b as usize;
            i = i + 1;
        }
        assert(input@.subrange(0, input@.len() as int) =~= input@);
        let e = self.symbol_bit_length(EOF);
        total + e as usize
    }

    /// Number of bytes compressing `input` produces.
    pub fn compressed_len(&self, input: &[u8]) -> (r: usize)
        requires
            input@.len() <= usize::MAX / 32,
        ensures
            r == (code_stream(self.spec_nodes(), input@).len() + 7) / 8,
    {
        (self.compressed_bit_len(input) + 7) / 8
    }

    /// Number of bytes Teeworlds itself uses to compress `input`;
    /// one more than `compressed_len` when the bits exactly fill their bytes.
    pub fn compressed_len_bug(&self, input: &[u8]) -> (r: usize)
        requires
            input@.len() <= usize::MAX / 32,
        ensures
            r == code_stream(self.spec_nodes(), input@).len() / 8 + 1,
    {
        self.compressed_bit_len(input) / 8 + 1
    }

    /// Compresses `input` into at most `capacity` bytes.
    pub fn compress(&self, input: &[u8], capacity: usize) -> (r: Result<Vec<u8>, CapacityError>)
        ensures
            (r is Ok) <==> compressed(self.spec_nodes(), input@, false).len() <= capacity,
            r matches Ok(out) ==> out@ == compressed(self.spec_nodes(), input@, false),
    {
        self.compress_impl(input, capacity, false)
    }

    /// Compresses `input` like Teeworlds itself does.
    pub fn compress_bug(&self, input: &[u8], capacity: usize) -> (r: Result<Vec<u8>, CapacityError>)
        ensures
            (r is Ok) <==> compressed(self.spec_nodes(), input@, true).len() <= capacity,
            r matches Ok(out) ==> out@ == compressed(self.spec_nodes(), input@, true),
    {
        self.compress_impl(input, capacity, true)
    }

    /// Appends the pattern of symbol `s` to the packing state.
    fn push_code(
        &self,
        s: u16,
        out: &mut Vec<u8>,
        cur: &mut u8,
        nbits: &mut u8,
        capacity: usize,
        Ghost(bits): Ghost<Seq<u8>>,
    ) -> (r: Result<(), CapacityError>)
        requires
            s < NUM_SYMBOLS,
            packing(bits, old(out)@, *old(cur), *old(nbits)),
            old(out)@.len() <= capacity,
        ensures
            r is Ok ==> packing(bits + sym_code(self.spec_nodes(), s as int), final(out)@, *final(cur), *final(nbits))
                && final(out)@.len() <= capacity,
            r is Err ==> (bits + sym_code(self.spec_nodes(), s as int)).len() >= 8 * (capacity + 1),
    {
        proof {
            use_type_invariant(self);
        }
        let repr = match self.get_node(s) {
            Ok(_) => SymbolRepr { bits: 0, num_bits: 0 },
            Err(r) => r,
        };
        let ghost code = sym_code(self.spec_nodes(), s as int);
        let ghost mut sofar: Seq<u8> = bits;
        let mut i: u8 = 0;
        while i < repr.num_bits
            invariant
                repr.bits == leaf_bits(self.spec_nodes()[s as int]),
                repr.num_bits == leaf_num_bits(self.spec_nodes()[s as int]),
                repr.num_bits <= 24,
                code == sym_code(self.spec_nodes(), s as int),
                i <= repr.num_bits,
                sofar == bits + code.subrange(0, i as int),
                packing(sofar, out@, *cur, *nbits),
                out@.len() <= capacity,
            decreases repr.num_bits - i,
        {
            let rb: u32 = repr.bits;
            let bit: u8 = ((rb >> (i as u32)) & 1u32) as u8;
            assert(bit == code[i as int]);
            assert(bit < 2) by (bit_vector)
                requires
                    bit == ((rb >> (i as u32)) & 1u32) as u8,
            ;
            let ghost old_sofar = sofar;
            let ghost old_out = out@;
            proof {
                sofar = sofar.push(bit);
                assert(bits + code.subrange(0, i + 1) =~= sofar);
                lemma_byte_of_push(old_sofar, bit, out@.len() as int, *nbits as int);
                assert(sofar[8 * out@.len() + *nbits] == bit);
                assert forall|j: int| 0 <= j < out@.len() implies byte_of(sofar, j, 8) == byte_of(
                    old_sofar,
                    j,
                    8,
                ) by {
                    lemma_byte_of_push(old_sofar, bit, j, 8);
                }
            }
            *cur = *cur | (bit << *nbits);
            *nbits = *nbits + 1;
            if *nbits == 8 {
                if out.len() >= capacity {
                    return Err(CapacityError);
                }
                out.push(*cur);
                *cur = 0;
                *nbits = 0;
                proof {
                    assert(out@ =~= full_bytes(sofar, out@.len() as int));
                }
            } else {
                proof {
                    assert(out@ =~= full_bytes(sofar, out@.len() as int));
                }
            }
            i = i + 1;
        }
        proof {
            assert(code.subrange(0, repr.num_bits as int) =~= code);
        }
        Ok(())
    }

    fn compress_impl(&self, input: &[u8], capacity: usize, bug: bool) -> (r: Result<
        Vec<u8>,
        CapacityError,
    >)
        ensures
            (r is Ok) <==> compressed(self.spec_nodes(), input@, bug).len() <= capacity,
            r matches Ok(out) ==> out@ == compressed(self.spec_nodes(), input@, bug),
    {
        proof {
            use_type_invariant(self);
        }
        let ghost nodes = self.spec_nodes();
        let mut out: Vec<u8> = Vec::new();
        let mut cur: u8 = 0;
        let mut nbits: u8 = 0;
        let mut i: usize = 0;
        proof {
            assert(out@ =~= full_bytes(Seq::empty(), 0));
        }
        while i < input.len()
            invariant
                tree_wf(nodes),
                nodes == self.spec_nodes(),
                i <= input@.len(),
                packing(codes_of(nodes, input@.subrange(0, i as int)), out@, cur, nbits),
                out@.len() <= capacity,
            decreases input@.len() - i,
        {
            let ghost pre = input@.subrange(0, i + 1);
            proof {
                assert(pre.drop_last() =~= input@.subrange(0, i as int));
                assert(pre.last() == input@[i as int]);
            }
            match self.push_code(
                input[i] as u16,
                &mut out,
                &mut cur,
                &mut nbits,
                capacity,
                Ghost(codes_of(nodes, input@.subrange(0, i as int))),
            ) {
                Ok(()) => {},
                Err(e) => {
                    proof {
                        lemma_stream_prefix_too_long(nodes, input@, i as int, capacity as int, bug);
                    }
                    return Err(e);
                },
            }
            i = i + 1;
        }
        proof {
            assert(input@.subrange(0, input@.len() as int) =~= input@);
        }
        let ghost stream = code_stream(nodes, input@);
        match self.push_code(EOF, &mut out, &mut cur, &mut nbits, capacity, Ghost(codes_of(nodes, input@))) {
            Ok(()) => {},
            Err(e) => {
                proof {
                    lemma_too_long(stream, capacity as int, bug);
                }
                return Err(e);
            },
        }
        if nbits > 0 || bug {
            if out.len() >= capacity {
                proof {
                    lemma_tail_too_long(stream, out@, nbits, capacity as int, bug);
                }
                return Err(CapacityError);
            }
            let ghost before = out@;
            out.push(cur);
            proof {
                assert(out@.drop_last() =~= before);
            }
        }
        proof {
            lemma_packed_final(stream, out@, cur, nbits, bug);
        }
        Ok(out)
    }

    /// Decompresses `input` into at most `capacity` bytes.
    pub fn decompress(&self, input: &[u8], capacity: usize) -> (r: Result<Vec<u8>, DecompressionError>)
        ensures
            (r is Ok) <==> exists|i: nat|
                i <= capacity && sym_at(self.spec_nodes(), input@, i) == EOF as int,
            r matches Ok(out) ==> {
                &&& out@.len() <= capacity
                &&& sym_at(self.spec_nodes(), input@, out@.len()) == EOF as int
                &&& forall|i: int|
                    #![trigger sym_at(self.spec_nodes(), input@, i as nat)]
                    0 <= i < out@.len() ==> sym_at(self.spec_nodes(), input@, i as nat) != EOF as int
                        && out@[i] as int == sym_at(self.spec_nodes(), input@, i as nat)
            },
            r matches Err(e) ==> e == DecompressionError::Capacity(CapacityError),
            (r is Ok) <==> decompressed(self.spec_nodes(), input@, capacity as nat) is Some,
            r matches Ok(out) ==> decompressed(self.spec_nodes(), input@, capacity as nat) == Some(out@),
    {
        proof {
            use_type_invariant(self);
        }
        let ghost nodes = self.spec_nodes();
        let mut out: Vec<u8> = Vec::new();
        let mut node: u16 = ROOT_IDX;
        let mut p: u128 = 0;
        loop
            invariant
                tree_wf(nodes),
                nodes == self.spec_nodes(),
                out@.len() <= capacity,
                NUM_SYMBOLS <= node < NUM_NODES,
                p + node <= out@.len() * 513 + 512,
                walk(nodes, ROOT_IDX as int, input@, pos_after(nodes, input@, out@.len())) == walk(
                    nodes,
                    node as int,
                    input@,
                    p as int,
                ),
                forall|i: int|
                    #![trigger sym_at(nodes, input@, i as nat)]
                    0 <= i < out@.len() ==> sym_at(nodes, input@, i as nat) != EOF as int
                        && out@[i] as int == sym_at(nodes, input@, i as nat),
            decreases capacity - out@.len(), node,
        {
            let byte_idx: u128 = p / 8;
            let byte: u8 = if byte_idx < input.len() as u128 {
                input[byte_idx as usize]
            } else {
                0
            };
            let bit: u8 = (byte >> ((p % 8) as u8)) & 1u8;
            proof {
                assert(bit == input_bit(input@, p as int));
                assert(bit < 2) by (bit_vector)
                    requires
                        bit == (byte >> ((p % 8) as u8)) & 1u8,
                ;
            }
            let n = self.nodes[node as usize];
            let new_idx: u16 = n.children[bit as usize];
            proof {
                assert(n == nodes[node as int]);
                assert(nodes[node as int].children[0] < node && nodes[node as int].children[1] < node);
                assert(new_idx == nodes[node as int].children[bit as int]);
                assert(walk(nodes, node as int, input@, p as int) == walk(nodes, new_idx as int, input@, p + 1));
            }
            p = p + 1;
            if new_idx >= NUM_SYMBOLS {
                node = new_idx;
            } else {
                let ghost k = out@.len();
                proof {
                    lemma_walk_leaf(nodes, new_idx as int, input@, p as int);
                    assert(walk(nodes, new_idx as int, input@, p as int) == (new_idx as int, p as int));
                    assert(sym_at(nodes, input@, k) == new_idx);
                    assert(pos_after(nodes, input@, k + 1) == p);
                }
                if new_idx == EOF {
                    proof {
                        lemma_decompress_ok(nodes, input@, out@, capacity as int);
                        assert forall|j: nat| j < out@.len() implies sym_at(nodes, input@, j) != EOF as int by {
                            let jj: int = j as int;
                            assert(sym_at(nodes, input@, jj as nat) != EOF as int);
                        }
                        lemma_first_eof(nodes, input@, capacity as nat, out@.len());
                        assert(Seq::new(out@.len(), |i: int| sym_at(nodes, input@, i as nat) as u8) =~= out@);
                    }
                    return Ok(out);
                }
                if out.len() >= capacity {
                    proof {
                        assert(sym_at(nodes, input@, capacity as nat) == new_idx);
                        lemma_decompress_err(nodes, input@, capacity as int);
                    }
                    return Err(DecompressionError::Capacity(CapacityError));
                }
                let ghost old_out = out@;
                out.push(new_idx as u8);
                node = ROOT_IDX;
                proof {
                    assert(out@.len() == k + 1);
                    assert forall|i: int| 0 <= i < out@.len() implies sym_at(
                        nodes,
                        input@,
                        i as nat,
                    ) != EOF as int && out@[i] as int == sym_at(nodes, input@, i as nat) by {
                        if i < k {
                            assert(out@[i] == old_out[i]);
                        } else {
                            assert(out@[i] == new_idx as u8);
                        }
                    }
                }
            }
        }
    }

    /// The bit patterns of all symbols, in symbol order.
    pub fn repr(&self) -> (r: Vec<SymbolRepr>)
        ensures
            r@.len() == NUM_SYMBOLS,
            forall|i: int|
                0 <= i < NUM_SYMBOLS ==> (#[trigger] r@[i]).spec_bits() == leaf_bits(
                    self.spec_nodes()[i],
                ) && r@[i].spec_num_bits() == leaf_num_bits(self.spec_nodes()[i]),
    {
        proof {
            use_type_invariant(self);
        }
        let mut r: Vec<SymbolRepr> = Vec::new();
        let mut i: u16 = 0;
        while i < NUM_SYMBOLS
            invariant
                i <= NUM_SYMBOLS,
                self.spec_nodes().len() == NUM_NODES,
                r@.len() == i,
                forall|k: int|
                    0 <= k < i ==> (#[trigger] r@[k]).spec_bits() == leaf_bits(
                        self.spec_nodes()[k],
                    ) && r@[k].spec_num_bits() == leaf_num_bits(self.spec_nodes()[k]),
            decreases NUM_SYMBOLS - i,
        {
            r.push(self.nodes[i as usize].to_symbol_repr());
            i = i + 1;
        }
        r
    }
}

proof fn lemma_decompress_ok(nodes: Seq<Node>, input: Seq<u8>, out: Seq<u8>, capacity: int)
    requires
        out.len() <= capacity,
        sym_at(nodes, input, out.len()) == EOF as int,
    ensures
        exists|i: nat| i <= capacity && sym_at(nodes, input, i) == EOF as int,
{
    assert(sym_at(nodes, input, out.len()) == EOF as int);
}

proof fn lemma_decompress_err(nodes: Seq<Node>, input: Seq<u8>, capacity: int)
    requires
        capacity >= 0,
        forall|i: int| 0 <= i < capacity ==> #[trigger] sym_at(nodes, input, i as nat) != EOF as int,
        sym_at(nodes, input, capacity as nat) != EOF as int,
    ensures
        !exists|i: nat| i <= capacity && sym_at(nodes, input, i) == EOF as int,
{
    assert forall|i: nat| i <= capacity implies sym_at(nodes, input, i) != EOF as int by {
        if i < capacity {
            let j: int = i as int;
            assert(0 <= j < capacity);
            assert(sym_at(nodes, input, j as nat) != EOF as int);
            assert(j as nat == i);
        }
    }
}

proof fn lemma_codes_prefix(nodes: Seq<Node>, input: Seq<u8>, i: int)
    requires
        0 <= i <= input.len(),
    ensures
        codes_of(nodes, input).len() >= codes_of(nodes, input.subrange(0, i)).len(),
    decreases input.len() - i,
{
    if i < input.len() {
        lemma_codes_prefix(nodes, input, i + 1);
        let pre = input.subrange(0, i + 1);
        assert(pre.drop_last() =~= input.subrange(0, i));
    } else {
        assert(input.subrange(0, i) =~= input);
    }
}

proof fn lemma_stream_prefix_too_long(nodes: Seq<Node>, input: Seq<u8>, i: int, capacity: int, bug: bool)
    requires
        0 <= i < input.len(),
        capacity >= 0,
        codes_of(nodes, input.subrange(0, i + 1)).len() >= 8 * (capacity + 1),
    ensures
        compressed(nodes, input, bug).len() > capacity,
{
    lemma_codes_prefix(nodes, input, i + 1);
    lemma_too_long(code_stream(nodes, input), capacity, bug);
}

proof fn lemma_too_long(bits: Seq<u8>, capacity: int, bug: bool)
    requires
        capacity >= 0,
        bits.len() >= 8 * (capacity + 1),
    ensures
        (pack_bits(bits) + (if bug && bits.len() % 8 == 0 {
            seq![0u8]
        } else {
            Seq::empty()
        })).len() > capacity,
{
}

proof fn lemma_tail_too_long(bits: Seq<u8>, out: Seq<u8>, nbits: u8, capacity: int, bug: bool)
    requires
        nbits < 8,
        bits.len() == 8 * out.len() + nbits,
        out.len() >= capacity,
        nbits > 0 || bug,
    ensures
        (pack_bits(bits) + (if bug && bits.len() % 8 == 0 {
            seq![0u8]
        } else {
            Seq::empty()
        })).len() > capacity,
{
}

proof fn lemma_packed_final(bits: Seq<u8>, out: Seq<u8>, cur: u8, nbits: u8, bug: bool)
    requires
        nbits > 0 || bug ==> packing(bits, out.drop_last(), cur, nbits) && out.len() >= 1 && out.last()
            == cur,
        !(nbits > 0 || bug) ==> packing(bits, out, cur, nbits),
    ensures
        out == pack_bits(bits) + (if bug && bits.len() % 8 == 0 {
            seq![0u8]
        } else {
            Seq::empty()
        }),
{
    let tail: Seq<u8> = if bug && bits.len() % 8 == 0 {
        seq![0u8]
    } else {
        Seq::empty()
    };
    if nbits > 0 {
        let full = out.drop_last();
        assert(pack_bits(bits).len() == full.len() + 1);
        assert forall|j: int| 0 <= j < out.len() implies out[j] == (pack_bits(bits) + tail)[j] by {
            if j < full.len() {
                assert(out[j] == full[j]);
            }
        }
        assert(out =~= pack_bits(bits) + tail);
    } else if bug {
        let full = out.drop_last();
        assert(byte_of(bits, full.len() as int, 0) == 0);
        assert forall|j: int| 0 <= j < out.len() implies out[j] == (pack_bits(bits) + tail)[j] by {
            if j < full.len() {
                assert(out[j] == full[j]);
            }
        }
        assert(out =~= pack_bits(bits) + tail);
    } else {
        assert(out =~= pack_bits(bits) + tail);
    }
}

/// The entries of `s` with frequency `f`, in order.
pub open spec fn with_freq(s: Seq<(u32, u16)>, f: u32) -> Seq<(u32, u16)>
    decreases s.len(),
{
    if s.len() == 0 {
        Seq::empty()
    } else if s.last().0 == f {
        with_freq(s.drop_last(), f).push(s.last())
    } else {
        with_freq(s.drop_last(), f)
    }
}

/// The frequencies of `s` never rise.
pub open spec fn sorted_desc(s: Seq<(u32, u16)>) -> bool {
    forall|a: int, b: int| 0 <= a < b < s.len() ==> s[a].0 >= s[b].0
}

/// `t` is `s` sorted by descending frequency, entries of equal frequency in
/// the order they have in `s`.
pub open spec fn stably_sorted(t: Seq<(u32, u16)>, s: Seq<(u32, u16)>) -> bool {
    &&& sorted_desc(t)
    &&& forall|f: u32| #[trigger] with_freq(t, f) == with_freq(s, f)
}

/// `s` sorted by descending frequency, entries of equal frequency in the
/// order they have in `s`.
pub open spec fn sort_desc(s: Seq<(u32, u16)>) -> Seq<(u32, u16)> {
    choose|t: Seq<(u32, u16)>| stably_sorted(t, s)
}

proof fn lemma_with_freq_add(a: Seq<(u32, u16)>, b: Seq<(u32, u16)>, f: u32)
    ensures
        with_freq(a + b, f) == with_freq(a, f) + with_freq(b, f),
    decreases b.len(),
{
    if b.len() == 0 {
        assert(a + b =~= a);
        assert(with_freq(b, f) =~= Seq::<(u32, u16)>::empty());
        assert(with_freq(a, f) + with_freq(b, f) =~= with_freq(a, f));
    } else {
        lemma_with_freq_add(a, b.drop_last(), f);
        assert((a + b).drop_last() =~= a + b.drop_last());
        assert((a + b).last() == b.last());
        if b.last().0 == f {
            assert(with_freq(a, f) + with_freq(b, f) =~= (with_freq(a, f) + with_freq(b.drop_last(), f)).push(b.last()));
        }
    }
}

/// Swapping two neighbours of different frequencies keeps the entries of
/// each frequency in order.
proof fn lemma_with_freq_swap(s: Seq<(u32, u16)>, i: int, f: u32)
    requires
        0 <= i,
        i + 1 < s.len(),
        s[i].0 != s[i + 1].0,
    ensures
        with_freq(s.update(i, s[i + 1]).update(i + 1, s[i]), f) == with_freq(s, f),
{
    let t = s.update(i, s[i + 1]).update(i + 1, s[i]);
    let pre = s.subrange(0, i);
    let post = s.subrange(i + 2, s.len() as int);
    let xy = seq![s[i], s[i + 1]];
    let yx = seq![s[i + 1], s[i]];
    assert(s =~= pre + xy + post);
    assert(t =~= pre + yx + post);
    lemma_with_freq_add(pre + xy, post, f);
    lemma_with_freq_add(pre, xy, f);
    lemma_with_freq_add(pre + yx, post, f);
    lemma_with_freq_add(pre, yx, f);
    assert(xy.drop_last() =~= seq![s[i]]);
    assert(yx.drop_last() =~= seq![s[i + 1]]);
    assert(seq![s[i]].drop_last() =~= Seq::<(u32, u16)>::empty());
    assert(seq![s[i + 1]].drop_last() =~= Seq::<(u32, u16)>::empty());
    let e = Seq::<(u32, u16)>::empty();
    assert(with_freq(e, f) == e);
    let wx = if s[i].0 == f { seq![s[i]] } else { e };
    let wy = if s[i + 1].0 == f { seq![s[i + 1]] } else { e };
    assert(with_freq(seq![s[i]], f) =~= wx);
    assert(with_freq(seq![s[i + 1]], f) =~= wy);
    assert(with_freq(xy, f) =~= wx + wy);
    assert(with_freq(yx, f) =~= wy + wx);
    assert(wx.len() == 0 || wy.len() == 0);
    assert(wx + wy =~= wy + wx);
}

/// An entry of frequency `f` is found in `s` where `with_freq` finds one.
proof fn lemma_with_freq_found(s: Seq<(u32, u16)>, f: u32)
    ensures
        with_freq(s, f).len() > 0 ==> exists|k: int| 0 <= k < s.len() && #[trigger] s[k].0 == f,
    decreases s.len(),
{
    if s.len() > 0 {
        lemma_with_freq_found(s.drop_last(), f);
        if with_freq(s.drop_last(), f).len() > 0 {
            let k = choose|k: int| 0 <= k < s.drop_last().len() && #[trigger] s.drop_last()[k].0 == f;
            assert(s[k].0 == f);
        }
        if s.last().0 == f {
            assert(s[s.len() - 1].0 == f);
        }
    }
}

/// Two sequences sorted by descending frequency whose entries of each
/// frequency agree are equal: the stable sort has one result.
proof fn lemma_stably_sorted_unique(t1: Seq<(u32, u16)>, t2: Seq<(u32, u16)>)
    requires
        sorted_desc(t1),
        sorted_desc(t2),
        forall|f: u32| #[trigger] with_freq(t1, f) == with_freq(t2, f),
    ensures
        t1 == t2,
    decreases t1.len() + t2.len(),
{
    if t1.len() == 0 && t2.len() == 0 {
        assert(t1 =~= t2);
    } else if t1.len() == 0 {
        let m = t2.last().0;
        assert(with_freq(t2, m).len() > 0);
        assert(with_freq(t1, m) == with_freq(t2, m));
    } else if t2.len() == 0 {
        let m = t1.last().0;
        assert(with_freq(t1, m).len() > 0);
        assert(with_freq(t1, m) == with_freq(t2, m));
    } else {
        let m1 = t1.last().0;
        let m2 = t2.last().0;
        assert(with_freq(t1, m1) == with_freq(t2, m1));
        assert(with_freq(t1, m2) == with_freq(t2, m2));
        lemma_with_freq_found(t2, m1);
        lemma_with_freq_found(t1, m2);
        assert(with_freq(t1, m1).len() > 0);
        assert(with_freq(t2, m2).len() > 0);
        let k2 = choose|k: int| 0 <= k < t2.len() && #[trigger] t2[k].0 == m1;
        let k1 = choose|k: int| 0 <= k < t1.len() && #[trigger] t1[k].0 == m2;
        assert(t2[k2].0 >= t2[t2.len() - 1].0);
        assert(t1[k1].0 >= t1[t1.len() - 1].0);
        assert(m1 == m2);
        assert(t1.last() == with_freq(t1, m1).last());
        assert(t2.last() == with_freq(t2, m2).last());
        assert forall|f: u32| #[trigger] with_freq(t1.drop_last(), f) == with_freq(t2.drop_last(), f) by {
            assert(with_freq(t1, f) == with_freq(t2, f));
            if f == m1 {
                assert(with_freq(t1.drop_last(), f) == with_freq(t1, f).drop_last());
                assert(with_freq(t2.drop_last(), f) == with_freq(t2, f).drop_last());
            }
        }
        lemma_stably_sorted_unique(t1.drop_last(), t2.drop_last());
        assert(t1 =~= t1.drop_last().push(t1.last()));
        assert(t2 =~= t2.drop_last().push(t2.last()));
    }
}

/// The stable sort of `s` is any sequence stably sorted from `s`.
proof fn lemma_sort_desc(t: Seq<(u32, u16)>, s: Seq<(u32, u16)>)
    requires
        stably_sorted(t, s),
    ensures
        sort_desc(s) == t,
{
    let c = sort_desc(s);
    assert(stably_sorted(c, s));
    assert forall|f: u32| #[trigger] with_freq(c, f) == with_freq(t, f) by {
        assert(with_freq(c, f) == with_freq(s, f));
        assert(with_freq(t, f) == with_freq(s, f));
    }
    lemma_stably_sorted_unique(c, t);
}

/// Where entry `x` goes in the sorted `t`: after every entry at least as
/// frequent.
pub open spec fn insert_pos(t: Seq<(u32, u16)>, x: (u32, u16)) -> int
    decreases t.len(),
{
    if t.len() == 0 {
        0
    } else if t.last().0 >= x.0 {
        t.len() as int
    } else {
        insert_pos(t.drop_last(), x)
    }
}

/// `t` with `x` put after every entry at least as frequent.
pub open spec fn insert_desc(t: Seq<(u32, u16)>, x: (u32, u16)) -> Seq<(u32, u16)> {
    let p = insert_pos(t, x);
    t.subrange(0, p) + seq![x] + t.subrange(p, t.len() as int)
}

/// `s` sorted stably by descending frequency, one entry after another.
pub open spec fn insertion_sort(s: Seq<(u32, u16)>) -> Seq<(u32, u16)>
    decreases s.len(),
{
    if s.len() == 0 {
        s
    } else {
        insert_desc(insertion_sort(s.drop_last()), s.last())
    }
}

proof fn lemma_insert_pos(t: Seq<(u32, u16)>, x: (u32, u16))
    requires
        sorted_desc(t),
    ensures
        0 <= insert_pos(t, x) <= t.len(),
        forall|i: int| 0 <= i < insert_pos(t, x) ==> #[trigger] t[i].0 >= x.0,
        forall|i: int| insert_pos(t, x) <= i < t.len() ==> #[trigger] t[i].0 < x.0,
    decreases t.len(),
{
    if t.len() > 0 {
        if t.last().0 >= x.0 {
            assert forall|i: int| 0 <= i < t.len() implies #[trigger] t[i].0 >= x.0 by {
                if i < t.len() - 1 {
                    assert(t[i].0 >= t[t.len() - 1].0);
                }
            }
        } else {
            let u = t.drop_last();
            assert(sorted_desc(u)) by {
                assert forall|a: int, b: int| 0 <= a < b < u.len() implies u[a].0 >= u[b].0 by {
                    assert(u[a] == t[a] && u[b] == t[b]);
                }
            }
            lemma_insert_pos(u, x);
            assert forall|i: int| 0 <= i < insert_pos(t, x) implies #[trigger] t[i].0 >= x.0 by {
                assert(t[i] == u[i]);
            }
            assert forall|i: int| insert_pos(t, x) <= i < t.len() implies #[trigger] t[i].0 < x.0 by {
                if i < t.len() - 1 {
                    assert(t[i] == u[i]);
                }
            }
        }
    }
}

/// No entry of `s` has frequency `f`: `with_freq` finds none.
proof fn lemma_with_freq_none(s: Seq<(u32, u16)>, f: u32)
    requires
        forall|i: int| 0 <= i < s.len() ==> #[trigger] s[i].0 != f,
    ensures
        with_freq(s, f) == Seq::<(u32, u16)>::empty(),
    decreases s.len(),
{
    if s.len() > 0 {
        lemma_with_freq_none(s.drop_last(), f);
        assert(s.last().0 != f);
    }
}

proof fn lemma_insertion_sort(s: Seq<(u32, u16)>)
    ensures
        stably_sorted(insertion_sort(s), s),
        insertion_sort(s).len() == s.len(),
        forall|y: (u32, u16)| #[trigger] insertion_sort(s).contains(y) <==> s.contains(y),
    decreases s.len(),
{
    if s.len() == 0 {
    } else {
        let t = insertion_sort(s.drop_last());
        let x = s.last();
        lemma_insertion_sort(s.drop_last());
        lemma_insert_pos(t, x);
        let p = insert_pos(t, x);
        let a = t.subrange(0, p);
        let c = t.subrange(p, t.len() as int);
        let r = insertion_sort(s);
        assert(r == a + seq![x] + c);
        assert(t =~= a + c);
        assert forall|i: int, j: int| 0 <= i < j < r.len() implies r[i].0 >= r[j].0 by {
            if j < p {
                assert(r[i] == t[i] && r[j] == t[j]);
            } else if j == p {
                assert(r[i] == t[i]);
            } else if i < p {
                assert(r[i] == t[i] && r[j] == t[j - 1]);
            } else if i == p {
                assert(r[j] == t[j - 1]);
            } else {
                assert(r[i] == t[i - 1] && r[j] == t[j - 1]);
            }
        }
        assert forall|f: u32| #[trigger] with_freq(r, f) == with_freq(s, f) by {
            lemma_with_freq_add(a + seq![x], c, f);
            lemma_with_freq_add(a, seq![x], f);
            lemma_with_freq_add(a, c, f);
            assert(seq![x].drop_last() =~= Seq::<(u32, u16)>::empty());
            assert(with_freq(Seq::<(u32, u16)>::empty(), f) == Seq::<(u32, u16)>::empty());
            if x.0 == f {
                assert forall|i: int| 0 <= i < c.len() implies #[trigger] c[i].0 != f by {
                    assert(c[i] == t[p + i]);
                }
                lemma_with_freq_none(c, f);
                assert(with_freq(seq![x], f) =~= seq![x]);
                assert(with_freq(r, f) =~= with_freq(t, f).push(x));
            } else {
                assert(with_freq(seq![x], f) =~= Seq::<(u32, u16)>::empty());
                assert(with_freq(r, f) =~= with_freq(t, f));
            }
        }
        assert forall|y: (u32, u16)| #[trigger] r.contains(y) <==> s.contains(y) by {
            if r.contains(y) {
                let i = choose|i: int| 0 <= i < r.len() && r[i] == y;
                if i < p {
                    assert(t[i] == y);
                    assert(t.contains(y));
                    let k = choose|k: int| 0 <= k < s.drop_last().len() && s.drop_last()[k] == y;
                    assert(s[k] == y);
                } else if i == p {
                    assert(s[s.len() - 1] == y);
                } else {
                    assert(t[i - 1] == y);
                    assert(t.contains(y));
                    let k = choose|k: int| 0 <= k < s.drop_last().len() && s.drop_last()[k] == y;
                    assert(s[k] == y);
                }
            }
            if s.contains(y) {
                let k = choose|k: int| 0 <= k < s.len() && s[k] == y;
                if k == s.len() - 1 {
                    assert(r[p] == y);
                } else {
                    assert(s.drop_last()[k] == y);
                    assert(t.contains(y));
                    let i = choose|i: int| 0 <= i < t.len() && t[i] == y;
                    if i < p {
                        assert(r[i] == y);
                    } else {
                        assert(r[i + 1] == y);
                    }
                }
            }
        }
    }
}

/// Sorts by descending frequency, keeping the order of equal frequencies.
fn sort_descending(v: &mut Vec<(u32, u16)>, Ghost(bound): Ghost<int>)
    requires
        forall|k: int| 0 <= k < old(v)@.len() ==> (#[trigger] old(v)@[k]).1 < bound,
    ensures
        final(v)@.len() == old(v)@.len(),
        forall|k: int| 0 <= k < final(v)@.len() ==> (#[trigger] final(v)@[k]).1 < bound,
        stably_sorted(final(v)@, old(v)@),
        final(v)@ == sort_desc(old(v)@),
{
    let ghost orig = v@;
    let n = v.len();
    let mut i: usize = 1;
    if n == 0 {
        proof {
            lemma_sort_desc(v@, orig);
        }
        return;
    }
    while i < n
        invariant
            1 <= i <= n,
            v@.len() == n,
            forall|k: int| 0 <= k < v@.len() ==> (#[trigger] v@[k]).1 < bound,
            forall|a: int, b: int| 0 <= a < b < i ==> v@[a].0 >= v@[b].0,
            forall|f: u32| #[trigger] with_freq(v@, f) == with_freq(orig, f),
        decreases n - i,
    {
        let mut j: usize = i;
        while j > 0 && v[j - 1].0 < v[j].0
            invariant
                j <= i < n,
                v@.len() == n,
                forall|k: int| 0 <= k < v@.len() ==> (#[trigger] v@[k]).1 < bound,
                forall|a: int, b: int| 0 <= a < b < j ==> v@[a].0 >= v@[b].0,
                forall|a: int, b: int| j < a < b <= i ==> v@[a].0 >= v@[b].0,
                forall|a: int| j < a <= i ==> v@[j as int].0 > #[trigger] v@[a].0,
                forall|a: int, b: int| 0 <= a < j < b <= i ==> v@[a].0 >= v@[b].0,
                forall|f: u32| #[trigger] with_freq(v@, f) == with_freq(orig, f),
            decreases j,
        {
            let a = v[j - 1];
            let b = v[j];
            proof {
                assert forall|f: u32| #[trigger] with_freq(v@.update(j - 1, b).update(j as int, a), f)
                    == with_freq(orig, f) by {
                    lemma_with_freq_swap(v@, j - 1, f);
                }
            }
            v.set(j - 1, b);
            v.set(j, a);
            j = j - 1;
        }
        proof {
            assert forall|a: int, b: int| 0 <= a < b < i + 1 implies v@[a].0 >= v@[b].0 by {
                if b < j {
                } else if b == j {
                    if a < j - 1 {
                        assert(v@[a].0 >= v@[j - 1].0);
                    }
                } else if a < j {
                } else if a == j {
                    assert(v@[j as int].0 > v@[b].0);
                } else {
                }
            }
        }
        i = i + 1;
    }
    proof {
        lemma_sort_desc(v@, orig);
    }
}

/// Whether every leaf below node `idx`, which is reached by the path `bits`
/// of length `depth`, gets a pattern of at most 24 bits, and the nodes
/// after the leaves have got theirs, left subtree first, up to the first
/// that does not fit.
pub open spec fn assign_spec(nodes: Seq<Node>, idx: int, bits: u32, depth: u8) -> (bool, Seq<Node>)
    decreases idx,
{
    if idx < NUM_SYMBOLS {
        (true, nodes.update(idx, repr_node(bits, depth)))
    } else if depth >= MAX_CODE_BITS {
        (false, nodes)
    } else {
        let left = nodes[idx].children[0] as int;
        let right = nodes[idx].children[1] as int;
        if left >= idx || right >= idx {
            (false, nodes)
        } else {
            let l = assign_spec(nodes, left, bits, (depth + 1) as u8);
            if !l.0 {
                l
            } else {
                assign_spec(l.1, right, bits | (1u32 << (depth as u32)), (depth + 1) as u8)
            }
        }
    }
}

/// Sets the bit patterns of all leaves below `idx`, which is reached by the
/// path `bits` of length `depth`. Returns false if a pattern would be longer
/// than 24 bits.
fn assign_codes(nodes: &mut Vec<Node>, idx: u16, bits: u32, depth: u8) -> (ok: bool)
    requires
        old(nodes)@.len() == NUM_NODES,
        idx < NUM_NODES,
        depth <= MAX_CODE_BITS,
        bits < 0x100_0000,
        forall|i: int|
            NUM_SYMBOLS <= i < NUM_NODES ==> #[trigger] old(nodes)@[i].children[0] < i && old(
                nodes,
            )@[i].children[1] < i,
        forall|i: int|
            0 <= i < NUM_SYMBOLS ==> leaf_num_bits(#[trigger] old(nodes)@[i]) <= MAX_CODE_BITS
                && leaf_bits(old(nodes)@[i]) < 0x100_0000,
    ensures
        (ok, final(nodes)@) == assign_spec(old(nodes)@, idx as int, bits, depth),
        final(nodes)@.len() == NUM_NODES,
        forall|i: int| NUM_SYMBOLS <= i < NUM_NODES ==> #[trigger] final(nodes)@[i] == old(nodes)@[i],
        forall|i: int|
            0 <= i < NUM_SYMBOLS ==> leaf_num_bits(#[trigger] final(nodes)@[i]) <= MAX_CODE_BITS
                && leaf_bits(final(nodes)@[i]) < 0x100_0000,
    decreases idx,
{
    if idx < NUM_SYMBOLS {
        let node = SymbolRepr { bits, num_bits: depth }.to_node();
        proof {
            lemma_roundtrip_symbol(bits, depth);
        }
        nodes.set(idx as usize, node);
        return true;
    }
    if depth >= MAX_CODE_BITS {
        return false;
    }
    let n = nodes[idx as usize];
    let left = n.children[0];
    let right = n.children[1];
    if !assign_codes(nodes, left, bits, depth + 1) {
        return false;
    }
    let one: u32 = 1u32 << (depth as u32);
    assert(bits | one < 0x100_0000) by (bit_vector)
        requires
            bits < 0x100_0000,
            depth < 24,
            one == 1u32 << (depth as u32),
    ;
    assign_codes(nodes, right, bits | one, depth + 1)
}

/// Symbol frequencies of the tree that Teeworlds uses for its packets.
pub const TEEWORLDS_FREQUENCIES: [u32; 256] = [
    1073741824u32, 4545, 2657, 431, 1950, 919, 444, 482, 2244, 617, 838, 542,
    715, 1814, 304, 240, 754, 212, 647, 186, 283, 131, 146, 166,
    543, 164, 167, 136, 179, 859, 363, 113, 157, 154, 204, 108,
    137, 180, 202, 176, 872, 404, 168, 134, 151, 111, 113, 109,
    120, 126, 129, 100, 41, 20, 16, 22, 18, 18, 17, 19,
    16, 37, 13, 21, 362, 166, 99, 78, 95, 88, 81, 70,
    83, 284, 91, 187, 77, 68, 52, 68, 59, 66, 61, 638,
    71, 157, 50, 46, 69, 43, 11, 24, 13, 19, 10, 12,
    12, 20, 14, 9, 20, 20, 10, 10, 15, 15, 12, 12,
    7, 19, 15, 14, 13, 18, 35, 19, 17, 14, 8, 5,
    15, 17, 9, 15, 14, 18, 8, 10, 2173, 134, 157, 68,
    188, 60, 170, 60, 194, 62, 175, 71, 148, 67, 167, 78,
    211, 67, 156, 69, 1674, 90, 174, 53, 147, 89, 181, 51,
    174, 63, 163, 80, 167, 94, 128, 122, 223, 153, 218, 77,
    200, 110, 190, 73, 174, 69, 145, 66, 277, 143, 141, 60,
    136, 53, 180, 57, 142, 57, 158, 61, 166, 112, 152, 92,
    26, 22, 21, 28, 20, 26, 30, 21, 32, 27, 20, 17,
    23, 21, 30, 22, 22, 21, 27, 25, 17, 27, 23, 18,
    39, 26, 15, 21, 12, 18, 18, 27, 20, 18, 15, 19,
    11, 17, 33, 12, 18, 15, 19, 18, 16, 26, 17, 18,
    9, 10, 25, 22, 22, 17, 20, 16, 6, 16, 15, 20,
    14, 18, 24, 335,
];

/// The tree that Teeworlds uses for its packets.
pub fn teeworlds() -> (r: Result<Huffman, Error>)
    ensures
        r matches Ok(h) ==> tree_wf(h.spec_nodes()),
        match r {
            Ok(h) => built_tree(TEEWORLDS_FREQUENCIES@).0 && h.spec_nodes() == built_tree(
                TEEWORLDS_FREQUENCIES@,
            ).1,
            Err(_) => !built_tree(TEEWORLDS_FREQUENCIES@).0,
        },
{
    let f: &[u32] = &TEEWORLDS_FREQUENCIES;
    assert(f@.len() == 256);
    Huffman::from_frequencies(f)
}

} // verus!

//! Cardinality sketch: 256 four-bit registers packed two to a byte.
//!
//! A client is observed by hashing its identity with a salt. The top eight
//! bits of the hash select a register, the run of zero bits at the head of
//! the remaining 56 bits gives a rank, and the register keeps the largest
//! rank it has seen, never more than `HLL_MAX_RHO`.

use vstd::prelude::*;
use vstd::std_specs::bits::{axiom_u64_leading_zeros, u64_leading_zeros};
use crate::params::HLL_MAX_RHO;

verus! {

/// Bytes in a sketch.
pub const HLL_BYTES: usize = 128;

/// Registers in a sketch.
pub const HLL_REGISTERS: usize = 256;

/// Bytes in a client identity.
pub const CLIENT_HASH_BYTES: usize = 32;

/// Start value of the byte-wise mixing, before the salt is folded in.
pub const HASH_SEED: u64 = 0xcbf2_9ce4_8422_2325;

/// Multiplier of the byte-wise mixing.
pub const HASH_PRIME: u64 = 0x0000_0100_0000_01b3;

/// First multiplier of the final scrambling.
pub const SCRAMBLE_A: u64 = 0xff51_afd7_ed55_8ccd;

/// Second multiplier of the final scrambling.
pub const SCRAMBLE_B: u64 = 0xc4ce_b9fe_1a85_ec53;

/// Register `i` of a packed byte sequence: the low nibble of byte `i / 2`
/// for even `i`, the high nibble for odd `i`.
pub open spec fn packed_register(bytes: Seq<u8>, i: int) -> u8 {
    if i % 2 == 0 {
        bytes[i / 2] % 16
    } else {
        bytes[i / 2] / 16
    }
}

/// The registers that a byte sequence packs, two to a byte.
pub open spec fn registers_of(bytes: Seq<u8>) -> Seq<u8> {
    Seq::new(2 * bytes.len(), |i: int| packed_register(bytes, i))
}

/// Every register is within the largest rank.
pub open spec fn registers_bounded(registers: Seq<u8>) -> bool {
    forall|i: int| 0 <= i < registers.len() ==> registers[i] <= HLL_MAX_RHO
}

/// The registers of a sketch that has observed nothing.
pub open spec fn empty_registers() -> Seq<u8> {
    Seq::new(HLL_REGISTERS as nat, |i: int| 0u8)
}

/// Folds the bytes into the state, first byte first: each byte is xored in
/// and the state multiplied by `HASH_PRIME`, modulo two to the 64th.
pub open spec fn absorbed(state: u64, bytes: Seq<u8>) -> u64
    decreases bytes.len(),
{
    if bytes.len() == 0 {
        state
    } else {
        (absorbed(state, bytes.drop_last()) ^ (bytes.last() as u64)).wrapping_mul(HASH_PRIME)
    }
}

/// Spreads every input bit over the whole word.
pub open spec fn scrambled(h: u64) -> u64 {
    let a = (h ^ (h >> 33)).wrapping_mul(SCRAMBLE_A);
    let b = (a ^ (a >> 33)).wrapping_mul(SCRAMBLE_B);
    b ^ (b >> 33)
}

/// The hash of a client identity under a salt.
pub open spec fn salted_hash(client_hash: Seq<u8>, salt: u64) -> u64 {
    scrambled(absorbed(HASH_SEED ^ salt, client_hash))
}

/// The register that a hash selects: its top eight bits.
pub open spec fn register_index(hash: u64) -> int {
    hash as int / 0x0100_0000_0000_0000
}

/// The rank of a hash: one more than the number of zero bits at the head of
/// its low 56 bits, and `HLL_MAX_RHO` where that would be more.
pub open spec fn register_rank(hash: u64) -> int {
    let zeros = u64_leading_zeros(hash << 8);
    if zeros + 1 < HLL_MAX_RHO {
        zeros + 1
    } else {
        HLL_MAX_RHO as int
    }
}

/// The registers after a hash has been merged in: the selected register
/// takes the rank where that is more than it holds, and nothing else moves.
pub open spec fn merged(registers: Seq<u8>, hash: u64) -> Seq<u8> {
    let i = register_index(hash);
    let rank = register_rank(hash);
    if registers[i] < rank {
        registers.update(i, rank as u8)
    } else {
        registers
    }
}

/// The registers after one client has been observed.
pub open spec fn observed(registers: Seq<u8>, client_hash: Seq<u8>, salt: u64) -> Seq<u8> {
    merged(registers, salted_hash(client_hash, salt))
}

/// The registers after a run of observations, each an identity and a salt.
pub open spec fn observed_all(registers: Seq<u8>, clients: Seq<(Seq<u8>, u64)>) -> Seq<u8>
    decreases clients.len(),
{
    if clients.len() == 0 {
        registers
    } else {
        observed(observed_all(registers, clients.drop_last()), clients.last().0, clients.last().1)
    }
}

/// A hash selects one of the 256 registers, and its rank is at least one and
/// at most `HLL_MAX_RHO`.
pub proof fn lemma_index_and_rank_in_range(hash: u64)
    ensures
        0 <= register_index(hash) < HLL_REGISTERS,
        1 <= register_rank(hash) <= HLL_MAX_RHO,
{
    axiom_u64_leading_zeros(hash << 8);
}

/// Observing a client keeps the number of registers, keeps every register
/// at or above its value, keeps every register but the selected one as it
/// was, and keeps bounded registers bounded.
pub proof fn lemma_observed_step(registers: Seq<u8>, client_hash: Seq<u8>, salt: u64)
    requires
        registers.len() == HLL_REGISTERS,
    ensures
        observed(registers, client_hash, salt).len() == HLL_REGISTERS,
        forall|i: int|
            0 <= i < HLL_REGISTERS ==> registers[i] <= #[trigger] observed(
                registers,
                client_hash,
                salt,
            )[i],
        forall|i: int|
            0 <= i < HLL_REGISTERS && i != register_index(salted_hash(client_hash, salt))
                ==> #[trigger] observed(registers, client_hash, salt)[i] == registers[i],
        registers_bounded(registers) ==> registers_bounded(
            observed(registers, client_hash, salt),
        ),
{
    lemma_index_and_rank_in_range(salted_hash(client_hash, salt));
}

/// After any run of observations every register is at most `HLL_MAX_RHO`,
/// provided that held before, and no register is below where it began.
pub proof fn lemma_observed_all_bounded_and_monotone(
    registers: Seq<u8>,
    clients: Seq<(Seq<u8>, u64)>,
)
    requires
        registers.len() == HLL_REGISTERS,
        registers_bounded(registers),
    ensures
        observed_all(registers, clients).len() == HLL_REGISTERS,
        registers_bounded(observed_all(registers, clients)),
        forall|i: int|
            0 <= i < HLL_REGISTERS ==> registers[i] <= #[trigger] observed_all(
                registers,
                clients,
            )[i],
    decreases clients.len(),
{
    if clients.len() > 0 {
        let before = observed_all(registers, clients.drop_last());
        lemma_observed_all_bounded_and_monotone(registers, clients.drop_last());
        lemma_observed_step(before, clients.last().0, clients.last().1);
    }
}

/// Observing the same client under the same salt a second time changes
/// nothing.
pub proof fn lemma_observed_twice(registers: Seq<u8>, client_hash: Seq<u8>, salt: u64)
    requires
        registers.len() == HLL_REGISTERS,
    ensures
        observed(observed(registers, client_hash, salt), client_hash, salt) == observed(
            registers,
            client_hash,
            salt,
        ),
{
    lemma_index_and_rank_in_range(salted_hash(client_hash, salt));
}

/// Two observations give the same registers in either order.
pub proof fn lemma_observed_in_either_order(
    registers: Seq<u8>,
    first_hash: Seq<u8>,
    first_salt: u64,
    second_hash: Seq<u8>,
    second_salt: u64,
)
    requires
        registers.len() == HLL_REGISTERS,
    ensures
        observed(observed(registers, first_hash, first_salt), second_hash, second_salt)
            == observed(observed(registers, second_hash, second_salt), first_hash, first_salt),
{
    lemma_index_and_rank_in_range(salted_hash(first_hash, first_salt));
    lemma_index_and_rank_in_range(salted_hash(second_hash, second_salt));
    assert(observed(observed(registers, first_hash, first_salt), second_hash, second_salt)
        =~= observed(observed(registers, second_hash, second_salt), first_hash, first_salt));
}

/// Hashes a client identity under a salt.
pub fn mix_client_hash(client_hash: &[u8; CLIENT_HASH_BYTES], salt: u64) -> (hash: u64)
    ensures
        hash == salted_hash(client_hash@, salt),
{
    let mut state: u64 = HASH_SEED ^ salt;
    let mut i: usize = 0;
    while i < CLIENT_HASH_BYTES
        invariant
            i <= CLIENT_HASH_BYTES,
            state == absorbed(HASH_SEED ^ salt, client_hash@.take(i as int)),
        decreases CLIENT_HASH_BYTES - i,
    {
        proof {
            assert(client_hash@.take(i + 1).drop_last() =~= client_hash@.take(i as int));
        }
        state = (state ^ (client_hash[i] as u64)).wrapping_mul(HASH_PRIME);
        i += 1;
    }
    proof {
        assert(client_hash@.take(CLIENT_HASH_BYTES as int) =~= client_hash@);
    }
    let a: u64 = (state ^ (state >> 33)).wrapping_mul(SCRAMBLE_A);
    let b: u64 = (a ^ (a >> 33)).wrapping_mul(SCRAMBLE_B);
    b ^ (b >> 33)
}

/// The register that a hash selects.
pub fn hash_register(hash: u64) -> (index: u8)
    ensures
        index == register_index(hash),
{
    assert(hash >> 56 == hash / 0x0100_0000_0000_0000 && hash >> 56 < 256) by (bit_vector);
    (hash >> 56) as u8
}

/// The rank of a hash.
pub fn hash_rank(hash: u64) -> (rank: u8)
    ensures
        rank == register_rank(hash),
        1 <= rank <= HLL_MAX_RHO,
{
    let zeros: u32 = (hash << 8).leading_zeros();
    if zeros + 1 < HLL_MAX_RHO as u32 {
        (zeros + 1) as u8
    } else {
        HLL_MAX_RHO
    }
}

/// The sketch: 128 bytes, each holding two registers. No register ever
/// holds more than `HLL_MAX_RHO`.
pub struct CardinalitySketch {
    bytes: [u8; HLL_BYTES],
}

impl View for CardinalitySketch {
    type V = Seq<u8>;

    /// The 256 registers, by index.
    closed spec fn view(&self) -> Seq<u8> {
        registers_of(self.bytes@)
    }
}

impl CardinalitySketch {
    #[verifier::type_invariant]
    spec fn registers_in_range(&self) -> bool {
        registers_bounded(registers_of(self.bytes@))
    }

    /// A sketch that has observed nothing: every register is zero.
    pub fn new() -> (sketch: Self)
        ensures
            sketch@ == empty_registers(),
    {
        let bytes: [u8; HLL_BYTES] = [0u8; HLL_BYTES];
        assert(registers_of(bytes@) =~= empty_registers());
        CardinalitySketch { bytes }
    }

    /// Takes over packed registers, unless one of them is above
    /// `HLL_MAX_RHO`.
    pub fn from_bytes(bytes: [u8; HLL_BYTES]) -> (sketch: Option<Self>)
        ensures
            sketch is Some <==> registers_bounded(registers_of(bytes@)),
            sketch matches Some(s) ==> s@ == registers_of(bytes@),
    {
        let mut at: usize = 0;
        while at < HLL_BYTES
            invariant
                at <= HLL_BYTES,
                forall|i: int| 0 <= i < 2 * at ==> packed_register(bytes@, i) <= HLL_MAX_RHO,
            decreases HLL_BYTES - at,
        {
            let byte: u8 = bytes[at];
            assert(byte & 0x0F == byte % 16 && byte >> 4 == byte / 16) by (bit_vector);
            if (byte & 0x0F) > HLL_MAX_RHO || (byte >> 4) > HLL_MAX_RHO {
                proof {
                    let low = 2 * at as int;
                    assert(registers_of(bytes@)[low] == packed_register(bytes@, low));
                    assert(registers_of(bytes@)[low + 1] == packed_register(bytes@, low + 1));
                }
                return None;
            }
            assert forall|i: int| 0 <= i < 2 * (at + 1) implies packed_register(bytes@, i)
                <= HLL_MAX_RHO by {
                if i >= 2 * at {
                    assert(i / 2 == at);
                }
            }
            at += 1;
        }
        Some(CardinalitySketch { bytes })
    }

    /// The packed registers.
    pub fn to_bytes(&self) -> (bytes: [u8; HLL_BYTES])
        ensures
            registers_of(bytes@) == self@,
    {
        self.bytes
    }

    /// A sketch has 256 registers.
    pub proof fn lemma_register_count(&self)
        ensures
            self@.len() == HLL_REGISTERS,
    {
    }

    /// The value of one register.
    pub fn register(&self, index: u8) -> (rank: u8)
        ensures
            rank == self@[index as int],
            rank <= HLL_MAX_RHO,
    {
        proof {
            use_type_invariant(self);
        }
        let byte: u8 = self.bytes[(index / 2) as usize];
        assert(byte & 0x0F == byte % 16 && byte >> 4 == byte / 16) by (bit_vector);
        if index % 2 == 0 {
            byte & 0x0F
        } else {
            byte >> 4
        }
    }

    /// Writes one register and leaves its neighbour in the byte alone.
    fn store(&mut self, index: u8, rank: u8)
        requires
            rank <= HLL_MAX_RHO,
        ensures
            final(self)@ == old(self)@.update(index as int, rank),
    {
        proof {
            use_type_invariant(&*self);
        }
        let at: usize = (index / 2) as usize;
        let byte: u8 = self.bytes[at];
        assert(rank <= 15 ==> ((byte & 0xF0) | rank) % 16 == rank && ((byte & 0xF0) | rank) / 16
            == byte / 16) by (bit_vector);
        assert(rank <= 15 ==> ((byte & 0x0F) | (rank << 4)) % 16 == byte % 16 && ((byte & 0x0F) | (
        rank << 4)) / 16 == rank) by (bit_vector);
        let next: u8 = if index % 2 == 0 {
            (byte & 0xF0) | rank
        } else {
            (byte & 0x0F) | (rank << 4)
        };
        proof {
            let after = self.bytes@.update(at as int, next);
            assert(registers_of(after) =~= self@.update(index as int, rank));
        }
        self.bytes[at] = next;
    }
}

/// Observes a client: hashes its identity under the salt and raises the
/// register that the hash selects to the rank of the hash, unless the
/// register is there already. Every other register stays as it was.
pub fn hll_add(sketch: &mut CardinalitySketch, client_hash: &[u8; CLIENT_HASH_BYTES], salt: u64)
    ensures
        final(sketch)@ == observed(old(sketch)@, client_hash@, salt),
        final(sketch)@.len() == HLL_REGISTERS,
        registers_bounded(final(sketch)@),
        forall|i: int| 0 <= i < HLL_REGISTERS ==> old(sketch)@[i] <= #[trigger] final(sketch)@[i],
{
    let hash: u64 = mix_client_hash(client_hash, salt);
    let index: u8 = hash_register(hash);
    let rank: u8 = hash_rank(hash);
    if sketch.register(index) < rank {
        sketch.store(index, rank);
    }
    proof {
        use_type_invariant(&*sketch);
    }
}

/// Observes one client in a fresh sketch and hands back the packed
/// registers: every nibble of every byte is at most `HLL_MAX_RHO`.
pub fn proof_hll_add_keeps_register_nibbles_bounded(
    client_hash: &[u8; CLIENT_HASH_BYTES],
    salt: u64,
) -> (hll: [u8; HLL_BYTES])
    ensures
        registers_of(hll@) == observed(empty_registers(), client_hash@, salt),
        forall|at: int|
            0 <= at < HLL_BYTES ==> (#[trigger] hll@[at]) % 16 <= HLL_MAX_RHO && hll@[at] / 16
                <= HLL_MAX_RHO,
{
    let mut sketch = CardinalitySketch::new();
    hll_add(&mut sketch, client_hash, salt);
    let hll = sketch.to_bytes();
    assert forall|at: int| 0 <= at < HLL_BYTES implies (#[trigger] hll@[at]) % 16 <= HLL_MAX_RHO
        && hll@[at] / 16 <= HLL_MAX_RHO by {
        assert(registers_of(hll@)[2 * at] == packed_register(hll@, 2 * at));
        assert(registers_of(hll@)[2 * at + 1] == packed_register(hll@, 2 * at + 1));
    }
    hll
}

} // verus!

//! Validator identities, the epoch-deterministic address derivation, and the
//! sorted validator ring with successor-based committee lookup.

use vstd::prelude::*;
use vstd::seq_lib::group_to_multiset_ensures;
use vstd::seq_lib::lemma_multiset_commutative;
use crate::u256::{lemma_u256_of_int_roundtrip, pow2_256, u256_of_int, U256};
use crate::render::{dec_digits, u256_decimal};
use rand::RngCore;
use digest::Digest;

verus! {

broadcast use group_to_multiset_ensures;

/// The fatal cases of configuration and ring construction.
#[derive(Clone, Copy, PartialEq, Eq, Structural, Debug)]
pub enum ShardError {
    /// A committee size or rotation period of zero.
    InvalidConfiguration,
    /// Two generated validators landed on the same ring address.
    AddressCollision,
}

/// Checks that a committee size and a rotation period are both strictly
/// positive; every ring is built only after this passes.
pub fn validate_config(committee_size: u64, num_buckets: u64) -> (r: Result<(), ShardError>)
    ensures
        r is Ok <==> (committee_size >= 1 && num_buckets >= 1),
        r is Err ==> r == Result::<(), ShardError>::Err(ShardError::InvalidConfiguration),
{
    if committee_size == 0 || num_buckets == 0 {
        Err(ShardError::InvalidConfiguration)
    } else {
        Ok(())
    }
}

/// What the Blake2b hash with a 32-byte digest returns when fed the 32
/// little-endian bytes of `key` followed by the 32 little-endian bytes of
/// `counter`: a function of the two values alone.
pub uninterp spec fn blake2b256_pair_of(key: U256, counter: U256) -> U256;

/// Relies on blake2's `Blake2b<U32>` through `digest::Digest`: the 32-byte
/// digest depends on the fed bytes alone, here the little-endian encodings of
/// the two arguments.
#[verifier::external_body]
fn blake2b256_hash_pair(key: &U256, counter: &U256) -> (r: U256)
    ensures
        r == blake2b256_pair_of(*key, *counter),
{
    let mut data: Vec<u8> = Vec::with_capacity(64);
    for w in [key.w0, key.w1, key.w2, key.w3, counter.w0, counter.w1, counter.w2, counter.w3] {
        data.extend_from_slice(&w.to_le_bytes());
    }
    let digest = blake2::Blake2b::<digest::consts::U32>::new().chain_update(&data).finalize();
    let b = digest.as_slice();
    let limb = |i: usize| u64::from_le_bytes(b[8 * i..8 * i + 8].try_into().unwrap());
    U256 { w0: limb(0), w1: limb(1), w2: limb(2), w3: limb(3) }
}

/// Relies on rand's `thread_rng` and `RngCore::next_u64` for four uniformly
/// random limbs; nothing is promised of their values.
#[verifier::external_body]
fn random_u256() -> (r: U256) {
    let mut rng = rand::thread_rng();
    U256 { w0: rng.next_u64(), w1: rng.next_u64(), w2: rng.next_u64(), w3: rng.next_u64() }
}

/// A point on the 256-bit ring: a shard's fixed query address, a validator's
/// permanent key, or a validator's current ring position.
#[derive(Clone, Copy, PartialEq, Eq, Structural, Debug)]
pub struct ShardAddress {
    pub value: U256,
}

impl ShardAddress {
    /// A uniformly random address; used only for initial keys and for shard
    /// query points, never for ring repositioning.
    pub fn random() -> (r: ShardAddress) {
        ShardAddress { value: random_u256() }
    }

    /// The numeric ring position.
    pub fn value(&self) -> (r: U256)
        ensures
            r == self.value,
    {
        self.value
    }

    /// The address value rendered in base 10, most significant digit first.
    /// For the 64-digit hex form see `render::u256_hex`.
    pub fn as_hex(&self) -> (r: String)
        ensures
            r@ == dec_digits(self.value.as_int()),
    {
        u256_decimal(&self.value)
    }
}

/// The rotation-window counter: the value `key + epoch`, wrapping in the
/// 256-bit space, divided by the rotation period.
pub open spec fn bucket_counter_int(key: U256, epoch: u64, num_buckets: u64) -> int
    recommends
        num_buckets >= 1,
{
    ((key.as_int() + epoch) % pow2_256()) / (num_buckets as int)
}

/// The ring address a key occupies at an epoch: the hash of the key and its
/// rotation-window counter. For a fixed key it is constant across the
/// `num_buckets` epochs of one window and jumps at window boundaries.
pub open spec fn derived_address(key: U256, epoch: u64, num_buckets: u64) -> U256
    recommends
        num_buckets >= 1,
{
    blake2b256_pair_of(key, u256_of_int(bucket_counter_int(key, epoch, num_buckets)))
}

/// The derivation is a pure function: equal key, epoch and rotation period
/// always give the equal address.
pub proof fn lemma_derivation_deterministic(
    k1: U256,
    k2: U256,
    e1: u64,
    e2: u64,
    n1: u64,
    n2: u64,
)
    requires
        k1 == k2,
        e1 == e2,
        n1 == n2,
    ensures
        derived_address(k1, e1, n1) == derived_address(k2, e2, n2),
{
}

/// Within one rotation window the derived address does not move: two epochs
/// with the same rotation-window counter give the same address.
pub proof fn lemma_address_sticky_in_window(key: U256, e1: u64, e2: u64, num_buckets: u64)
    requires
        num_buckets >= 1,
        bucket_counter_int(key, e1, num_buckets) == bucket_counter_int(key, e2, num_buckets),
    ensures
        derived_address(key, e1, num_buckets) == derived_address(key, e2, num_buckets),
{
}

/// With a rotation period of one, the rotation-window counter moves at every
/// epoch: every node is repositioned by a fresh hash input each step.
pub proof fn lemma_counter_moves_every_epoch(key: U256, e1: u64, e2: u64)
    requires
        e1 < e2,
        key.as_int() + e2 < pow2_256(),
    ensures
        bucket_counter_int(key, e1, 1) != bucket_counter_int(key, e2, 1),
{
    lemma_u256_of_int_roundtrip(key);
    vstd::arithmetic::div_mod::lemma_small_mod((key.as_int() + e1) as nat, pow2_256() as nat);
    vstd::arithmetic::div_mod::lemma_small_mod((key.as_int() + e2) as nat, pow2_256() as nat);
    vstd::arithmetic::div_mod::lemma_div_basics(key.as_int() + e1);
    vstd::arithmetic::div_mod::lemma_div_basics(key.as_int() + e2);
}

/// The window boundary: as long as `key + epoch` does not wrap, the counter
/// at an epoch equals the counter at epoch 0 exactly when the epoch offset
/// stays inside the key's first rotation window.
pub proof fn lemma_rotation_window_boundary(key: U256, e: u64, num_buckets: u64)
    requires
        num_buckets >= 1,
        key.as_int() + e < pow2_256(),
    ensures
        bucket_counter_int(key, e, num_buckets) == bucket_counter_int(key, 0, num_buckets)
            <==> key.as_int() % (num_buckets as int) + e < num_buckets,
{
    let n = key.as_int();
    let nb = num_buckets as int;
    lemma_u256_of_int_roundtrip(key);
    vstd::arithmetic::div_mod::lemma_small_mod(n as nat, pow2_256() as nat);
    vstd::arithmetic::div_mod::lemma_small_mod((n + e) as nat, pow2_256() as nat);
    vstd::arithmetic::div_mod::lemma_fundamental_div_mod(n, nb);
    let q = n / nb;
    let r = n % nb;
    if r + e < nb {
        vstd::arithmetic::div_mod::lemma_fundamental_div_mod_converse(n + e, nb, q, r + e);
    } else {
        assert((q + 1) * nb + (r + e - nb) == n + e) by (nonlinear_arith)
            requires
                n == q * nb + r,
        ;
        vstd::arithmetic::div_mod::lemma_fundamental_div_mod(n + e, nb);
        let q2 = (n + e) / nb;
        if q2 <= q {
            assert(q2 * nb <= q * nb) by (nonlinear_arith)
                requires
                    q2 <= q,
                    nb >= 1,
            ;
            assert((n + e) % nb < nb);
            assert(n + e == q2 * nb + (n + e) % nb);
            assert(n + e <= q * nb + nb - 1);
        }
    }
}

/// A validator: a permanent key and the ring address derived from it for the
/// current epoch. Identity is always the key, never the address.
#[derive(Clone, Copy, PartialEq, Eq, Structural, Debug)]
pub struct VnAddress {
    pub vn_key: ShardAddress,
    pub address: ShardAddress,
}

/// Whether some member of the committee has the given key.
pub open spec fn committee_has_key(c: Seq<VnAddress>, key: ShardAddress) -> bool {
    exists|i: int| 0 <= i < c.len() && c[i].vn_key == key
}

impl VnAddress {
    /// A fresh validator with a random key, placed at its epoch-0 address;
    /// the epoch argument plays no part in the placement.
    #[allow(unused_variables)]
    pub fn new(epoch: u64, num_buckets: u64) -> (r: VnAddress)
        requires
            num_buckets >= 1,
        ensures
            r.address.value == derived_address(r.vn_key.value, 0, num_buckets),
    {
        let vn_key = ShardAddress::random();
        let address = Self::address_at_epoch(&vn_key, 0, num_buckets);
        VnAddress { vn_key, address }
    }

    /// The current ring position.
    pub fn address(&self) -> (r: &ShardAddress)
        ensures
            r == self.address,
    {
        &self.address
    }

    /// The permanent key.
    pub fn key(&self) -> (r: &ShardAddress)
        ensures
            r == self.vn_key,
    {
        &self.vn_key
    }

    /// Whether this validator's key appears in the committee.
    pub fn is_in_committee(&self, committee: &[VnAddress]) -> (r: bool)
        ensures
            r == committee_has_key(committee@, self.vn_key),
    {
        let mut i: usize = 0;
        while i < committee.len()
            invariant
                i <= committee@.len(),
                forall|j: int| 0 <= j < i ==> committee@[j].vn_key != self.vn_key,
            decreases committee@.len() - i,
        {
            if committee[i].vn_key == self.vn_key {
                return true;
            }
            i += 1;
        }
        false
    }

    /// The ring address a key occupies at an epoch: the key together with its
    /// rotation-window counter is hashed, and the digest read as an address.
    pub fn address_at_epoch(vn_key: &ShardAddress, epoch: u64, num_buckets: u64) -> (r:
        ShardAddress)
        requires
            num_buckets >= 1,
        ensures
            r.value == derived_address(vn_key.value, epoch, num_buckets),
    {
        let counter = vn_key.value.wrapping_add_u64(epoch).div_u64(num_buckets);
        proof {
            lemma_u256_of_int_roundtrip(counter);
        }
        let value = blake2b256_hash_pair(&vn_key.value, &counter);
        ShardAddress { value }
    }
}

/// Addresses never decrease along the sequence.
pub open spec fn sorted_by_address(s: Seq<VnAddress>) -> bool {
    forall|i: int, j: int|
        0 <= i <= j < s.len() ==> #[trigger] s[i].address.value.as_int() <= #[trigger] s[j].address.value.as_int()
}

/// Addresses strictly increase along the sequence.
pub open spec fn strictly_sorted_by_address(s: Seq<VnAddress>) -> bool {
    forall|i: int, j: int|
        0 <= i < j < s.len() ==> #[trigger] s[i].address.value.as_int() < #[trigger] s[j].address.value.as_int()
}

/// No two members share a key.
pub open spec fn distinct_keys(s: Seq<VnAddress>) -> bool {
    forall|i: int, j: int|
        0 <= i < s.len() && 0 <= j < s.len() && i != j ==> #[trigger] s[i].vn_key
            != #[trigger] s[j].vn_key
}

/// The key of a member; for stating which validators a ring holds.
pub open spec fn key_of(v: VnAddress) -> ShardAddress {
    v.vn_key
}

/// The first position whose address is at least the target, or the length if
/// every address is below it.
pub open spec fn is_successor_pos(s: Seq<VnAddress>, t: U256, i: int) -> bool {
    &&& 0 <= i <= s.len()
    &&& forall|j: int| 0 <= j < i ==> #[trigger] s[j].address.value.as_int() < t.as_int()
    &&& forall|j: int| i <= j < s.len() ==> #[trigger] s[j].address.value.as_int() >= t.as_int()
}

/// The successor position of a target in a sorted sequence.
pub open spec fn successor_pos(s: Seq<VnAddress>, t: U256) -> int {
    choose|i: int| is_successor_pos(s, t, i)
}

/// The successor position is unique, so any witness is the chosen one.
pub proof fn lemma_successor_pos_unique(s: Seq<VnAddress>, t: U256, i: int)
    requires
        is_successor_pos(s, t, i),
    ensures
        successor_pos(s, t) == i,
{
    let c = successor_pos(s, t);
    assert(is_successor_pos(s, t, c));
    if c < i {
        assert(s[c].address.value.as_int() >= t.as_int());
        assert(s[c].address.value.as_int() < t.as_int());
    }
    if i < c {
        assert(s[i].address.value.as_int() >= t.as_int());
        assert(s[i].address.value.as_int() < t.as_int());
    }
}

/// How many members a committee has: the committee size, capped by the
/// population.
pub open spec fn committee_len(cs: u64, population: int) -> int {
    if cs as int <= population {
        cs as int
    } else {
        population
    }
}

/// The ring index of the committee member `k` places after `start`, wrapping
/// past the end of the ring.
pub open spec fn wrap_index(start: int, k: int, len: int) -> int {
    if start + k < len {
        start + k
    } else {
        start + k - len
    }
}

/// The committee of a shard: `committee_len` members read from the sorted
/// ring, starting at the shard's successor and wrapping to the front.
pub open spec fn committee_of(s: Seq<VnAddress>, cs: u64, t: U256) -> Seq<VnAddress> {
    if s.len() == 0 {
        Seq::empty()
    } else {
        let sp = successor_pos(s, t);
        let start: int = if sp == s.len() {
            0
        } else {
            sp
        };
        Seq::new(
            committee_len(cs, s.len() as int) as nat,
            |k: int| s[wrap_index(start, k, s.len() as int)],
        )
    }
}

/// Binary search for the successor position: the first index whose address is
/// at least the target.
fn successor_index(vns: &Vec<VnAddress>, target: &U256) -> (r: usize)
    requires
        sorted_by_address(vns@),
    ensures
        is_successor_pos(vns@, *target, r as int),
        r == successor_pos(vns@, *target),
{
    let mut lo: usize = 0;
    let mut hi: usize = vns.len();
    while lo < hi
        invariant
            lo <= hi <= vns@.len(),
            sorted_by_address(vns@),
            forall|j: int| 0 <= j < lo ==> #[trigger] vns@[j].address.value.as_int() < target.as_int(),
            forall|j: int|
                hi <= j < vns@.len() ==> #[trigger] vns@[j].address.value.as_int()
                    >= target.as_int(),
        decreases hi - lo,
    {
        let mid = lo + (hi - lo) / 2;
        if vns[mid].address.value.lt(target) {
            lo = mid + 1;
        } else {
            hi = mid;
        }
    }
    proof {
        lemma_successor_pos_unique(vns@, *target, lo as int);
    }
    lo
}

/// Inserting preserves the multiset of a sequence's images under `key_of`.
proof fn lemma_to_multiset_insert(s: Seq<VnAddress>, pos: int, v: VnAddress)
    requires
        0 <= pos <= s.len(),
    ensures
        s.insert(pos, v).map_values(|x: VnAddress| key_of(x)).to_multiset() == s.map_values(
            |x: VnAddress| key_of(x),
        ).to_multiset().insert(key_of(v)),
{
    let f = |x: VnAddress| key_of(x);
    let m = s.map_values(f);
    assert(s.insert(pos, v).map_values(f) =~= m.insert(pos, f(v)));
    let a = m.subrange(0, pos);
    let b = m.subrange(pos, m.len() as int);
    assert(m.insert(pos, f(v)) == a.push(f(v)) + b);
    lemma_multiset_commutative(a.push(f(v)), b);
    lemma_multiset_commutative(a, b);
    assert(a + b =~= m);
    assert(a.push(f(v)).to_multiset() =~= a.to_multiset().insert(f(v)));
    assert(a.to_multiset().insert(f(v)).add(b.to_multiset()) =~= a.to_multiset().add(
        b.to_multiset(),
    ).insert(f(v)));
}

/// The full, sorted population of validators, advanced epoch by epoch.
pub struct ValidatorNodes {
    pub committee_size: u64,
    pub vns: Vec<VnAddress>,
    pub epoch: u64,
    pub num_buckets: u64,
}

impl ValidatorNodes {
    /// The ring's invariant: a positive rotation period, members sorted by
    /// address, pairwise-distinct keys, and every address derived from its
    /// key at the current epoch.
    pub open spec fn wf(self) -> bool {
        &&& self.num_buckets >= 1
        &&& sorted_by_address(self.vns@)
        &&& distinct_keys(self.vns@)
        &&& forall|i: int|
            0 <= i < self.vns@.len() ==> #[trigger] self.vns@[i].address.value == derived_address(
                self.vns@[i].vn_key.value,
                self.epoch,
                self.num_buckets,
            )
    }

    /// Builds a ring of freshly drawn random validators at epoch 0. Fails
    /// only when two derived addresses collide, which takes at least two
    /// validators.
    pub fn new(committee_size: u64, num_vns: u64, num_buckets: u64) -> (r: Result<
        ValidatorNodes,
        ShardError,
    >)
        requires
            committee_size >= 1,
            num_buckets >= 1,
        ensures
            match r {
                Ok(ring) => ring.wf() && ring.epoch == 0 && ring.committee_size == committee_size
                    && ring.num_buckets == num_buckets && ring.vns@.len() == num_vns,
                Err(e) => e == ShardError::AddressCollision,
            },
            num_vns <= 1 ==> r is Ok,
    {
        let mut keys: Vec<ShardAddress> = Vec::new();
        let mut n: u64 = 0;
        while n < num_vns
            invariant
                n <= num_vns,
                keys@.len() == n,
            decreases num_vns - n,
        {
            keys.push(ShardAddress::random());
            n += 1;
        }
        Self::ring_from_keys(committee_size, &keys, num_buckets)
    }

    /// Builds the epoch-0 ring of the given keys, inserting each at its
    /// derived address. Returns the collision error exactly when two keys
    /// derive the same address; otherwise the ring holds exactly the given
    /// keys, strictly sorted by address.
    pub fn ring_from_keys(committee_size: u64, keys: &Vec<ShardAddress>, num_buckets: u64) -> (r:
        Result<ValidatorNodes, ShardError>)
        requires
            committee_size >= 1,
            num_buckets >= 1,
        ensures
            match r {
                Ok(ring) => {
                    &&& ring.wf()
                    &&& ring.epoch == 0
                    &&& ring.committee_size == committee_size
                    &&& ring.num_buckets == num_buckets
                    &&& ring.vns@.len() == keys@.len()
                    &&& strictly_sorted_by_address(ring.vns@)
                    &&& ring.vns@.map_values(|x: VnAddress| key_of(x)).to_multiset()
                        == keys@.to_multiset()
                    &&& forall|i: int, j: int|
                        0 <= i < j < keys@.len() ==> derived_address(
                            keys@[i].value,
                            0,
                            num_buckets,
                        ) != derived_address(keys@[j].value, 0, num_buckets)
                },
                Err(e) => {
                    &&& e == ShardError::AddressCollision
                    &&& exists|i: int, j: int|
                        0 <= i < j < keys@.len() && derived_address(keys@[i].value, 0, num_buckets)
                            == derived_address(keys@[j].value, 0, num_buckets)
                },
            },
    {
        let mut vns: Vec<VnAddress> = Vec::new();
        let mut k: usize = 0;
        while k < keys.len()
            invariant
                num_buckets >= 1,
                k <= keys@.len(),
                vns@.len() == k,
                strictly_sorted_by_address(vns@),
                forall|m: int|
                    0 <= m < k ==> #[trigger] vns@[m].address.value == derived_address(
                        vns@[m].vn_key.value,
                        0,
                        num_buckets,
                    ),
                vns@.map_values(|x: VnAddress| key_of(x)).to_multiset() == keys@.take(
                    k as int,
                ).to_multiset(),
                forall|i: int, j: int|
                    0 <= i < j < k ==> derived_address(keys@[i].value, 0, num_buckets)
                        != derived_address(keys@[j].value, 0, num_buckets),
            decreases keys@.len() - k,
        {
            let key = keys[k];
            let address = VnAddress::address_at_epoch(&key, 0, num_buckets);
            let vn = VnAddress { vn_key: key, address };
            let pos = successor_index(&vns, &vn.address.value);
            if pos < vns.len() && vns[pos].address == vn.address {
                proof {
                    let f = |x: VnAddress| key_of(x);
                    let hit = vns@[pos as int];
                    assert(vns@.map_values(f)[pos as int] == hit.vn_key);
                    assert(vns@.map_values(f).to_multiset().count(hit.vn_key) > 0);
                    assert(keys@.take(k as int).contains(hit.vn_key));
                    let j = choose|j: int|
                        0 <= j < k && keys@.take(k as int)[j] == hit.vn_key;
                    assert(keys@[j] == hit.vn_key);
                    assert(derived_address(keys@[j].value, 0, num_buckets) == derived_address(
                        keys@[k as int].value,
                        0,
                        num_buckets,
                    ));
                }
                return Err(ShardError::AddressCollision);
            }
            proof {
                let t = vn.address.value;
                assert(is_successor_pos(vns@, t, pos as int));
                if pos < vns@.len() {
                    assert(vns@[pos as int].address.value.as_int() >= t.as_int());
                    lemma_u256_of_int_roundtrip(vns@[pos as int].address.value);
                    lemma_u256_of_int_roundtrip(t);
                    assert(vns@[pos as int].address.value.as_int() != t.as_int());
                }
                lemma_to_multiset_insert(vns@, pos as int, vn);
                assert(keys@.take(k as int + 1) =~= keys@.take(k as int).push(keys@[k as int]));
                // the new address differs from every current member's address
                assert forall|m: int| 0 <= m < vns@.len() implies #[trigger] vns@[m].address.value.as_int()
                    != t.as_int() by {
                    if m < pos {
                        assert(vns@[m].address.value.as_int() < t.as_int());
                    } else {
                        assert(vns@[m].address.value.as_int() >= t.as_int());
                        if vns@[m].address.value.as_int() == t.as_int() {
                            assert(m > pos || m == pos);
                            if m > pos {
                                assert(vns@[pos as int].address.value.as_int() < vns@[m].address.value.as_int());
                                assert(vns@[pos as int].address.value.as_int() >= t.as_int());
                            }
                        }
                    }
                }
                // so the new key's derived address differs from every earlier key's
                assert forall|i: int| 0 <= i < k implies derived_address(
                    keys@[i].value,
                    0,
                    num_buckets,
                ) != derived_address(keys@[k as int].value, 0, num_buckets) by {
                    let f = |x: VnAddress| key_of(x);
                    assert(keys@.take(k as int)[i] == keys@[i]);
                    assert(keys@.take(k as int).to_multiset().count(keys@[i]) > 0);
                    assert(vns@.map_values(f).to_multiset().count(keys@[i]) > 0);
                    assert(vns@.map_values(f).contains(keys@[i]));
                    let m = choose|m: int|
                        0 <= m < vns@.len() && vns@.map_values(f)[m] == keys@[i];
                    assert(vns@[m].vn_key == keys@[i]);
                    assert(vns@[m].address.value == derived_address(keys@[i].value, 0, num_buckets));
                }
            }
            vns.insert(pos, vn);
            k += 1;
        }
        proof {
            assert(keys@.take(k as int) =~= keys@);
            // distinct addresses give distinct keys
            assert forall|i: int, j: int|
                0 <= i < vns@.len() && 0 <= j < vns@.len() && i != j implies #[trigger] vns@[i].vn_key
                != #[trigger] vns@[j].vn_key by {
                if vns@[i].vn_key == vns@[j].vn_key {
                    assert(vns@[i].address.value == vns@[j].address.value);
                    if i < j {
                        assert(vns@[i].address.value.as_int() < vns@[j].address.value.as_int());
                    } else {
                        assert(vns@[j].address.value.as_int() < vns@[i].address.value.as_int());
                    }
                }
            }
        }
        Ok(ValidatorNodes { committee_size, vns, epoch: 0, num_buckets })
    }

    /// The committee for a shard: the `committee_size` members from the
    /// shard's successor on, wrapping to the front, capped by the population;
    /// members have pairwise-distinct keys, and a member sitting exactly on
    /// the shard address comes first.
    pub fn committee_for(&self, shard: &ShardAddress) -> (r: Vec<VnAddress>)
        requires
            self.wf(),
        ensures
            r@ == committee_of(self.vns@, self.committee_size, shard.value),
            r@.len() == committee_len(self.committee_size, self.vns@.len() as int),
            distinct_keys(r@),
            (r@.len() > 0 && exists|j: int|
                0 <= j < self.vns@.len() && #[trigger] self.vns@[j].address.value == shard.value)
                ==> r@[0].address.value == shard.value,
    {
        let len = self.vns.len();
        if len == 0 {
            let r: Vec<VnAddress> = Vec::new();
            return r;
        }
        let sp = successor_index(&self.vns, &shard.value);
        let start: usize = if sp == len {
            0
        } else {
            sp
        };
        let n: usize = if self.committee_size <= len as u64 {
            self.committee_size as usize
        } else {
            len
        };
        let mut out: Vec<VnAddress> = Vec::new();
        let mut k: usize = 0;
        while k < n
            invariant
                0 < len == self.vns@.len(),
                start < len,
                k <= n,
                n == committee_len(self.committee_size, len as int),
                out@.len() == k,
                forall|m: int|
                    0 <= m < k ==> out@[m] == self.vns@[wrap_index(start as int, m, len as int)],
            decreases n - k,
        {
            let idx = if k < len - start {
                start + k
            } else {
                k - (len - start)
            };
            assert(idx as int == wrap_index(start as int, k as int, len as int));
            out.push(self.vns[idx]);
            k += 1;
        }
        proof {
            assert(out@ =~= committee_of(self.vns@, self.committee_size, shard.value));
            // distinct wrapped indices give distinct keys
            assert forall|i: int, j: int|
                0 <= i < out@.len() && 0 <= j < out@.len() && i != j implies #[trigger] out@[i].vn_key
                != #[trigger] out@[j].vn_key by {
                let wi = wrap_index(start as int, i, len as int);
                let wj = wrap_index(start as int, j, len as int);
                assert(wi != wj);
                assert(out@[i].vn_key == self.vns@[wi].vn_key);
                assert(out@[j].vn_key == self.vns@[wj].vn_key);
            }
            // an exact address match is the first member
            if out@.len() > 0 && exists|j: int|
                0 <= j < self.vns@.len() && #[trigger] self.vns@[j].address.value == shard.value {
                let j = choose|j: int|
                    0 <= j < self.vns@.len() && #[trigger] self.vns@[j].address.value
                        == shard.value;
                assert(self.vns@[j].address.value.as_int() >= shard.value.as_int());
                assert(sp as int <= j);
                assert(self.vns@[sp as int].address.value.as_int() <= self.vns@[j].address.value.as_int());
                assert(self.vns@[sp as int].address.value.as_int() == shard.value.as_int());
                lemma_u256_of_int_roundtrip(self.vns@[sp as int].address.value);
                lemma_u256_of_int_roundtrip(shard.value);
                assert(out@[0] == self.vns@[sp as int]);
            }
        }
        out
    }

    /// Advances the ring one epoch: every member's address is re-derived at
    /// the new epoch and the ring is re-sorted. The population and its keys
    /// are unchanged.
    pub fn next_epoch(&mut self)
        requires
            old(self).wf(),
            old(self).epoch < u64::MAX,
        ensures
            final(self).wf(),
            final(self).epoch == old(self).epoch + 1,
            final(self).committee_size == old(self).committee_size,
            final(self).num_buckets == old(self).num_buckets,
            final(self).vns@.len() == old(self).vns@.len(),
            sorted_by_address(final(self).vns@),
            final(self).vns@.map_values(|x: VnAddress| key_of(x)).to_multiset() == old(
                self,
            ).vns@.map_values(|x: VnAddress| key_of(x)).to_multiset(),
    {
        let ghost old_vns = self.vns@;
        let new_epoch = self.epoch + 1;
        let mut out: Vec<VnAddress> = Vec::new();
        let mut i: usize = 0;
        while i < self.vns.len()
            invariant
                self.num_buckets >= 1,
                new_epoch == self.epoch + 1,
                self.vns@ == old_vns,
                i <= old_vns.len(),
                out@.len() == i,
                sorted_by_address(out@),
                forall|m: int|
                    0 <= m < i ==> #[trigger] out@[m].address.value == derived_address(
                        out@[m].vn_key.value,
                        new_epoch,
                        self.num_buckets,
                    ),
                out@.map_values(|x: VnAddress| key_of(x)).to_multiset() == old_vns.take(
                    i as int,
                ).map_values(|x: VnAddress| key_of(x)).to_multiset(),
            decreases old_vns.len() - i,
        {
            let v = self.vns[i];
            let address = VnAddress::address_at_epoch(&v.vn_key, new_epoch, self.num_buckets);
            let vn = VnAddress { vn_key: v.vn_key, address };
            let pos = successor_index(&out, &vn.address.value);
            proof {
                lemma_to_multiset_insert(out@, pos as int, vn);
                let f = |x: VnAddress| key_of(x);
                assert(old_vns.take(i as int + 1) =~= old_vns.take(i as int).push(
                    old_vns[i as int],
                ));
                assert(old_vns.take(i as int + 1).map_values(f) =~= old_vns.take(
                    i as int,
                ).map_values(f).push(f(old_vns[i as int])));
            }
            out.insert(pos, vn);
            i += 1;
        }
        proof {
            assert(old_vns.take(old_vns.len() as int) =~= old_vns);
        }
        self.epoch = new_epoch;
        self.vns = out;
        proof {
            let f = |x: VnAddress| key_of(x);
            let old_keys = old_vns.map_values(f);
            let new_keys = self.vns@.map_values(f);
            assert(old_keys.no_duplicates());
            old_keys.lemma_multiset_has_no_duplicates();
            assert(forall|x: ShardAddress|
                new_keys.to_multiset().contains(x) ==> new_keys.to_multiset().count(x) == 1);
            new_keys.lemma_multiset_has_no_duplicates_conv();
            assert forall|i: int, j: int|
                0 <= i < self.vns@.len() && 0 <= j < self.vns@.len() && i != j implies #[trigger] self.vns@[i].vn_key != #[trigger] self.vns@[j].vn_key by {
                assert(new_keys[i] == f(self.vns@[i]));
                assert(new_keys[j] == f(self.vns@[j]));
            }
            assert(distinct_keys(self.vns@));
        }
    }

    /// The number of validators on the ring.
    pub fn node_population(&self) -> (r: u64)
        requires
            self.vns@.len() <= u64::MAX,
        ensures
            r == self.vns@.len(),
    {
        self.vns.len() as u64
    }
}

} // verus!

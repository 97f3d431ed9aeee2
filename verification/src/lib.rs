//! ULID generation: 128-bit identifiers that combine a 48-bit millisecond
//! timestamp with 80 bits of generator-supplied randomness, sortable both as
//! raw values and in their 26-character Crockford base32 text form.

use vstd::prelude::*;

pub mod base32;
pub mod clock;
pub mod ctx;
pub mod laws;
pub mod rng;

verus! {

/// Number of bytes for the binary representation of a ULID.
pub const ULID_BINARY_LEN: usize = 16;

/// Number of bytes for the ASCII text representation of a ULID.
pub const ULID_LEN: usize = 26;

/// The ways an operation of this crate can fail.
#[derive(Clone, Copy, Debug, PartialEq, Eq, Structural)]
pub enum UlidError {
    /// The system clock reported a time before the UNIX epoch.
    ClockError,
    /// A destination buffer for text output is smaller than 27 bytes.
    BufferTooSmall,
    /// A text input has the wrong length or holds a byte outside the alphabet.
    InvalidEncoding,
}

/// The low 48 bits of a millisecond count: the identifier's time field.
pub open spec fn time_bits_of(millis: u128) -> u128 {
    (millis % 0x1000000000000) as u128
}

/// A 128-bit identifier laid out as time field above random field.
pub open spec fn compose(t: u128, r: u128) -> u128
    recommends
        t < 0x1000000000000,
        r < 0x100000000000000000000,
{
    (t * 0x100000000000000000000 + r) as u128
}

/// The 80-bit random field drawn from a generator state: the low 16 bits
/// of the first emitted word above all 64 bits of the second.
pub open spec fn rand80(s: (u64, u64)) -> u128 {
    (((rng::xoro_sum(s) as nat) % 0x10000) * 0x10000000000000000
        + rng::xoro_sum(rng::xoro_step(s)) as nat) as u128
}

/// Whether `idv` composes some 48-bit time field with exactly the random
/// field drawn from generator state `s`.
pub open spec fn minted_from(idv: u128, s: (u64, u64)) -> bool {
    exists|t: u128| t < 0x1000000000000 && idv == compose(t, rand80(s))
}

/// Whether the characters of `s` spell the text encoding of `v`.
pub open spec fn is_text_of(s: Seq<char>, v: u128) -> bool {
    s.len() == 26 && forall|i: int| 0 <= i < 26 ==> s[i] as u32 == base32::encoding(v)[i] as u32
}

/// 256 raised to the power `k`.
pub open spec fn pow256(k: nat) -> nat
    decreases k,
{
    if k == 0 { 1 } else { 256 * pow256((k - 1) as nat) }
}

/// The `i`-th byte of the 16-byte big-endian form of `v`.
pub open spec fn be_byte(v: u128, i: int) -> u8 {
    (((v as nat) / pow256((15 - i) as nat)) % 256) as u8
}

/// The 16-byte big-endian form of `v`.
pub open spec fn be_bytes_of(v: u128) -> Seq<u8> {
    Seq::new(16, |i: int| be_byte(v, i))
}

/// Masking a 128-bit value with 48 set bits takes it modulo `2^48`.
proof fn lemma_mask48_is_mod(x: u128)
    by (bit_vector)
    ensures
        x & 0xFFFF_FFFF_FFFF == x % 0x1000000000000,
{
}

/// Masking a 128-bit value with 64 set bits takes it modulo `2^64`.
proof fn lemma_mask64_is_mod(x: u128)
    by (bit_vector)
    ensures
        x & 0xFFFF_FFFF_FFFF_FFFF == x % 0x10000000000000000,
{
}

/// Two 64-bit words packed and masked to 80 bits split into the first
/// word's low 16 bits above the whole second word.
proof fn lemma_pack80(a: u64, b: u64)
    by (bit_vector)
    ensures
        (((a as u128) << 64) | (b as u128)) & 0xFFFF_FFFF_FFFF_FFFF_FFFF == ((a as u128)
            % 0x10000) * 0x10000000000000000 + (b as u128),
{
}

/// A 48-bit time field shifted above an 80-bit random field equals their
/// positional sum.
proof fn lemma_pack_time(t: u128, r: u128)
    by (bit_vector)
    requires
        t < 0x1000000000000,
        r < 0x100000000000000000000,
    ensures
        ((t << 80) | r) == t * 0x100000000000000000000 + r,
{
}

/// An immutable 128-bit identifier: the high 48 bits hold a millisecond
/// timestamp, the low 80 bits hold randomness.
#[derive(Clone, Copy, Debug, PartialEq, Eq, Ord, Structural, Hash)]
pub struct Ulid {
    bits: u128,
}

impl View for Ulid {
    type V = u128;

    closed spec fn view(&self) -> u128 {
        self.bits
    }
}

impl Ulid {
    /// Mints one identifier from a generator seeded by the current time.
    pub fn new() -> (r: Result<Self, UlidError>)
        ensures
            r matches Ok(id) ==> exists|seed: u64|
                minted_from(id@, rng::seeded_state(seed)),
            r matches Err(e) ==> e == UlidError::ClockError,
    {
        match UlidGenerator::new() {
            Ok(mut g) => {
                match g.ulid() {
                    Ok(id) => Ok(id),
                    Err(e) => Err(e),
                }
            },
            Err(e) => Err(e),
        }
    }

    /// The distinguished all-zero identifier; it compares less than every
    /// other identifier.
    pub fn new_nil() -> (r: Self)
        ensures
            r@ == 0u128,
    {
        Ulid { bits: 0 }
    }

    /// The raw 128-bit value.
    pub fn bits(&self) -> (r: u128)
        ensures
            r == self@,
    {
        self.bits
    }

    /// The identifier built from a raw 128-bit value.
    pub fn from_bits(bits: u128) -> (r: Self)
        ensures
            r@ == bits,
    {
        Ulid { bits }
    }

    /// The 16-byte big-endian binary form.
    pub fn to_bytes(&self) -> (r: Vec<u8>)
        ensures
            r@.len() == 16,
            forall|i: int| 0 <= i < 16 ==> r@[i] == be_byte(self@, i),
    {
        bits_to_be_bytes(self.bits)
    }

    /// The 26-character text form over the Crockford base32 alphabet.
    pub fn to_string(&self) -> (r: String)
        ensures
            is_text_of(r@, self@),
    {
        let mut buf: Vec<u8> = vec![0u8; 26];
        base32::encode(self.bits, &mut buf);
        proof {
            assert forall|i: int| 0 <= i < 26 implies buf@[i] < 0x80 by {
                crate::laws::lemma_symbols_stay_in_alphabet(self.bits, i);
            }
        }
        ascii_to_string(buf)
    }
}

/// The hexadecimal digit symbol for a value below 16, as an ASCII byte.
pub open spec fn hex_sym(d: u8, upper: bool) -> u8 {
    if d < 10 {
        (48 + d) as u8
    } else if upper {
        (55 + d) as u8
    } else {
        (87 + d) as u8
    }
}

/// The minimal-width hexadecimal text of `v`, most significant digit
/// first: no leading zeros, and a single `0` for zero itself.
pub open spec fn hex_seq(v: u128, upper: bool) -> Seq<u8>
    decreases v,
{
    if v < 16 {
        seq![hex_sym(v as u8, upper)]
    } else {
        hex_seq(v / 16, upper).push(hex_sym((v % 16) as u8, upper))
    }
}

/// Every byte of a hexadecimal text is ASCII, and the text is never empty.
proof fn lemma_hex_seq_ascii(v: u128, upper: bool)
    ensures
        hex_seq(v, upper).len() >= 1,
        forall|i: int| 0 <= i < hex_seq(v, upper).len() ==> hex_seq(v, upper)[i] < 0x80,
    decreases v,
{
    if v >= 16 {
        lemma_hex_seq_ascii(v / 16, upper);
    }
}

/// Appends the hexadecimal text of `v` to `out`.
fn push_hex(v: u128, upper: bool, out: &mut Vec<u8>)
    ensures
        final(out)@ == old(out)@ + hex_seq(v, upper),
    decreases v,
{
    if v >= 16 {
        push_hex(v / 16, upper, out);
    }
    let d: u8 = (v % 16) as u8;
    let sym: u8 = if d < 10 {
        48 + d
    } else if upper {
        55 + d
    } else {
        87 + d
    };
    out.push(sym);
    proof {
        assert(out@ =~= old(out)@ + hex_seq(v, upper));
    }
}

impl Ulid {
    /// The raw 128-bit value in lowercase hexadecimal, minimal width.
    pub fn to_hex_lower(&self) -> (r: String)
        ensures
            r@.len() == hex_seq(self@, false).len(),
            forall|i: int| 0 <= i < r@.len() ==> r@[i] as u32 == hex_seq(self@, false)[i] as u32,
    {
        let mut buf: Vec<u8> = Vec::new();
        push_hex(self.bits, false, &mut buf);
        proof {
            lemma_hex_seq_ascii(self.bits, false);
        }
        ascii_to_string(buf)
    }

    /// The raw 128-bit value in uppercase hexadecimal, minimal width.
    pub fn to_hex_upper(&self) -> (r: String)
        ensures
            r@.len() == hex_seq(self@, true).len(),
            forall|i: int| 0 <= i < r@.len() ==> r@[i] as u32 == hex_seq(self@, true)[i] as u32,
    {
        let mut buf: Vec<u8> = Vec::new();
        push_hex(self.bits, true, &mut buf);
        proof {
            lemma_hex_seq_ascii(self.bits, true);
        }
        ascii_to_string(buf)
    }
}

impl PartialOrd for Ulid {
    fn partial_cmp(&self, other: &Self) -> (r: Option<core::cmp::Ordering>) {
        if self.bits < other.bits {
            Some(core::cmp::Ordering::Less)
        } else if self.bits > other.bits {
            Some(core::cmp::Ordering::Greater)
        } else {
            Some(core::cmp::Ordering::Equal)
        }
    }
}

impl vstd::std_specs::cmp::PartialOrdSpecImpl for Ulid {
    open spec fn obeys_partial_cmp_spec() -> bool {
        true
    }

    open spec fn partial_cmp_spec(&self, other: &Self) -> Option<core::cmp::Ordering> {
        if self@ < other@ {
            Some(core::cmp::Ordering::Less)
        } else if self@ > other@ {
            Some(core::cmp::Ordering::Greater)
        } else {
            Some(core::cmp::Ordering::Equal)
        }
    }
}

/// Relies on String::from_utf8: bytes below 0x80 are ASCII, hence valid
/// UTF-8, and decode to one char per byte with the same code point.
#[verifier::external_body]
fn ascii_to_string(bytes: Vec<u8>) -> (r: String)
    requires
        forall|i: int| 0 <= i < bytes@.len() ==> bytes@[i] < 0x80,
    ensures
        r@.len() == bytes@.len(),
        forall|i: int| 0 <= i < bytes@.len() ==> r@[i] as u32 == bytes@[i] as u32,
{
    match String::from_utf8(bytes) {
        Ok(s) => s,
        Err(_) => String::new(),
    }
}

/// Writes the 16-byte big-endian form of `bits`.
fn bits_to_be_bytes(bits: u128) -> (r: Vec<u8>)
    ensures
        r@.len() == 16,
        forall|i: int| 0 <= i < 16 ==> r@[i] == be_byte(bits, i),
{
    let mut out: Vec<u8> = vec![0u8; 16];
    let mut tmp: u128 = bits;
    let mut i: usize = 0;
    proof {
        assert(pow256(0) == 1);
    }
    while i < 16
        invariant
            i <= 16,
            out@.len() == 16,
            tmp == (bits as nat) / pow256(i as nat),
            forall|k: int| 16 - i <= k < 16 ==> out@[k] == be_byte(bits, k),
        decreases 16 - i,
    {
        proof {
            lemma_mask8_is_mod(tmp);
        }
        let b: u8 = (tmp & 0xff) as u8;
        proof {
            assert(b == be_byte(bits, 15 - i));
        }
        out[15 - i] = b;
        proof {
            lemma_shr8_is_div(tmp);
            lemma_pow256_pos(i as nat);
            vstd::arithmetic::div_mod::lemma_div_denominator(
                bits as int,
                pow256(i as nat) as int,
                256,
            );
            assert(pow256(i as nat) * 256 == pow256((i + 1) as nat));
        }
        tmp = tmp >> 8;
        i = i + 1;
    }
    out
}

/// Masking a 128-bit value with `0xff` takes its value modulo 256.
proof fn lemma_mask8_is_mod(x: u128)
    by (bit_vector)
    ensures
        x & 0xff == x % 256,
{
}

/// Shifting a 128-bit value right by 8 divides it by 256.
proof fn lemma_shr8_is_div(x: u128)
    by (bit_vector)
    ensures
        x >> 8 == x / 256,
{
}

/// `pow256` is positive.
pub proof fn lemma_pow256_pos(k: nat)
    ensures
        pow256(k) >= 1,
    decreases k,
{
    if k > 0 {
        lemma_pow256_pos((k - 1) as nat);
    }
}

/// `pow256` does not shrink as the exponent grows.
pub proof fn lemma_pow256_increases(j: nat, k: nat)
    requires
        j <= k,
    ensures
        pow256(j) <= pow256(k),
    decreases k,
{
    if j < k {
        lemma_pow256_increases(j, (k - 1) as nat);
        lemma_pow256_pos((k - 1) as nat);
    }
}

/// Mints ULIDs: owns one entropy source and combines a fresh clock reading
/// with freshly drawn entropy on every call. Behaves as an infinite
/// sequence of identifiers, restartable only by constructing it anew.
pub struct UlidGenerator {
    rng: rng::Xoroshiro128,
}

impl UlidGenerator {
    /// The owned entropy source's state.
    pub closed spec fn state(&self) -> (u64, u64) {
        self.rng.state()
    }

    /// Seeds from the current time's nanosecond count.
    pub fn new() -> (r: Result<Self, UlidError>)
        ensures
            r matches Ok(g) ==> exists|seed: u64| g.state() == rng::seeded_state(seed),
            r matches Err(e) ==> e == UlidError::ClockError,
    {
        match clock::duration_since_epoch() {
            Ok((secs, nanos)) => {
                let total: u128 = secs as u128 * 1_000_000_000 + nanos as u128;
                proof {
                    lemma_mask64_is_mod(total);
                }
                let seed: u64 = (total & 0xFFFF_FFFF_FFFF_FFFF) as u64;
                Ok(Self::from_seed(seed))
            },
            Err(e) => Err(e),
        }
    }

    /// Seeds explicitly: the same seed reproduces the same sequence.
    pub fn from_seed(seed: u64) -> (r: Self)
        ensures
            r.state() == rng::seeded_state(seed),
    {
        UlidGenerator { rng: rng::Xoroshiro128::from_seed(seed) }
    }

    /// Mints one identifier from a fresh clock reading; the entropy state
    /// advances by exactly two draws, and stays put when the clock fails.
    pub fn ulid(&mut self) -> (r: Result<Ulid, UlidError>)
        ensures
            r matches Ok(id) ==> {
                &&& minted_from(id@, old(self).state())
                &&& final(self).state() == rng::state_after(old(self).state(), 2)
            },
            r matches Err(e) ==> e == UlidError::ClockError && *final(self) == *old(self),
    {
        match clock::duration_since_epoch() {
            Ok((secs, nanos)) => {
                let millis: u128 = secs as u128 * 1000 + (nanos / 1_000_000) as u128;
                let id = self.ulid_with_time(millis);
                proof {
                    assert(time_bits_of(millis) < 0x1000000000000);
                }
                Ok(id)
            },
            Err(e) => Err(e),
        }
    }

    /// Mints one identifier for a given millisecond count, masked to the
    /// 48-bit time field; entropy advances by exactly two draws.
    pub fn ulid_with_time(&mut self, millis: u128) -> (r: Ulid)
        ensures
            r@ == compose(time_bits_of(millis), rand80(old(self).state())),
            final(self).state() == rng::state_after(old(self).state(), 2),
    {
        proof {
            lemma_mask48_is_mod(millis);
        }
        let t: u128 = millis & 0xFFFF_FFFF_FFFF;
        let r: u128 = self.rand_bits();
        proof {
            lemma_pack_time(t, r);
        }
        Ulid { bits: (t << 80) | r }
    }

    /// Draws the identifiers of the next `n` clock readings, in order.
    pub fn take(&mut self, n: usize) -> (r: Result<Vec<Ulid>, UlidError>)
        ensures
            r matches Ok(ids) ==> {
                &&& ids@.len() == n
                &&& final(self).state() == rng::state_after(old(self).state(), 2 * n as nat)
                &&& forall|k: int| 0 <= k < n ==> #[trigger] minted_from(
                    ids@[k]@,
                    rng::state_after(old(self).state(), 2 * k as nat),
                )
            },
            r matches Err(e) ==> e == UlidError::ClockError,
    {
        let mut ids: Vec<Ulid> = Vec::new();
        let mut i: usize = 0;
        while i < n
            invariant
                i <= n,
                ids@.len() == i,
                self.state() == rng::state_after(old(self).state(), 2 * i as nat),
                forall|k: int| 0 <= k < i ==> #[trigger] minted_from(
                    ids@[k]@,
                    rng::state_after(old(self).state(), 2 * k as nat),
                ),
            decreases n - i,
        {
            match self.ulid() {
                Ok(id) => {
                    ids.push(id);
                    proof {
                        rng::lemma_state_after_add(old(self).state(), 2 * i as nat, 2);
                    }
                },
                Err(e) => {
                    return Err(e);
                },
            }
            i = i + 1;
        }
        Ok(ids)
    }

    /// The 80-bit random field: two draws concatenated and masked.
    fn rand_bits(&mut self) -> (r: u128)
        ensures
            r == rand80(old(self).state()),
            final(self).state() == rng::state_after(old(self).state(), 2),
    {
        let a = self.rng.next_u64();
        let b = self.rng.next_u64();
        proof {
            lemma_pack80(a, b);
            reveal_with_fuel(rng::state_after, 3);
        }
        let bits: u128 = (((a as u128) << 64) | (b as u128)) & 0xFFFF_FFFF_FFFF_FFFF_FFFF;
        bits
    }
}

/// A fresh, time-seeded identifier in its 26-character text form.
pub fn ulid() -> (r: Result<String, UlidError>)
    ensures
        r matches Ok(s) ==> exists|seed: u64, idv: u128|
            minted_from(idv, rng::seeded_state(seed)) && is_text_of(s@, idv),
        r matches Err(e) ==> e == UlidError::ClockError,
{
    match Ulid::new() {
        Ok(id) => Ok(id.to_string()),
        Err(e) => Err(e),
    }
}

/// A fresh, time-seeded identifier as a raw 128-bit value.
pub fn ulid_raw() -> (r: Result<u128, UlidError>)
    ensures
        r matches Ok(v) ==> exists|seed: u64| minted_from(v, rng::seeded_state(seed)),
        r matches Err(e) ==> e == UlidError::ClockError,
{
    match Ulid::new() {
        Ok(id) => Ok(id.bits()),
        Err(e) => Err(e),
    }
}

} // verus!

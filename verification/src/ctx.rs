//! The boundary context layer: wraps one generator behind an owned context
//! for foreign-style callers, with explicit create/destroy lifecycle and
//! buffer-length validation around the text operations. A caller that
//! holds no context uses the ephemeral variants, which seed a fresh
//! context from the clock for that one call and release it at once.

use vstd::prelude::*;

use crate::base32;
use crate::be_bytes_of;
use crate::minted_from;
use crate::rng;
use crate::UlidError;
use crate::UlidGenerator;

verus! {

/// The negative of this sentinel reports a too-small text buffer,
/// mirroring the errno value ERANGE.
pub const ERANGE: i32 = 34;

/// A context for foreign-style callers: owns one generator. Destroying it
/// exactly once is enforced here by ownership: `ulid_ctx_destroy` consumes
/// the context.
#[allow(non_camel_case_types)]
pub struct ulid_ctx {
    gen: UlidGenerator,
}

impl ulid_ctx {
    /// The owned generator's entropy state.
    pub closed spec fn state(&self) -> (u64, u64) {
        self.gen.state()
    }
}

/// A successful text write: the 26 symbols of `idv`'s encoding, one
/// terminator byte, and the rest of the buffer untouched.
pub open spec fn text_written(dv: Seq<u8>, old_dv: Seq<u8>, idv: u128) -> bool {
    &&& dv.len() == old_dv.len()
    &&& forall|k: int| 0 <= k < 26 ==> dv[k] == base32::encoding(idv)[k]
    &&& dv[26] == 0
    &&& forall|k: int| 27 <= k < dv.len() ==> dv[k] == old_dv[k]
}

/// Creates a context. A zero seed means "derive from the current clock";
/// any other value seeds explicitly, so only a zero seed can fail, and
/// only when the clock stands before the epoch.
pub fn ulid_init(seed: u32) -> (r: Result<ulid_ctx, UlidError>)
    ensures
        seed != 0 ==> (r matches Ok(c) && c.state() == rng::seeded_state(seed as u64)),
        r matches Ok(c) ==> exists|s: u64| c.state() == rng::seeded_state(s),
        r matches Err(e) ==> seed == 0 && e == UlidError::ClockError,
{
    if seed == 0 {
        match UlidGenerator::new() {
            Ok(g) => Ok(ulid_ctx { gen: g }),
            Err(e) => Err(e),
        }
    } else {
        Ok(ulid_ctx { gen: UlidGenerator::from_seed(seed as u64) })
    }
}

/// Releases a context. Ownership makes the exactly-once contract a type
/// rule: the context is consumed and cannot be used or destroyed again.
pub fn ulid_ctx_destroy(ctx: ulid_ctx) {
    let _ = ctx;
}

/// Writes a fresh identifier's 16 raw big-endian bytes into `dest`,
/// advancing the context's entropy state by two draws.
pub fn ulid_new(ctx: &mut ulid_ctx, dest: &mut Vec<u8>) -> (r: Result<(), UlidError>)
    requires
        old(dest).len() == 16,
    ensures
        r matches Ok(_) ==> {
            &&& exists|idv: u128|
                minted_from(idv, old(ctx).state()) && final(dest)@ == be_bytes_of(idv)
            &&& final(ctx).state() == rng::state_after(old(ctx).state(), 2)
        },
        r matches Err(e) ==> {
            &&& e == UlidError::ClockError
            &&& final(dest)@ == old(dest)@
            &&& *final(ctx) == *old(ctx)
        },
{
    match ctx.gen.ulid() {
        Ok(id) => {
            let bytes = id.to_bytes();
            proof {
                assert(bytes@ =~= be_bytes_of(id@));
            }
            *dest = bytes;
            Ok(())
        },
        Err(e) => Err(e),
    }
}

/// Writes a fresh identifier's raw bytes through a context that lives for
/// this call alone, seeded from the clock.
pub fn ulid_new_ephemeral(dest: &mut Vec<u8>) -> (r: Result<(), UlidError>)
    requires
        old(dest).len() == 16,
    ensures
        r matches Ok(_) ==> exists|seed: u64, idv: u128|
            minted_from(idv, rng::seeded_state(seed)) && final(dest)@ == be_bytes_of(idv),
        r matches Err(e) ==> e == UlidError::ClockError && final(dest)@ == old(dest)@,
{
    match ulid_init(0) {
        Ok(mut c) => ulid_new(&mut c, dest),
        Err(e) => Err(e),
    }
}

/// Writes a fresh identifier as text: 26 symbols and one terminator.
/// A buffer under 27 bytes is rejected up front with the negative range
/// sentinel, before the clock is read or entropy drawn, and stays
/// untouched; on success the call returns 26.
pub fn ulid_write_new(ctx: &mut ulid_ctx, dest: &mut Vec<u8>) -> (r: Result<i32, UlidError>)
    ensures
        old(dest).len() < 27 ==> {
            &&& r matches Ok(n) && n == -ERANGE
            &&& final(dest)@ == old(dest)@
            &&& *final(ctx) == *old(ctx)
        },
        old(dest).len() >= 27 ==> match r {
            Ok(n) => {
                &&& n == 26
                &&& exists|idv: u128|
                    minted_from(idv, old(ctx).state()) && text_written(
                        final(dest)@,
                        old(dest)@,
                        idv,
                    )
                &&& final(ctx).state() == rng::state_after(old(ctx).state(), 2)
            },
            Err(e) => {
                &&& e == UlidError::ClockError
                &&& final(dest)@ == old(dest)@
                &&& *final(ctx) == *old(ctx)
            },
        },
{
    if dest.len() < 27 {
        return Ok(-ERANGE);
    }
    match ctx.gen.ulid() {
        Ok(id) => {
            base32::encode(id.bits(), dest);
            dest[26] = 0;
            proof {
                assert(minted_from(id@, old(ctx).state()));
                assert(text_written(dest@, old(dest)@, id@));
            }
            Ok(26)
        },
        Err(e) => Err(e),
    }
}

/// Writes a fresh identifier as text through a context that lives for this
/// call alone, seeded from the clock.
pub fn ulid_write_new_ephemeral(dest: &mut Vec<u8>) -> (r: Result<i32, UlidError>)
    ensures
        old(dest).len() < 27 ==> (r matches Ok(n) && n == -ERANGE && final(dest)@ == old(
            dest,
        )@),
        old(dest).len() >= 27 ==> match r {
            Ok(n) => n == 26 && exists|seed: u64, idv: u128|
                minted_from(idv, rng::seeded_state(seed)) && text_written(
                    final(dest)@,
                    old(dest)@,
                    idv,
                ),
            Err(e) => e == UlidError::ClockError && final(dest)@ == old(dest)@,
        },
{
    if dest.len() < 27 {
        return Ok(-ERANGE);
    }
    match ulid_init(0) {
        Ok(mut c) => ulid_write_new(&mut c, dest),
        Err(e) => Err(e),
    }
}

/// The value whose big-endian bytes make up the first `j` of `bytes`.
pub open spec fn be_value_prefix(bytes: Seq<u8>, j: int) -> nat
    decreases j,
{
    if j <= 0 {
        0
    } else {
        be_value_prefix(bytes, j - 1) * 256 + bytes[j - 1] as nat
    }
}

/// The 128-bit value that a 16-byte big-endian buffer holds.
pub open spec fn be_value(bytes: Seq<u8>) -> u128
    recommends
        bytes.len() == 16,
{
    be_value_prefix(bytes, 16) as u128
}

/// The accumulated prefix value stays below `pow256` of its length.
proof fn lemma_be_value_prefix_bound(bytes: Seq<u8>, j: int)
    requires
        0 <= j <= 16,
    ensures
        be_value_prefix(bytes, j) < crate::pow256(j as nat),
    decreases j,
{
    crate::lemma_pow256_pos(j as nat);
    if j > 0 {
        lemma_be_value_prefix_bound(bytes, j - 1);
    }
}

/// Writes an already-produced identifier, handed over as its 16 raw
/// big-endian bytes, as text: 26 symbols and one terminator. The same
/// buffer validation as for `ulid_write_new` applies; no entropy is drawn.
pub fn ulid_write(id: &Vec<u8>, dest: &mut Vec<u8>) -> (r: i32)
    requires
        id@.len() == 16,
    ensures
        old(dest).len() < 27 ==> r == -ERANGE && final(dest)@ == old(dest)@,
        old(dest).len() >= 27 ==> r == 26 && text_written(
            final(dest)@,
            old(dest)@,
            be_value(id@),
        ),
{
    if dest.len() < 27 {
        return -ERANGE;
    }
    let mut v: u128 = 0;
    let mut i: usize = 0;
    while i < 16
        invariant
            i <= 16,
            id@.len() == 16,
            v as nat == be_value_prefix(id@, i as int),
            (v as nat) < crate::pow256(i as nat),
        decreases 16 - i,
    {
        proof {
            lemma_be_value_prefix_bound(id@, i as int);
            crate::lemma_pow256_increases(i as nat, 15);
            reveal_with_fuel(crate::pow256, 17);
            assert(crate::pow256(16) == 0x100000000000000000000000000000000nat);
            assert(crate::pow256((i + 1) as nat) == 256 * crate::pow256(i as nat));
        }
        v = v * 256 + (id[i] as u128);
        i = i + 1;
    }
    base32::encode(v, dest);
    dest[26] = 0;
    26
}

} // verus!

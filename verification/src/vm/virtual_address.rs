//! A virtual address, taken apart into segment, page and word.

use crate::constants::VIRTUAL_ADDRESS_LIMIT;
use crate::error::{VMError, VMResult};
use vstd::prelude::*;

verus! {

/// The parts of a virtual address: the segment `s`, the page `p` within the
/// segment, the word `w` within the page, and `pw`, the word within the
/// segment, which is what the segment's size bounds.
#[derive(Debug, PartialEq, Eq, Copy, Clone, Structural)]
pub struct VirtualAddress {
    pub s: u16,
    pub p: u16,
    pub w: u16,
    pub pw: u32,
}

/// The parts of the raw address `raw`. An address is nine bits of segment,
/// nine of page and nine of word, from the top down. One that has a bit set
/// above those is refused, not cut down.
pub open spec fn decode(raw: u32) -> VMResult<VirtualAddress> {
    if raw < VIRTUAL_ADDRESS_LIMIT {
        Ok(
            VirtualAddress {
                s: (raw / 0x4_0000) as u16,
                p: (raw / 0x200 % 0x200) as u16,
                w: (raw % 0x200) as u16,
                pw: raw % 0x4_0000,
            },
        )
    } else {
        Err(VMError::VirtualAddressLeadingBits)
    }
}

impl VirtualAddress {
    /// Whether the parts are those of some raw address: each of `s`, `p` and
    /// `w` fits in nine bits, and `pw` is `p` and `w` taken together.
    pub open spec fn wf(self) -> bool {
        &&& self.s < 0x200
        &&& self.p < 0x200
        &&& self.w < 0x200
        &&& self.pw == self.p * 0x200 + self.w
    }

    /// The raw address that the parts `s`, `p` and `w` make up.
    pub open spec fn raw(self) -> int {
        self.s * 0x4_0000 + self.p * 0x200 + self.w
    }

    /// Takes the raw address `virtual_address` apart.
    ///
    /// Fails with `VirtualAddressLeadingBits` exactly when the address is
    /// `2^27` or more.
    pub fn new(virtual_address: u32) -> (result: VMResult<Self>)
        ensures
            result == decode(virtual_address),
            result is Ok <==> virtual_address < VIRTUAL_ADDRESS_LIMIT,
            result matches Ok(address) ==> address.wf() && address.raw() == virtual_address,
    {
        let mask: u32 = VIRTUAL_ADDRESS_LIMIT - 1;
        let raw: u32 = virtual_address;
        assert((raw & 0x7FF_FFFF) != raw <==> raw >= 0x800_0000) by (bit_vector);
        if (virtual_address & mask) != virtual_address {
            return Err(VMError::VirtualAddressLeadingBits);
        }
        assert(raw >> 18 == raw / 0x4_0000) by (bit_vector);
        assert((raw >> 9) & 0x1FF == raw / 0x200 % 0x200) by (bit_vector);
        assert(raw & 0x1FF == raw % 0x200) by (bit_vector);
        assert(raw & 0x3FFFF == raw % 0x4_0000) by (bit_vector);
        proof {
            lemma_decode_accepts(raw);
        }
        Ok(
            Self {
                s: (virtual_address >> 18) as u16,
                w: (virtual_address & 0x1FF) as u16,
                p: ((virtual_address >> 9) & 0x1FF) as u16,
                pw: virtual_address & 0x3FFFF,
            },
        )
    }

    /// Tells whether the parts are those of some raw address.
    pub fn is_valid(&self) -> (valid: bool)
        ensures
            valid == self.wf(),
    {
        self.s < 0x200 && self.p < 0x200 && self.w < 0x200 && self.pw == self.p as u32 * 0x200
            + self.w as u32
    }
}

/// Every raw address below `2^27` decodes, and its parts put together again
/// give the address back: by sums of multiples, and by shifts and bitwise or.
pub proof fn lemma_decode_accepts(raw: u32)
    requires
        raw < VIRTUAL_ADDRESS_LIMIT,
    ensures
        decode(raw) is Ok,
        decode(raw).unwrap().wf(),
        decode(raw).unwrap().raw() == raw,
        ({
            let a = decode(raw).unwrap();
            ((a.s as u32) << 18) | ((a.p as u32) << 9) | (a.w as u32)
        }) == raw,
{
    let a = decode(raw).unwrap();
    let s: u32 = raw / 0x4_0000;
    let p: u32 = raw / 0x200 % 0x200;
    let w: u32 = raw % 0x200;
    assert(s < 0x200 && p < 0x200 && w < 0x200 && raw % 0x4_0000 == p * 0x200 + w && raw == s
        * 0x4_0000 + p * 0x200 + w && ((s << 18) | (p << 9) | w) == raw) by (bit_vector)
        requires
            raw < 0x800_0000,
            s == raw / 0x4_0000,
            p == raw / 0x200 % 0x200,
            w == raw % 0x200,
    ;
    assert(a.s as u32 == s);
    assert(a.p as u32 == p);
    assert(a.w as u32 == w);
}

/// Every raw address of `2^27` or more is refused for its leading bits.
pub proof fn lemma_decode_rejects(raw: u32)
    requires
        raw >= VIRTUAL_ADDRESS_LIMIT,
    ensures
        decode(raw) == Err::<VirtualAddress, VMError>(VMError::VirtualAddressLeadingBits),
{
}

/// Well-formed parts are what their raw address decodes to.
pub proof fn lemma_decode_of_raw(address: VirtualAddress)
    requires
        address.wf(),
    ensures
        address.raw() < VIRTUAL_ADDRESS_LIMIT,
        decode(address.raw() as u32) == Ok::<VirtualAddress, VMError>(address),
{
    let s: u32 = address.s as u32;
    let p: u32 = address.p as u32;
    let w: u32 = address.w as u32;
    let raw: u32 = (s * 0x4_0000 + p * 0x200 + w) as u32;
    assert(raw < 0x800_0000 && raw / 0x4_0000 == s && raw / 0x200 % 0x200 == p && raw % 0x200 == w
        && raw % 0x4_0000 == p * 0x200 + w) by (bit_vector)
        requires
            s < 0x200,
            p < 0x200,
            w < 0x200,
            raw == s * 0x4_0000 + p * 0x200 + w,
    ;
}

} // verus!

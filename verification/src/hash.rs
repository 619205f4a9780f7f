//! A hash of bytes that is the same on every machine.

use vstd::prelude::*;

verus! {

/// The 64-bit FNV-1a hash.
pub open spec fn fnv(data: Seq<u8>) -> u64
    decreases data.len(),
{
    if data.len() == 0 {
        0xcbf29ce484222325
    } else {
        let mixed = fnv(data.drop_last()) ^ (data.last() as u64);
        ((mixed * 0x100000001b3) % 0x1_0000_0000_0000_0000) as u64
    }
}

pub fn stable_hash(data: &[u8]) -> (h: u64)
    ensures
        h == fnv(data@),
{
    let mut h: u64 = 0xcbf29ce484222325;
    let mut i: usize = 0;
    while i < data.len()
        invariant
            i <= data@.len(),
            h == fnv(data@.take(i as int)),
        decreases data@.len() - i,
    {
        assert(data@.take(i as int + 1).drop_last() =~= data@.take(i as int));
        h = h ^ (data[i] as u64);
        h = h.wrapping_mul(0x100000001b3);
        i = i + 1;
    }
    assert(data@.take(i as int) =~= data@);
    h
}

} // verus!

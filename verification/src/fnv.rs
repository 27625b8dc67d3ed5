//! The 64-bit FNV-1a hash, and the signature of the samples of a binary file.

use crate::number::{hex, hex_sixteen, zero_padded};
use crate::text::opt_text;
use vstd::prelude::*;

verus! {

pub const FNV_OFFSET: u64 = 0xcbf29ce484222325;

pub const FNV_PRIME: u64 = 0x100000001b3;

/// The state after a byte.
pub open spec fn fnv_step(state: u64, byte: u8) -> u64 {
    (((state ^ (byte as u64)) * FNV_PRIME) % 0x1_0000_0000_0000_0000) as u64
}

/// The state after bytes.
pub open spec fn fnv_from(state: u64, bytes: Seq<u8>) -> u64
    decreases bytes.len(),
{
    if bytes.len() == 0 {
        state
    } else {
        fnv_step(fnv_from(state, bytes.drop_last()), bytes.last())
    }
}

/// The hash of bytes.
pub open spec fn fnv(bytes: Seq<u8>) -> u64 {
    fnv_from(FNV_OFFSET, bytes)
}

/// The hash of bytes does not depend on the parts in which they come.
pub proof fn law_hash_in_parts(state: u64, a: Seq<u8>, b: Seq<u8>)
    ensures
        fnv_from(fnv_from(state, a), b) == fnv_from(state, a + b),
    decreases b.len(),
{
    if b.len() == 0 {
        assert(a + b =~= a);
    } else {
        assert((a + b).drop_last() =~= a + b.drop_last());
        law_hash_in_parts(state, a, b.drop_last());
    }
}

/// A hash under way.
#[derive(Clone, Copy, Debug, PartialEq, Eq, Structural)]
pub struct Fnv1a64 {
    pub state: u64,
}

impl Fnv1a64 {
    pub fn new() -> (r: Self)
        ensures
            r.state == FNV_OFFSET,
    {
        Fnv1a64 { state: FNV_OFFSET }
    }

    /// Takes bytes in.
    pub fn update(&mut self, bytes: &[u8])
        ensures
            final(self).state == fnv_from(old(self).state, bytes@),
    {
        let mut i: usize = 0;
        assert(bytes@.take(0) =~= Seq::empty());
        while i < bytes.len()
            invariant
                i <= bytes@.len(),
                self.state == fnv_from(old(self).state, bytes@.take(i as int)),
            decreases bytes@.len() - i,
        {
            let mixed: u64 = self.state ^ (bytes[i] as u64);
            self.state = mixed.wrapping_mul(FNV_PRIME);
            assert(bytes@.take(i as int + 1).drop_last() =~= bytes@.take(i as int));
            i = i + 1;
        }
        assert(bytes@.take(i as int) =~= bytes@);
    }

    pub fn finish(self) -> (r: u64)
        ensures
            r == self.state,
    {
        self.state
    }
}

/// The hash of bytes.
pub fn fnv1a64(bytes: &[u8]) -> (r: u64)
    ensures
        r == fnv(bytes@),
{
    let mut h = Fnv1a64::new();
    h.update(bytes);
    h.finish()
}

/// A hash in sixteen hexadecimal digits.
pub open spec fn hex64(v: u64) -> Seq<char> {
    zero_padded(hex(v as nat), 16)
}

/// The bytes of a number, the least one first.
pub open spec fn little_endian(n: u64) -> Seq<u8> {
    seq![
        (n % 0x100) as u8,
        (n / 0x100 % 0x100) as u8,
        (n / 0x1_0000 % 0x100) as u8,
        (n / 0x100_0000 % 0x100) as u8,
        (n / 0x1_0000_0000 % 0x100) as u8,
        (n / 0x100_0000_0000 % 0x100) as u8,
        (n / 0x1_0000_0000_0000 % 0x100) as u8,
        (n / 0x100_0000_0000_0000 % 0x100) as u8,
    ]
}

fn to_little_endian(n: u64) -> (r: Vec<u8>)
    ensures
        r@ == little_endian(n),
{
    let r: Vec<u8> = vec![
        (n % 0x100) as u8,
        (n / 0x100 % 0x100) as u8,
        (n / 0x1_0000 % 0x100) as u8,
        (n / 0x100_0000 % 0x100) as u8,
        (n / 0x1_0000_0000 % 0x100) as u8,
        (n / 0x100_0000_0000 % 0x100) as u8,
        (n / 0x1_0000_0000_0000 % 0x100) as u8,
        (n / 0x100_0000_0000_0000 % 0x100) as u8,
    ];
    assert(r@ =~= little_endian(n));
    r
}

/// The bytes of an offset and of what was read there.
#[derive(Debug)]
pub struct Sample {
    pub offset: u64,
    pub bytes: Vec<u8>,
}

/// Files above this size are not sampled.
pub const MAX_SAMPLED_BYTES: u64 = 67108864;

/// What is read at an offset is at most this long.
pub const SAMPLE_BYTES: u64 = 256;

/// How much is read at each offset of a file of this size.
pub open spec fn sample_length(size: u64) -> u64 {
    if size < SAMPLE_BYTES {
        size
    } else {
        SAMPLE_BYTES
    }
}

/// Where a file of this size is read, in order, each place once: at its start,
/// at a third, at two thirds, and at its end.
pub open spec fn is_sample_offset(size: u64, offset: u64) -> bool {
    offset == 0 || (size > 1 && (offset == size / 3 || offset == (2 * size) / 3 || offset == size
        - sample_length(size)))
}

/// The numbers are in order, each once.
pub open spec fn increasing(v: Seq<u64>) -> bool {
    forall|i: int, j: int| 0 <= i < j < v.len() ==> #[trigger] v[i] < #[trigger] v[j]
}

/// Adds a number in its place.
fn add_offset(v: &mut Vec<u64>, x: u64)
    requires
        increasing(old(v)@),
        old(v)@.len() < 100,
    ensures
        increasing(final(v)@),
        final(v)@.len() <= old(v)@.len() + 1,
        forall|y: u64| #[trigger] final(v)@.contains(y) <==> old(v)@.contains(y) || y == x,
{
    let ghost before = v@;
    let mut i: usize = 0;
    while i < v.len() && v[i] < x
        invariant
            v@ == before,
            i <= v@.len(),
            forall|k: int| 0 <= k < i ==> v@[k] < x,
        decreases v@.len() - i,
    {
        i = i + 1;
    }
    if i < v.len() && v[i] == x {
        assert(v@[i as int] == x);
        return ;
    }
    v.insert(i, x);
    proof {
        let after = v@;
        assert(after == before.insert(i as int, x));
        assert forall|y: u64| #[trigger] after.contains(y) <==> before.contains(y) || y == x by {
            if before.contains(y) {
                let k = before.index_of(y);
                assert(after[if k < i { k } else { k + 1 }] == y);
            }
            assert(after[i as int] == x);
            if after.contains(y) {
                let k = after.index_of(y);
                if k < i {
                    assert(before[k] == y);
                } else if k > i {
                    assert(before[k - 1] == y);
                }
            }
        }
    }
}

/// Where a file is sampled, and how much is read there; nothing of an empty
/// file, nor of one that is too large.
pub fn sample_plan(size: u64) -> (r: Option<(Vec<u64>, u64)>)
    ensures
        (r is Some) == (0 < size <= MAX_SAMPLED_BYTES),
        r matches Some((offsets, length)) ==> {
            &&& length == sample_length(size)
            &&& increasing(offsets@)
            &&& forall|x: u64| #[trigger] offsets@.contains(x) <==> is_sample_offset(size, x)
        },
{
    if size == 0 || size > MAX_SAMPLED_BYTES {
        return None;
    }
    let length: u64 = if size < SAMPLE_BYTES { size } else { SAMPLE_BYTES };
    let mut offsets: Vec<u64> = vec![0u64];
    proof {
        assert(offsets@ =~= seq![0u64]);
        assert(offsets@[0] == 0);
        assert(increasing(offsets@));
        assert(forall|x: u64| #[trigger] offsets@.contains(x) <==> x == 0);
    }
    if size > 1 {
        add_offset(&mut offsets, size / 3);
        add_offset(&mut offsets, (2 * size) / 3);
        add_offset(&mut offsets, size - length);
    }
    Some((offsets, length))
}

/// The state after samples; what could not be read does not count.
pub open spec fn samples_state(samples: Seq<Sample>) -> u64
    decreases samples.len(),
{
    if samples.len() == 0 {
        FNV_OFFSET
    } else {
        let before = samples_state(samples.drop_last());
        let s = samples.last();
        if s.bytes@.len() == 0 {
            before
        } else {
            fnv_from(fnv_from(before, little_endian(s.offset)), s.bytes@)
        }
    }
}

/// Whether anything was read.
pub open spec fn any_read(samples: Seq<Sample>) -> bool {
    exists|i: int| 0 <= i < samples.len() && (#[trigger] samples[i]).bytes@.len() > 0
}

/// The signature of the samples of a file, where anything was read.
pub open spec fn samples_signature(samples: Seq<Sample>) -> Option<Seq<char>> {
    if any_read(samples) {
        Some(hex64(samples_state(samples)))
    } else {
        None
    }
}

pub fn sample_signature(samples: &Vec<Sample>) -> (r: Option<String>)
    ensures
        opt_text(r) == samples_signature(samples@),
{
    let mut h = Fnv1a64::new();
    let mut any = false;
    let mut i: usize = 0;
    assert(samples@.take(0) =~= Seq::empty());
    while i < samples.len()
        invariant
            i <= samples@.len(),
            h.state == samples_state(samples@.take(i as int)),
            any == exists|k: int| 0 <= k < i && (#[trigger] samples@[k]).bytes@.len() > 0,
        decreases samples@.len() - i,
    {
        let sample = &samples[i];
        assert(samples@.take(i as int + 1).drop_last() =~= samples@.take(i as int));
        if sample.bytes.len() > 0 {
            let lead = to_little_endian(sample.offset);
            h.update(lead.as_slice());
            h.update(sample.bytes.as_slice());
            any = true;
            assert(samples@[i as int].bytes@.len() > 0);
        }
        i = i + 1;
    }
    assert(samples@.take(i as int) =~= samples@);
    if any {
        Some(hex_sixteen(h.finish()))
    } else {
        None
    }
}

} // verus!

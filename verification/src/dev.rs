//! Character devices: `null`, `zero` and a pseudo-random byte source.
use vstd::prelude::*;
use rand::rngs::SmallRng;
use rand::{Fill, SeedableRng};
use crate::vfs::{VfsError, VfsNodeType, VfsNodeAttr};

verus! {

#[verifier::external_type_specification]
#[verifier::external_body]
pub struct ExSmallRng(SmallRng);

#[verifier::external_type_specification]
#[verifier::external_body]
pub struct ExRandError(rand::Error);

/// `SmallRng::from_seed` from rand: the generator that `seed` starts. Nothing
/// is claimed of the generator.
#[verifier::external_body]
fn seeded_rng(seed: [u8; 32]) -> SmallRng {
    SmallRng::from_seed(seed)
}

/// `<[u8] as Fill>::try_fill` from rand, which calls the generator's
/// `try_fill_bytes`: overwrites `buf` with bytes of the generator's stream,
/// keeping its length. The small generator's `try_fill_bytes` returns
/// `Ok(())` on every input; which bytes come is left unsaid.
#[verifier::external_body]
fn fill_from_rng(buf: &mut [u8], rng: &mut SmallRng) -> (r: Result<(), rand::Error>)
    ensures
        final(buf)@.len() == old(buf)@.len(),
        r is Ok,
{
    buf.try_fill(rng)
}

/// The attributes of a character device: no size, no blocks.
pub open spec fn char_dev_attr() -> VfsNodeAttr {
    VfsNodeAttr { ty: VfsNodeType::CharDevice, size: 0, blocks: 0 }
}

/// The attributes of a character device.
pub fn char_dev_attr_exec() -> (a: VfsNodeAttr)
    ensures
        a == char_dev_attr(),
{
    VfsNodeAttr { ty: VfsNodeType::CharDevice, size: 0, blocks: 0 }
}

/// A device that reads as empty and discards writes, like `/dev/null`.
pub struct NullDev;

impl NullDev {
    /// A character device of size 0.
    pub fn get_attr(&self) -> (a: VfsNodeAttr)
        ensures
            a == char_dev_attr(),
    {
        char_dev_attr_exec()
    }

    /// Reads nothing; `buf` is left as it is.
    pub fn read_at(&self, offset: u64, buf: &mut [u8]) -> (r: Result<usize, VfsError>)
        ensures
            r == Ok::<usize, VfsError>(0),
            final(buf)@ == old(buf)@,
    {
        Ok(0)
    }

    /// Discards `buf` and reports it written.
    pub fn write_at(&self, offset: u64, buf: &[u8]) -> (r: Result<usize, VfsError>)
        ensures
            r == Ok::<usize, VfsError>(buf@.len() as usize),
    {
        Ok(buf.len())
    }

    /// Truncation does nothing.
    pub fn truncate(&self, size: u64) -> (r: Result<(), VfsError>)
        ensures
            r is Ok,
    {
        Ok(())
    }
}

/// A device that reads as zero bytes and discards writes, like `/dev/zero`.
pub struct ZeroDev;

impl ZeroDev {
    /// A character device of size 0.
    pub fn get_attr(&self) -> (a: VfsNodeAttr)
        ensures
            a == char_dev_attr(),
    {
        char_dev_attr_exec()
    }

    /// Fills `buf` with zero bytes and reports it read whole.
    pub fn read_at(&self, offset: u64, buf: &mut [u8]) -> (r: Result<usize, VfsError>)
        ensures
            r == Ok::<usize, VfsError>(old(buf)@.len() as usize),
            final(buf)@ == Seq::new(old(buf)@.len(), |i: int| 0u8),
    {
        let mut i: usize = 0;
        while i < buf.len()
            invariant
                i <= buf@.len(),
                buf@.len() == old(buf)@.len(),
                forall|k: int| 0 <= k < i ==> buf@[k] == 0u8,
            decreases buf@.len() - i,
        {
            buf[i] = 0;
            i = i + 1;
        }
        assert(buf@ =~= Seq::new(old(buf)@.len(), |i: int| 0u8));
        Ok(buf.len())
    }

    /// Discards `buf` and reports it written.
    pub fn write_at(&self, offset: u64, buf: &[u8]) -> (r: Result<usize, VfsError>)
        ensures
            r == Ok::<usize, VfsError>(buf@.len() as usize),
    {
        Ok(buf.len())
    }

    /// Truncation does nothing.
    pub fn truncate(&self, size: u64) -> (r: Result<(), VfsError>)
        ensures
            r is Ok,
    {
        Ok(())
    }
}

/// A device that reads as pseudo-random bytes and discards writes, like
/// `/dev/urandom`.
pub struct RandomDev {
    rng: SmallRng,
}

impl Default for RandomDev {
    /// The device whose generator starts from the all-zero seed.
    fn default() -> (d: Self) {
        RandomDev { rng: seeded_rng([0u8; 32]) }
    }
}

impl RandomDev {
    /// A character device of size 0.
    pub fn get_attr(&self) -> (a: VfsNodeAttr)
        ensures
            a == char_dev_attr(),
    {
        char_dev_attr_exec()
    }

    /// Fills `buf` with the next bytes of the generator and reports it read
    /// whole.
    pub fn read_at(&mut self, offset: u64, buf: &mut [u8]) -> (r: Result<usize, VfsError>)
        ensures
            r == Ok::<usize, VfsError>(old(buf)@.len() as usize),
            final(buf)@.len() == old(buf)@.len(),
    {
        let filled = fill_from_rng(buf, &mut self.rng);
        assert(filled is Ok);
        Ok(buf.len())
    }

    /// Discards `buf` and reports it written.
    pub fn write_at(&self, offset: u64, buf: &[u8]) -> (r: Result<usize, VfsError>)
        ensures
            r == Ok::<usize, VfsError>(buf@.len() as usize),
    {
        Ok(buf.len())
    }

    /// Truncation does nothing.
    pub fn truncate(&self, size: u64) -> (r: Result<(), VfsError>)
        ensures
            r is Ok,
    {
        Ok(())
    }
}

} // verus!

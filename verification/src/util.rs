//! Writing to user space.
//!
//! A value that the kernel hands to a task lies at consecutive addresses of
//! the task's address space, which need not be consecutive in memory: the
//! memory manager turns the range into a list of buffers, one for every page
//! that the range touches.  The bytes of the value go to these buffers in
//! order.

use vstd::prelude::*;

verus! {

/// The bytes of `buffers`, one buffer after the other.
pub open spec fn joined(buffers: Seq<Vec<u8>>) -> Seq<u8>
    decreases buffers.len(),
{
    if buffers.len() == 0 {
        Seq::empty()
    } else {
        joined(buffers.drop_last()) + buffers.last()@
    }
}

/// The address in user space at which a value is to be written.
#[derive(Debug, Clone, Copy, PartialEq, Eq, Structural)]
pub struct UserSpacePtr {
    /// The address.
    pub addr: usize,
}

impl UserSpacePtr {
    /// The pointer to the address `addr`.
    pub fn from(addr: usize) -> (ptr: Self)
        ensures
            ptr.addr == addr,
    {
        UserSpacePtr { addr }
    }

    /// Whether the bytes `val` fill `buffers` exactly.
    pub fn fits(val: &[u8], buffers: &Vec<Vec<u8>>) -> (b: bool)
        ensures
            b == (joined(buffers@).len() == val@.len()),
    {
        let mut total: usize = 0;
        let mut i: usize = 0;
        proof {
            assert(buffers@.take(0) =~= Seq::<Vec<u8>>::empty());
        }
        while i < buffers.len()
            invariant
                i <= buffers.len(),
                total == joined(buffers@.take(i as int)).len(),
                total <= val@.len(),
            decreases buffers.len() - i,
        {
            proof {
                let next = buffers@.take(i + 1);
                assert(next.drop_last() =~= buffers@.take(i as int));
                assert(next.last() == buffers@[i as int]);
                assert(joined(next) == joined(next.drop_last()) + next.last()@);
                lemma_joined_prefix(buffers@, i + 1);
            }
            let n = buffers[i].len();
            if n > val.len() - total {
                return false;
            }
            total = total + n;
            i += 1;
        }
        proof {
            assert(buffers@.take(i as int) =~= buffers@);
        }
        total == val.len()
    }

    /// Write the bytes `val` of a value to the buffers that the memory
    /// manager has found for the address, which the bytes must fill exactly.
    /// Every buffer keeps its length, and together the buffers hold `val`.
    pub fn write(&self, val: &[u8], buffers: &mut Vec<Vec<u8>>)
        requires
            joined(old(buffers)@).len() == val@.len(),
        ensures
            final(buffers)@.len() == old(buffers)@.len(),
            forall|i: int|
                0 <= i < final(buffers)@.len() ==> (#[trigger] final(buffers)@[i])@.len() == old(
                    buffers,
                )@[i]@.len(),
            joined(final(buffers)@) == val@,
    {
        let size = val.len();
        let mut done: usize = 0;
        let mut i: usize = 0;
        proof {
            assert(buffers@.take(0) =~= Seq::<Vec<u8>>::empty());
            assert(val@.take(0) =~= Seq::<u8>::empty());
        }
        while i < buffers.len()
            invariant
                size == val@.len(),
                i <= buffers.len(),
                buffers@.len() == old(buffers)@.len(),
                forall|k: int|
                    0 <= k < buffers@.len() ==> (#[trigger] buffers@[k])@.len() == old(
                        buffers,
                    )@[k]@.len(),
                joined(old(buffers)@).len() == val@.len(),
                done == joined(old(buffers)@.take(i as int)).len(),
                done <= val@.len(),
                joined(buffers@.take(i as int)) == val@.take(done as int),
            decreases buffers.len() - i,
        {
            let n = buffers[i].len();
            proof {
                let next = old(buffers)@.take(i + 1);
                assert(next.drop_last() =~= old(buffers)@.take(i as int));
                assert(next.last() == old(buffers)@[i as int]);
                assert(joined(next) == joined(next.drop_last()) + next.last()@);
                lemma_joined_prefix(old(buffers)@, i + 1);
                assert(buffers@[i as int]@.len() == old(buffers)@[i as int]@.len());
                assert(done + n <= val@.len());
            }
            let ghost filled = buffers@.take(i as int);
            let mut j: usize = 0;
            while j < n
                invariant
                    size == val@.len(),
                    i < buffers.len(),
                    j <= n,
                    n == buffers@[i as int]@.len(),
                    done + n <= val@.len(),
                    buffers@.len() == old(buffers)@.len(),
                    forall|k: int|
                        0 <= k < buffers@.len() ==> (#[trigger] buffers@[k])@.len() == old(
                            buffers,
                        )@[k]@.len(),
                    buffers@.take(i as int) == filled,
                    forall|k: int| 0 <= k < j ==> buffers@[i as int]@[k] == val@[done + k],
                decreases n - j,
            {
                let byte = val[done + j];
                let ghost before = buffers@;
                buffers[i][j] = byte;
                proof {
                    assert(buffers@.take(i as int) =~= before.take(i as int));
                }
                j += 1;
            }
            proof {
                let next = buffers@.take(i + 1);
                assert(next.drop_last() =~= buffers@.take(i as int));
                assert(next.last() == buffers@[i as int]);
                assert(joined(next) == joined(next.drop_last()) + next.last()@);
                let before = old(buffers)@.take(i + 1);
                assert(before.drop_last() =~= old(buffers)@.take(i as int));
                assert(joined(before) == joined(before.drop_last()) + before.last()@);
                assert(buffers@[i as int]@ =~= val@.subrange(done as int, done + n));
                assert(val@.take(done as int) + val@.subrange(done as int, done + n) =~= val@.take(
                    done + n,
                ));
            }
            done = done + n;
            i += 1;
        }
        proof {
            assert(buffers@.take(i as int) =~= buffers@);
            assert(old(buffers)@.take(i as int) =~= old(buffers)@);
            assert(val@.take(done as int) =~= val@);
        }
    }
}

/// The first buffers hold no more bytes than all of them.
pub proof fn lemma_joined_prefix(buffers: Seq<Vec<u8>>, n: int)
    requires
        0 <= n <= buffers.len(),
    ensures
        joined(buffers.take(n)).len() <= joined(buffers).len(),
    decreases buffers.len() - n,
{
    if n < buffers.len() {
        lemma_joined_prefix(buffers, n + 1);
        let next = buffers.take(n + 1);
        assert(next.drop_last() =~= buffers.take(n));
    } else {
        assert(buffers.take(n) =~= buffers);
    }
}

} // verus!

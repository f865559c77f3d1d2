//! The closed set of file operations, their generation and shrink rules,
//! and the outcome comparator applied after each twin execution.

use vstd::prelude::*;
use vstd::std_specs::cmp::PartialEqSpec;

use crate::bounded::BoundedUsize;
use crate::model::{
    file_step, obs_agree, payload_fits, read_buffer_at, step_obs, zero_vec, ModelFile,
};
use crate::outcome::{Divergence, ErrKind};
use crate::rng::random_bytes;

verus! {

/// One file operation. Every numeric field is a bounded magnitude; the
/// payload bytes of the write variants are drawn fresh at execution time and
/// are not part of an operation's identity.
#[derive(Clone, Copy, Debug, PartialEq, Eq, Structural)]
pub enum Command {
    /// Close the file and reopen it by path; on-disk state must survive.
    Reopen,
    /// Read up to this many bytes at the current position, advancing it.
    Read(BoundedUsize),
    /// Read up to the second magnitude of bytes at the first, position
    /// unchanged.
    PRead(BoundedUsize, BoundedUsize),
    /// Write this many fresh random bytes at the current position,
    /// advancing it.
    Write(BoundedUsize),
    /// Write the second magnitude of fresh random bytes at the first,
    /// position unchanged.
    PWrite(BoundedUsize, BoundedUsize),
    /// Set the position, counted from the start; past end-of-file is fine.
    Seek(BoundedUsize),
    /// Set the exact length, zero-extending or discarding trailing bytes.
    Truncate(BoundedUsize),
    /// Force durability of prior writes.
    Fsync,
    /// Synchronize both sides, then query the byte length.
    Size,
}

/// Both results carry equal success values, or equal failure categories.
pub open spec fn res_agree<T: PartialEqSpec>(
    res1: Result<T, ErrKind>,
    res2: Result<T, ErrKind>,
) -> bool {
    match (res1, res2) {
        (Ok(v1), Ok(v2)) => v1.eq_spec(&v2),
        (Err(e1), Err(e2)) => e1 == e2,
        _ => false,
    }
}

/// The two buffers agree on every index both of them hold.
pub open spec fn bytes_agree(b1: Seq<u8>, b2: Seq<u8>) -> bool {
    forall|i: int| 0 <= i < b1.len() && i < b2.len() ==> b1[i] == b2[i]
}

/// `cand` is a shrink candidate for `orig`: the same variant with one
/// numeric field strictly lessened and the others held fixed. The
/// zero-arity variants have no candidates.
pub open spec fn shrinks_to(orig: Command, cand: Command) -> bool {
    match (orig, cand) {
        (Command::Read(n), Command::Read(m)) => m@ < n@,
        (Command::Write(n), Command::Write(m)) => m@ < n@,
        (Command::Seek(n), Command::Seek(m)) => m@ < n@,
        (Command::Truncate(n), Command::Truncate(m)) => m@ < n@,
        (Command::PRead(a, b), Command::PRead(c, d)) => (c@ < a@ && d@ == b@)
            || (c@ == a@ && d@ < b@),
        (Command::PWrite(a, b), Command::PWrite(c, d)) => (c@ < a@ && d@ == b@)
            || (c@ == a@ && d@ < b@),
        _ => false,
    }
}

/// Observe a unit success as the value zero, keeping any failure category.
fn unit_res(r: Result<(), ErrKind>) -> (t: Result<usize, ErrKind>)
    ensures
        r is Ok ==> t == Ok::<usize, ErrKind>(0usize),
        r matches Err(e) ==> t == Err::<usize, ErrKind>(e),
{
    match r {
        Ok(()) => Ok(0),
        Err(e) => Err(e),
    }
}

/// The two operations are the same variant.
pub open spec fn same_tag(a: Command, b: Command) -> bool {
    match a {
        Command::Reopen => b is Reopen,
        Command::Read(_) => b is Read,
        Command::PRead(_, _) => b is PRead,
        Command::Write(_) => b is Write,
        Command::PWrite(_, _) => b is PWrite,
        Command::Seek(_) => b is Seek,
        Command::Truncate(_) => b is Truncate,
        Command::Fsync => b is Fsync,
        Command::Size => b is Size,
    }
}

/// Every shrink candidate satisfies the domain constraints of the value it
/// shrinks from: it carries the same variant tag, and it stays below any
/// ceiling the original respects. Candidate lists are vectors, so every
/// shrink sequence is finite by construction.
pub proof fn lemma_shrink_preserves_bounds(orig: Command, cand: Command, c: nat)
    requires
        shrinks_to(orig, cand),
        orig.bounded(c),
    ensures
        cand.bounded(c),
        same_tag(orig, cand),
{
}

impl Command {
    /// Every numeric field lies below the ceiling.
    pub open spec fn bounded(self, c: nat) -> bool {
        match self {
            Command::Reopen => true,
            Command::Read(n) => n@ < c,
            Command::PRead(a, b) => a@ < c && b@ < c,
            Command::Write(n) => n@ < c,
            Command::PWrite(a, b) => a@ < c && b@ < c,
            Command::Seek(n) => n@ < c,
            Command::Truncate(n) => n@ < c,
            Command::Fsync => true,
            Command::Size => true,
        }
    }

    /// Apply this operation to both sides of a twin model pair — the write
    /// payload drawn once and shared — and compare the two outcomes as the
    /// comparator directs. Equal twins never diverge, and move to equal
    /// states.
    pub fn apply(&self, fd1: &mut ModelFile, fd2: &mut ModelFile) -> (r: Result<(), Divergence>)
        ensures
            exists|p: Seq<u8>|
                {
                    &&& #[trigger] payload_fits(*self, p)
                    &&& final(fd1)@ == file_step(old(fd1)@, *self, p)
                    &&& final(fd2)@ == file_step(old(fd2)@, *self, p)
                    &&& ((r is Ok) <==> obs_agree(
                        step_obs(old(fd1)@, *self, p),
                        step_obs(old(fd2)@, *self, p),
                    ))
                },
            old(fd1)@ == old(fd2)@ ==> r is Ok && final(fd1)@ == final(fd2)@,
    {
        match self {
            Command::Reopen => {
                let r1 = unit_res(fd1.reopen());
                let r2 = unit_res(fd2.reopen());
                let c = self.check_res(r1, r2);
                proof {
                    let p = Seq::<u8>::empty();
                    assert(payload_fits(*self, p));
                    assert(fd1@ == file_step(old(fd1)@, *self, p));
                    assert(fd2@ == file_step(old(fd2)@, *self, p));
                    assert((c is Ok) <==> obs_agree(
                        step_obs(old(fd1)@, *self, p),
                        step_obs(old(fd2)@, *self, p),
                    ));
                }
                c
            }
            Command::Read(count) => {
                let mut buf1 = zero_vec(count.value());
                let mut buf2 = zero_vec(count.value());
                let r1 = fd1.read(&mut buf1);
                let r2 = fd2.read(&mut buf2);
                let ghost b1 = buf1@;
                let ghost b2 = buf2@;
                let c1 = self.check_res(r1, r2);
                proof {
                    let p = Seq::<u8>::empty();
                    assert(payload_fits(*self, p));
                    assert(b1 =~= read_buffer_at(old(fd1)@.bytes, old(fd1)@.pos, count@));
                    assert(b2 =~= read_buffer_at(old(fd2)@.bytes, old(fd2)@.pos, count@));
                    assert(fd1@ == file_step(old(fd1)@, *self, p));
                    assert(fd2@ == file_step(old(fd2)@, *self, p));
                    if old(fd1)@ == old(fd2)@ {
                        assert(b1 =~= b2);
                    }
                }
                match c1 {
                    Err(d) => {
                        proof {
                            assert(old(fd1)@ == old(fd2)@ ==> c1 is Ok);
                        }
                        Err(d)
                    }
                    Ok(()) => {
                        let c2 = self.check_bytes(buf1, buf2);
                        proof {
                            let p = Seq::<u8>::empty();
                            assert((c2 is Ok) <==> obs_agree(
                                step_obs(old(fd1)@, *self, p),
                                step_obs(old(fd2)@, *self, p),
                            ));
                        }
                        c2
                    }
                }
            }
            Command::PRead(offset, count) => {
                let mut buf1 = zero_vec(count.value());
                let mut buf2 = zero_vec(count.value());
                let r1 = fd1.read_at(&mut buf1, offset.value());
                let r2 = fd2.read_at(&mut buf2, offset.value());
                let ghost b1 = buf1@;
                let ghost b2 = buf2@;
                let c1 = self.check_res(r1, r2);
                proof {
                    let p = Seq::<u8>::empty();
                    assert(payload_fits(*self, p));
                    assert(b1 =~= read_buffer_at(old(fd1)@.bytes, offset@, count@));
                    assert(b2 =~= read_buffer_at(old(fd2)@.bytes, offset@, count@));
                    assert(fd1@ == file_step(old(fd1)@, *self, p));
                    assert(fd2@ == file_step(old(fd2)@, *self, p));
                    if old(fd1)@ == old(fd2)@ {
                        assert(b1 =~= b2);
                    }
                }
                match c1 {
                    Err(d) => {
                        proof {
                            assert(old(fd1)@ == old(fd2)@ ==> c1 is Ok);
                        }
                        Err(d)
                    }
                    Ok(()) => {
                        let c2 = self.check_bytes(buf1, buf2);
                        proof {
                            let p = Seq::<u8>::empty();
                            assert((c2 is Ok) <==> obs_agree(
                                step_obs(old(fd1)@, *self, p),
                                step_obs(old(fd2)@, *self, p),
                            ));
                        }
                        c2
                    }
                }
            }
            Command::Write(count) => {
                let payload = random_bytes(count.value());
                let ghost p = payload@;
                let r1 = fd1.write(&payload);
                let r2 = fd2.write(&payload);
                let c = self.check_res(r1, r2);
                proof {
                    assert(payload_fits(*self, p));
                    assert(fd1@ == file_step(old(fd1)@, *self, p));
                    assert(fd2@ == file_step(old(fd2)@, *self, p));
                    assert((c is Ok) <==> obs_agree(
                        step_obs(old(fd1)@, *self, p),
                        step_obs(old(fd2)@, *self, p),
                    ));
                }
                c
            }
            Command::PWrite(offset, count) => {
                let payload = random_bytes(count.value());
                let ghost p = payload@;
                let r1 = fd1.write_at(&payload, offset.value());
                let r2 = fd2.write_at(&payload, offset.value());
                let c = self.check_res(r1, r2);
                proof {
                    assert(payload_fits(*self, p));
                    assert(fd1@ == file_step(old(fd1)@, *self, p));
                    assert(fd2@ == file_step(old(fd2)@, *self, p));
                    assert((c is Ok) <==> obs_agree(
                        step_obs(old(fd1)@, *self, p),
                        step_obs(old(fd2)@, *self, p),
                    ));
                }
                c
            }
            Command::Seek(offset) => {
                let r1 = fd1.seek(offset.value());
                let r2 = fd2.seek(offset.value());
                let c = self.check_res(r1, r2);
                proof {
                    let p = Seq::<u8>::empty();
                    assert(payload_fits(*self, p));
                    assert(fd1@ == file_step(old(fd1)@, *self, p));
                    assert(fd2@ == file_step(old(fd2)@, *self, p));
                    assert((c is Ok) <==> obs_agree(
                        step_obs(old(fd1)@, *self, p),
                        step_obs(old(fd2)@, *self, p),
                    ));
                }
                c
            }
            Command::Truncate(count) => {
                let r1 = unit_res(fd1.set_len(count.value()));
                let r2 = unit_res(fd2.set_len(count.value()));
                let c = self.check_res(r1, r2);
                proof {
                    let p = Seq::<u8>::empty();
                    assert(payload_fits(*self, p));
                    assert(fd1@ == file_step(old(fd1)@, *self, p));
                    assert(fd2@ == file_step(old(fd2)@, *self, p));
                    assert((c is Ok) <==> obs_agree(
                        step_obs(old(fd1)@, *self, p),
                        step_obs(old(fd2)@, *self, p),
                    ));
                }
                c
            }
            Command::Fsync => {
                let r1 = unit_res(fd1.sync_all());
                let r2 = unit_res(fd2.sync_all());
                let c = self.check_res(r1, r2);
                proof {
                    let p = Seq::<u8>::empty();
                    assert(payload_fits(*self, p));
                    assert((c is Ok) <==> obs_agree(
                        step_obs(old(fd1)@, *self, p),
                        step_obs(old(fd2)@, *self, p),
                    ));
                }
                c
            }
            Command::Size => {
                let _s1 = fd1.sync_all();
                let _s2 = fd2.sync_all();
                let r1 = fd1.size();
                let r2 = fd2.size();
                let c = self.check_res(r1, r2);
                proof {
                    let p = Seq::<u8>::empty();
                    assert(payload_fits(*self, p));
                    assert((c is Ok) <==> obs_agree(
                        step_obs(old(fd1)@, *self, p),
                        step_obs(old(fd2)@, *self, p),
                    ));
                }
                c
            }
        }
    }

    /// Whether the operation has any shrink candidate: some numeric field
    /// must be there to lessen, and not already zero.
    pub open spec fn has_shrinks(self) -> bool {
        match self {
            Command::Reopen => false,
            Command::Read(n) => n@ > 0,
            Command::PRead(a, b) => a@ > 0 || b@ > 0,
            Command::Write(n) => n@ > 0,
            Command::PWrite(a, b) => a@ > 0 || b@ > 0,
            Command::Seek(n) => n@ > 0,
            Command::Truncate(n) => n@ > 0,
            Command::Fsync => false,
            Command::Size => false,
        }
    }

    /// Draw one operation uniformly among the nine variants, every numeric
    /// field freshly generated below `ceiling`.
    pub fn generate(ceiling: usize) -> (r: Command)
        requires
            ceiling > 0,
        ensures
            r.bounded(ceiling as nat),
    {
        let sel = crate::rng::random_usize() % 9;
        match sel {
            0 => Command::Reopen,
            1 => Command::Read(BoundedUsize::generate(ceiling)),
            2 => Command::PRead(
                BoundedUsize::generate(ceiling),
                BoundedUsize::generate(ceiling),
            ),
            3 => Command::Write(BoundedUsize::generate(ceiling)),
            4 => Command::PWrite(
                BoundedUsize::generate(ceiling),
                BoundedUsize::generate(ceiling),
            ),
            5 => Command::Seek(BoundedUsize::generate(ceiling)),
            6 => Command::Truncate(BoundedUsize::generate(ceiling)),
            7 => Command::Fsync,
            _ => Command::Size,
        }
    }

    /// Shrink candidates for this operation: each numeric field shrinks
    /// independently, the others held fixed, and the variant tag is always
    /// preserved. The zero-arity variants are not shrinkable.
    pub fn shrink(&self) -> (r: Vec<Command>)
        ensures
            forall|i: int| 0 <= i < r@.len() ==> shrinks_to(*self, #[trigger] r@[i]),
            r@.len() > 0 <==> self.has_shrinks(),
    {
        let mut out: Vec<Command> = Vec::new();
        match self {
            Command::Reopen => {}
            Command::Fsync => {}
            Command::Size => {}
            Command::Read(n) => {
                let cands = n.shrink();
                let mut k: usize = 0;
                while k < cands.len()
                    invariant
                        k <= cands@.len(),
                        forall|i: int| 0 <= i < cands@.len() ==> #[trigger] cands@[i]@ < n@,
                        forall|i: int|
                            0 <= i < out@.len() ==> shrinks_to(*self, #[trigger] out@[i]),
                        out@.len() == k,
                        *self is Read && self->Read_0 == *n,
                    decreases cands@.len() - k,
                {
                    out.push(Command::Read(cands[k]));
                    k = k + 1;
                }
            }
            Command::Write(n) => {
                let cands = n.shrink();
                let mut k: usize = 0;
                while k < cands.len()
                    invariant
                        k <= cands@.len(),
                        forall|i: int| 0 <= i < cands@.len() ==> #[trigger] cands@[i]@ < n@,
                        forall|i: int|
                            0 <= i < out@.len() ==> shrinks_to(*self, #[trigger] out@[i]),
                        out@.len() == k,
                        *self is Write && self->Write_0 == *n,
                    decreases cands@.len() - k,
                {
                    out.push(Command::Write(cands[k]));
                    k = k + 1;
                }
            }
            Command::Seek(n) => {
                let cands = n.shrink();
                let mut k: usize = 0;
                while k < cands.len()
                    invariant
                        k <= cands@.len(),
                        forall|i: int| 0 <= i < cands@.len() ==> #[trigger] cands@[i]@ < n@,
                        forall|i: int|
                            0 <= i < out@.len() ==> shrinks_to(*self, #[trigger] out@[i]),
                        out@.len() == k,
                        *self is Seek && self->Seek_0 == *n,
                    decreases cands@.len() - k,
                {
                    out.push(Command::Seek(cands[k]));
                    k = k + 1;
                }
            }
            Command::Truncate(n) => {
                let cands = n.shrink();
                let mut k: usize = 0;
                while k < cands.len()
                    invariant
                        k <= cands@.len(),
                        forall|i: int| 0 <= i < cands@.len() ==> #[trigger] cands@[i]@ < n@,
                        forall|i: int|
                            0 <= i < out@.len() ==> shrinks_to(*self, #[trigger] out@[i]),
                        out@.len() == k,
                        *self is Truncate && self->Truncate_0 == *n,
                    decreases cands@.len() - k,
                {
                    out.push(Command::Truncate(cands[k]));
                    k = k + 1;
                }
            }
            Command::PRead(a, b) => {
                let ca = a.shrink();
                let mut k: usize = 0;
                while k < ca.len()
                    invariant
                        k <= ca@.len(),
                        forall|i: int| 0 <= i < ca@.len() ==> #[trigger] ca@[i]@ < a@,
                        forall|i: int|
                            0 <= i < out@.len() ==> shrinks_to(*self, #[trigger] out@[i]),
                        out@.len() == k,
                        *self is PRead && self->PRead_0 == *a && self->PRead_1 == *b,
                    decreases ca@.len() - k,
                {
                    out.push(Command::PRead(ca[k], *b));
                    k = k + 1;
                }
                let cb = b.shrink();
                let mut k2: usize = 0;
                while k2 < cb.len()
                    invariant
                        k2 <= cb@.len(),
                        forall|i: int| 0 <= i < cb@.len() ==> #[trigger] cb@[i]@ < b@,
                        forall|i: int|
                            0 <= i < out@.len() ==> shrinks_to(*self, #[trigger] out@[i]),
                        out@.len() == ca@.len() + k2,
                        *self is PRead && self->PRead_0 == *a && self->PRead_1 == *b,
                    decreases cb@.len() - k2,
                {
                    out.push(Command::PRead(*a, cb[k2]));
                    k2 = k2 + 1;
                }
            }
            Command::PWrite(a, b) => {
                let ca = a.shrink();
                let mut k: usize = 0;
                while k < ca.len()
                    invariant
                        k <= ca@.len(),
                        forall|i: int| 0 <= i < ca@.len() ==> #[trigger] ca@[i]@ < a@,
                        forall|i: int|
                            0 <= i < out@.len() ==> shrinks_to(*self, #[trigger] out@[i]),
                        out@.len() == k,
                        *self is PWrite && self->PWrite_0 == *a && self->PWrite_1 == *b,
                    decreases ca@.len() - k,
                {
                    out.push(Command::PWrite(ca[k], *b));
                    k = k + 1;
                }
                let cb = b.shrink();
                let mut k2: usize = 0;
                while k2 < cb.len()
                    invariant
                        k2 <= cb@.len(),
                        forall|i: int| 0 <= i < cb@.len() ==> #[trigger] cb@[i]@ < b@,
                        forall|i: int|
                            0 <= i < out@.len() ==> shrinks_to(*self, #[trigger] out@[i]),
                        out@.len() == ca@.len() + k2,
                        *self is PWrite && self->PWrite_0 == *a && self->PWrite_1 == *b,
                    decreases cb@.len() - k2,
                {
                    out.push(Command::PWrite(*a, cb[k2]));
                    k2 = k2 + 1;
                }
            }
        }
        out
    }

    /// Comparator rule for the two results of one operation: both successes
    /// must carry equal values, both failures equal categories, and a mixed
    /// success/failure pair is always a divergence.
    pub fn check_res<T: PartialEq + PartialEqSpec>(
        &self,
        res1: Result<T, ErrKind>,
        res2: Result<T, ErrKind>,
    ) -> (r: Result<(), Divergence>)
        ensures
            T::obeys_eq_spec() ==> ((r is Ok) <==> res_agree(res1, res2)),
            res1 is Ok && res2 is Ok ==> (r is Ok || r == Err::<(), Divergence>(
                Divergence::ValueMismatch,
            )),
            res1 is Err && res2 is Err && res1->Err_0 == res2->Err_0 ==> r is Ok,
            res1 is Err && res2 is Err && res1->Err_0 != res2->Err_0 ==> r == Err::<
                (),
                Divergence,
            >(Divergence::KindMismatch(res1->Err_0, res2->Err_0)),
            res1 is Ok && res2 is Err ==> r == Err::<(), Divergence>(
                Divergence::OkVsErr(res2->Err_0),
            ),
            res1 is Err && res2 is Ok ==> r == Err::<(), Divergence>(
                Divergence::ErrVsOk(res1->Err_0),
            ),
    {
        match (res1, res2) {
            (Ok(v1), Ok(v2)) => {
                if v1 != v2 {
                    Err(Divergence::ValueMismatch)
                } else {
                    Ok(())
                }
            }
            (Err(e1), Err(e2)) => {
                if e1 != e2 {
                    Err(Divergence::KindMismatch(e1, e2))
                } else {
                    Ok(())
                }
            }
            (Ok(_), Err(e2)) => Err(Divergence::OkVsErr(e2)),
            (Err(e1), Ok(_)) => Err(Divergence::ErrVsOk(e1)),
        }
    }

    /// Byte comparator for a data-producing operation: scan for the first
    /// index where the two buffers differ and report it with both bytes.
    pub fn check_bytes(&self, bytes1: Vec<u8>, bytes2: Vec<u8>) -> (r: Result<(), Divergence>)
        ensures
            (r is Ok) <==> bytes_agree(bytes1@, bytes2@),
            r matches Err(d) ==> (d matches Divergence::ByteMismatch(i, x1, x2)
                && i < bytes1@.len() && i < bytes2@.len() && bytes1@[i as int] != bytes2@[
                i as int
            ] && x1 == bytes1@[i as int] && x2 == bytes2@[i as int] && (forall|j: int|
                0 <= j < i ==> bytes1@[j] == bytes2@[j])),
    {
        let limit = if bytes1.len() <= bytes2.len() {
            bytes1.len()
        } else {
            bytes2.len()
        };
        let mut i: usize = 0;
        while i < limit
            invariant
                limit <= bytes1@.len(),
                limit <= bytes2@.len(),
                limit == if bytes1@.len() <= bytes2@.len() {
                    bytes1@.len()
                } else {
                    bytes2@.len()
                },
                i <= limit,
                forall|j: int| 0 <= j < i ==> bytes1@[j] == bytes2@[j],
            decreases limit - i,
        {
            if bytes1[i] != bytes2[i] {
                return Err(Divergence::ByteMismatch(i, bytes1[i], bytes2[i]));
            }
            i = i + 1;
        }
        Ok(())
    }
}

} // verus!

//! The verified in-memory file model: the exact meaning of every file
//! operation the harness can issue, as a reference executor for twin
//! sessions.

use vstd::prelude::*;

use crate::commands::bytes_agree;
use crate::commands::Command;
use crate::outcome::ErrKind;

verus! {

/// The mathematical state of one open file: its bytes, and the handle's
/// current position. The position may lie past the end.
pub ghost struct FileModel {
    pub bytes: Seq<u8>,
    pub pos: nat,
}

/// A freshly created empty file, with the position at the start.
pub open spec fn empty_file() -> FileModel {
    FileModel { bytes: Seq::empty(), pos: 0 }
}

/// How many bytes a read of capacity `cap` at offset `at` returns: zero at
/// or past end-of-file, otherwise up to `cap` of the bytes that remain.
pub open spec fn read_len_at(bytes: Seq<u8>, at: nat, cap: nat) -> nat {
    if at >= bytes.len() {
        0
    } else if cap <= bytes.len() - at {
        cap
    } else {
        (bytes.len() - at) as nat
    }
}

/// The buffer a read of capacity `cap` at `at` leaves behind when it starts
/// zeroed: the bytes read, then zeros.
pub open spec fn read_buffer_at(bytes: Seq<u8>, at: nat, cap: nat) -> Seq<u8> {
    Seq::new(
        cap,
        |i: int|
            if i < read_len_at(bytes, at, cap) {
                bytes[at + i]
            } else {
                0u8
            },
    )
}

/// The bytes after writing `data` at offset `at`: the region is replaced, a
/// gap past the old end is zero-filled, and a zero-length write leaves the
/// bytes unchanged.
pub open spec fn write_bytes(bytes: Seq<u8>, at: nat, data: Seq<u8>) -> Seq<u8> {
    if data.len() == 0 {
        bytes
    } else {
        Seq::new(
            if bytes.len() >= at + data.len() {
                bytes.len()
            } else {
                at + data.len()
            },
            |i: int|
                if at <= i < at + data.len() {
                    data[i - at]
                } else if i < bytes.len() {
                    bytes[i]
                } else {
                    0u8
                },
        )
    }
}

/// The bytes after setting the exact length `n`: truncated, or
/// zero-extended.
pub open spec fn truncate_bytes(bytes: Seq<u8>, n: nat) -> Seq<u8> {
    Seq::new(
        n,
        |i: int|
            if i < bytes.len() {
                bytes[i]
            } else {
                0u8
            },
    )
}

/// What the payload drawn for one operation must look like: the write
/// variants draw exactly their length of fresh bytes, every other variant
/// draws nothing.
pub open spec fn payload_fits(c: Command, p: Seq<u8>) -> bool {
    match c {
        Command::Write(n) => p.len() == n@,
        Command::PWrite(_, n) => p.len() == n@,
        _ => p == Seq::<u8>::empty(),
    }
}

/// The file state after one operation with payload `p`.
pub open spec fn file_step(f: FileModel, c: Command, p: Seq<u8>) -> FileModel {
    match c {
        Command::Reopen => FileModel { bytes: f.bytes, pos: 0 },
        Command::Read(n) => FileModel {
            bytes: f.bytes,
            pos: f.pos + read_len_at(f.bytes, f.pos, n@),
        },
        Command::PRead(_, _) => f,
        Command::Write(_) => if f.pos + p.len() <= usize::MAX {
            FileModel { bytes: write_bytes(f.bytes, f.pos, p), pos: f.pos + p.len() }
        } else {
            f
        },
        Command::PWrite(off, _) => if off@ + p.len() <= usize::MAX {
            FileModel { bytes: write_bytes(f.bytes, off@, p), pos: f.pos }
        } else {
            f
        },
        Command::Seek(off) => FileModel { bytes: f.bytes, pos: off@ },
        Command::Truncate(n) => FileModel { bytes: truncate_bytes(f.bytes, n@), pos: f.pos },
        Command::Fsync => f,
        Command::Size => f,
    }
}

/// What one side observes for one operation: the compared result value —
/// failures by category — and the byte buffer a read produces. Unit
/// successes are observed as the value zero.
pub ghost struct Obs {
    pub res: Result<int, ErrKind>,
    pub data: Seq<u8>,
}

/// The observation one operation yields on a file in state `f` with
/// payload `p`.
pub open spec fn step_obs(f: FileModel, c: Command, p: Seq<u8>) -> Obs {
    match c {
        Command::Reopen => Obs { res: Ok(0), data: Seq::empty() },
        Command::Read(n) => Obs {
            res: Ok(read_len_at(f.bytes, f.pos, n@) as int),
            data: read_buffer_at(f.bytes, f.pos, n@),
        },
        Command::PRead(off, n) => Obs {
            res: Ok(read_len_at(f.bytes, off@, n@) as int),
            data: read_buffer_at(f.bytes, off@, n@),
        },
        Command::Write(_) => if f.pos + p.len() <= usize::MAX {
            Obs { res: Ok(p.len() as int), data: Seq::empty() }
        } else {
            Obs { res: Err(ErrKind::FileTooLarge), data: Seq::empty() }
        },
        Command::PWrite(off, _) => if off@ + p.len() <= usize::MAX {
            Obs { res: Ok(p.len() as int), data: Seq::empty() }
        } else {
            Obs { res: Err(ErrKind::FileTooLarge), data: Seq::empty() }
        },
        Command::Seek(off) => Obs { res: Ok(off@ as int), data: Seq::empty() },
        Command::Truncate(_) => Obs { res: Ok(0), data: Seq::empty() },
        Command::Fsync => Obs { res: Ok(0), data: Seq::empty() },
        Command::Size => Obs { res: Ok(f.bytes.len() as int), data: Seq::empty() },
    }
}

/// The comparator accepts the two observations: the results agree — equal
/// values, or equal failure categories — and the buffers agree wherever
/// both hold a byte.
pub open spec fn obs_agree(o1: Obs, o2: Obs) -> bool {
    &&& match (o1.res, o2.res) {
        (Ok(v1), Ok(v2)) => v1 == v2,
        (Err(e1), Err(e2)) => e1 == e2,
        _ => false,
    }
    &&& bytes_agree(o1.data, o2.data)
}

/// A zeroed buffer of the given length.
pub fn zero_vec(len: usize) -> (r: Vec<u8>)
    ensures
        r@ == Seq::new(len as nat, |i: int| 0u8),
{
    let mut v: Vec<u8> = Vec::new();
    while v.len() < len
        invariant
            v@.len() <= len,
            forall|j: int| 0 <= j < v@.len() ==> v@[j] == 0u8,
        decreases len - v@.len(),
    {
        v.push(0u8);
    }
    proof {
        assert(v@ =~= Seq::new(len as nat, |i: int| 0u8));
    }
    v
}

/// An in-memory file obeying the model semantics.
pub struct ModelFile {
    data: Vec<u8>,
    pos: usize,
}

impl View for ModelFile {
    type V = FileModel;

    closed spec fn view(&self) -> FileModel {
        FileModel { bytes: self.data@, pos: self.pos as nat }
    }
}

impl ModelFile {
    /// A freshly created empty file.
    pub fn new() -> (f: ModelFile)
        ensures
            f@ == empty_file(),
    {
        let f = ModelFile { data: Vec::new(), pos: 0 };
        proof {
            assert(f@.bytes =~= empty_file().bytes);
        }
        f
    }

    /// Close and reopen: the bytes survive, the position starts over.
    pub fn reopen(&mut self) -> (r: Result<(), ErrKind>)
        ensures
            r is Ok,
            final(self)@.bytes == old(self)@.bytes,
            final(self)@.pos == 0,
    {
        self.pos = 0;
        Ok(())
    }

    /// The number of bytes a read of capacity `cap` at `at` will return.
    fn read_span(&self, at: usize, cap: usize) -> (n: usize)
        ensures
            n == read_len_at(self@.bytes, at as nat, cap as nat),
            at + n <= self@.bytes.len() || n == 0,
            n <= cap,
    {
        if at >= self.data.len() {
            0
        } else if cap <= self.data.len() - at {
            cap
        } else {
            self.data.len() - at
        }
    }

    /// Copy the `n` bytes at `at` into the front of `buf`, leaving the rest
    /// of `buf` unchanged.
    fn copy_span(&self, buf: &mut Vec<u8>, at: usize, n: usize)
        requires
            n <= old(buf)@.len(),
            at + n <= self@.bytes.len() || n == 0,
        ensures
            final(buf)@.len() == old(buf)@.len(),
            forall|i: int| 0 <= i < n ==> final(buf)@[i] == self@.bytes[at + i],
            forall|i: int| n <= i < old(buf)@.len() ==> final(buf)@[i] == old(buf)@[i],
    {
        let total = self.data.len();
        let mut i: usize = 0;
        while i < n
            invariant
                i <= n,
                n <= buf@.len(),
                buf@.len() == old(buf)@.len(),
                total == self@.bytes.len(),
                at + n <= total || n == 0,
                forall|j: int| 0 <= j < i ==> buf@[j] == self@.bytes[at + j],
                forall|j: int| i <= j < old(buf)@.len() ==> buf@[j] == old(buf)@[j],
            decreases n - i,
        {
            let b = self.data[at + i];
            buf.set(i, b);
            i = i + 1;
        }
    }

    /// Read up to `buf.len()` bytes at the current position into the front
    /// of `buf`, advancing the position by the count returned.
    pub fn read(&mut self, buf: &mut Vec<u8>) -> (r: Result<usize, ErrKind>)
        ensures
            final(self)@.bytes == old(self)@.bytes,
            r matches Ok(n) && n == read_len_at(
                old(self)@.bytes,
                old(self)@.pos,
                old(buf)@.len(),
            ),
            final(self)@.pos == old(self)@.pos + read_len_at(
                old(self)@.bytes,
                old(self)@.pos,
                old(buf)@.len(),
            ),
            final(buf)@.len() == old(buf)@.len(),
            forall|i: int|
                0 <= i < read_len_at(old(self)@.bytes, old(self)@.pos, old(buf)@.len())
                    ==> final(buf)@[i] == old(self)@.bytes[old(self)@.pos + i],
            forall|i: int|
                read_len_at(old(self)@.bytes, old(self)@.pos, old(buf)@.len()) <= i < old(
                    buf,
                )@.len() ==> final(buf)@[i] == old(buf)@[i],
    {
        let total = self.data.len();
        let n = self.read_span(self.pos, buf.len());
        self.copy_span(buf, self.pos, n);
        proof {
            assert(self.pos + n <= total || n == 0);
        }
        self.pos = self.pos + n;
        Ok(n)
    }

    /// Read up to `buf.len()` bytes at `offset` into the front of `buf`;
    /// the position is unchanged.
    pub fn read_at(&self, buf: &mut Vec<u8>, offset: usize) -> (r: Result<usize, ErrKind>)
        ensures
            r matches Ok(n) && n == read_len_at(self@.bytes, offset as nat, old(buf)@.len()),
            final(buf)@.len() == old(buf)@.len(),
            forall|i: int|
                0 <= i < read_len_at(self@.bytes, offset as nat, old(buf)@.len())
                    ==> final(buf)@[i] == self@.bytes[offset + i],
            forall|i: int|
                read_len_at(self@.bytes, offset as nat, old(buf)@.len()) <= i < old(buf)@.len()
                    ==> final(buf)@[i] == old(buf)@[i],
    {
        let n = self.read_span(offset, buf.len());
        self.copy_span(buf, offset, n);
        Ok(n)
    }

    /// Replace the region at `at` with `data`, zero-filling any gap past the
    /// old end; the position is unchanged.
    fn write_span(&mut self, data: &Vec<u8>, at: usize)
        requires
            at + data@.len() <= usize::MAX,
        ensures
            final(self)@.bytes == write_bytes(old(self)@.bytes, at as nat, data@),
            final(self)@.pos == old(self)@.pos,
    {
        if data.len() == 0 {
            return ;
        }
        let end = at + data.len();
        while self.data.len() < end
            invariant
                old(self)@.bytes.len() <= self.data@.len(),
                self.data@.len() <= end || self.data@.len() == old(self)@.bytes.len(),
                self@.pos == old(self)@.pos,
                forall|j: int|
                    0 <= j < old(self)@.bytes.len() ==> self.data@[j] == old(self)@.bytes[j],
                forall|j: int|
                    old(self)@.bytes.len() <= j < self.data@.len() ==> self.data@[j] == 0u8,
            decreases end - self.data@.len(),
        {
            self.data.push(0u8);
        }
        let mut i: usize = 0;
        while i < data.len()
            invariant
                i <= data@.len(),
                at + data@.len() == end,
                end <= self.data@.len(),
                self.data@.len() == if old(self)@.bytes.len() >= end as nat {
                    old(self)@.bytes.len()
                } else {
                    end as nat
                },
                self@.pos == old(self)@.pos,
                forall|j: int|
                    0 <= j < at ==> self.data@[j] == (if j < old(self)@.bytes.len() {
                        old(self)@.bytes[j]
                    } else {
                        0u8
                    }),
                forall|j: int| 0 <= j < i ==> self.data@[at + j] == data@[j],
                forall|j: int|
                    at + i <= j < self.data@.len() ==> self.data@[j] == (if j < old(
                        self,
                    )@.bytes.len() {
                        old(self)@.bytes[j]
                    } else {
                        0u8
                    }),
            decreases data@.len() - i,
        {
            let b = data[i];
            self.data.set(at + i, b);
            i = i + 1;
        }
        proof {
            assert(self@.bytes =~= write_bytes(old(self)@.bytes, at as nat, data@));
        }
    }

    /// Write all of `data` at the current position, advancing it past the
    /// written region. Fails, leaving the file unchanged, only when the
    /// resulting position cannot be represented.
    pub fn write(&mut self, data: &Vec<u8>) -> (r: Result<usize, ErrKind>)
        ensures
            old(self)@.pos + data@.len() <= usize::MAX ==> ({
                &&& r matches Ok(n) && n == data@.len()
                &&& final(self)@.bytes == write_bytes(
                    old(self)@.bytes,
                    old(self)@.pos,
                    data@,
                )
                &&& final(self)@.pos == old(self)@.pos + data@.len()
            }),
            old(self)@.pos + data@.len() > usize::MAX ==> r == Err::<usize, ErrKind>(
                ErrKind::FileTooLarge,
            ) && final(self)@ == old(self)@,
    {
        let end = match self.pos.checked_add(data.len()) {
            Some(e) => e,
            None => {
                return Err(ErrKind::FileTooLarge);
            },
        };
        self.write_span(data, self.pos);
        self.pos = end;
        Ok(data.len())
    }

    /// Write all of `data` at `offset`; the position is unchanged. Fails,
    /// leaving the file unchanged, only when the end of the written region
    /// cannot be represented.
    pub fn write_at(&mut self, data: &Vec<u8>, offset: usize) -> (r: Result<usize, ErrKind>)
        ensures
            offset + data@.len() <= usize::MAX ==> ({
                &&& r matches Ok(n) && n == data@.len()
                &&& final(self)@.bytes == write_bytes(old(self)@.bytes, offset as nat, data@)
                &&& final(self)@.pos == old(self)@.pos
            }),
            offset + data@.len() > usize::MAX ==> r == Err::<usize, ErrKind>(
                ErrKind::FileTooLarge,
            ) && final(self)@ == old(self)@,
    {
        match offset.checked_add(data.len()) {
            Some(_) => {},
            None => {
                return Err(ErrKind::FileTooLarge);
            },
        }
        self.write_span(data, offset);
        Ok(data.len())
    }

    /// Set the position, counted from the start; a position past
    /// end-of-file succeeds.
    pub fn seek(&mut self, offset: usize) -> (r: Result<usize, ErrKind>)
        ensures
            r matches Ok(p) && p == offset,
            final(self)@.bytes == old(self)@.bytes,
            final(self)@.pos == offset as nat,
    {
        self.pos = offset;
        Ok(offset)
    }

    /// Set the exact length, zero-extending or discarding trailing bytes;
    /// the position is unchanged.
    pub fn set_len(&mut self, len: usize) -> (r: Result<(), ErrKind>)
        ensures
            r is Ok,
            final(self)@.bytes == truncate_bytes(old(self)@.bytes, len as nat),
            final(self)@.pos == old(self)@.pos,
    {
        if len <= self.data.len() {
            self.data.truncate(len);
        } else {
            while self.data.len() < len
                invariant
                    old(self)@.bytes.len() <= self.data@.len() <= len,
                    self@.pos == old(self)@.pos,
                    forall|j: int|
                        0 <= j < old(self)@.bytes.len() ==> self.data@[j] == old(
                            self,
                        )@.bytes[j],
                    forall|j: int|
                        old(self)@.bytes.len() <= j < self.data@.len() ==> self.data@[j]
                            == 0u8,
                decreases len - self.data@.len(),
            {
                self.data.push(0u8);
            }
        }
        proof {
            assert(self@.bytes =~= truncate_bytes(old(self)@.bytes, len as nat));
        }
        Ok(())
    }

    /// Force durability of prior writes; the model is always durable.
    pub fn sync_all(&self) -> (r: Result<(), ErrKind>)
        ensures
            r is Ok,
    {
        Ok(())
    }

    /// The byte length.
    pub fn size(&self) -> (r: Result<usize, ErrKind>)
        ensures
            r matches Ok(n) && n == self@.bytes.len(),
    {
        Ok(self.data.len())
    }
}

} // verus!

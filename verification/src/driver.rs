//! The case search driver's verified decisions: random sequence
//! generation, and the shrink candidates tried on a failing sequence.
//! Every candidate weighs strictly less than the sequence it came from, so
//! a shrink search that only ever moves to a reproducing candidate reaches
//! a local minimum after finitely many steps.

use vstd::prelude::*;

use crate::commands::{shrinks_to, Command};

verus! {

/// A well-founded measure of one operation: one, plus its magnitudes.
pub open spec fn cmd_weight(c: Command) -> nat {
    match c {
        Command::Reopen => 1,
        Command::Read(n) => 1 + n@,
        Command::PRead(a, b) => 1 + a@ + b@,
        Command::Write(n) => 1 + n@,
        Command::PWrite(a, b) => 1 + a@ + b@,
        Command::Seek(n) => 1 + n@,
        Command::Truncate(n) => 1 + n@,
        Command::Fsync => 1,
        Command::Size => 1,
    }
}

/// The measure of a sequence: the sum of its operations' measures.
pub open spec fn seq_weight(s: Seq<Command>) -> nat
    decreases s.len(),
{
    if s.len() == 0 {
        0
    } else {
        cmd_weight(s[0]) + seq_weight(s.drop_first())
    }
}

/// A shrink candidate weighs strictly less than the operation it shrinks.
pub proof fn lemma_shrink_lowers_weight(orig: Command, cand: Command)
    requires
        shrinks_to(orig, cand),
    ensures
        cmd_weight(cand) < cmd_weight(orig),
{
}

/// Dropping one operation takes exactly its weight out of the sequence.
pub proof fn lemma_seq_weight_remove(s: Seq<Command>, i: int)
    requires
        0 <= i < s.len(),
    ensures
        seq_weight(s.remove(i)) + cmd_weight(s[i]) == seq_weight(s),
    decreases s.len(),
{
    if i == 0 {
        assert(s.remove(0) =~= s.drop_first());
    } else {
        assert(s.remove(i)[0] == s[0]);
        assert(s.remove(i).drop_first() =~= s.drop_first().remove(i - 1));
        lemma_seq_weight_remove(s.drop_first(), i - 1);
    }
}

/// Replacing one operation trades its weight for the replacement's.
pub proof fn lemma_seq_weight_update(s: Seq<Command>, i: int, c: Command)
    requires
        0 <= i < s.len(),
    ensures
        seq_weight(s.update(i, c)) + cmd_weight(s[i]) == seq_weight(s) + cmd_weight(c),
    decreases s.len(),
{
    if i == 0 {
        assert(s.update(0, c)[0] == c);
        assert(s.update(0, c).drop_first() =~= s.drop_first());
    } else {
        assert(s.update(i, c)[0] == s[0]);
        assert(s.update(i, c).drop_first() =~= s.drop_first().update(i - 1, c));
        lemma_seq_weight_update(s.drop_first(), i - 1, c);
    }
}

/// A copy of a command list.
fn clone_commands(seq: &Vec<Command>) -> (r: Vec<Command>)
    ensures
        r@ == seq@,
{
    let mut out: Vec<Command> = Vec::new();
    let mut i: usize = 0;
    while i < seq.len()
        invariant
            i <= seq@.len(),
            out@.len() == i,
            forall|j: int| 0 <= j < i ==> out@[j] == seq@[j],
        decreases seq@.len() - i,
    {
        out.push(seq[i]);
        i = i + 1;
    }
    proof {
        assert(out@ =~= seq@);
    }
    out
}

/// Generate a random sequence of `len` operations, every magnitude below
/// `ceiling`.
pub fn generate_sequence(len: usize, ceiling: usize) -> (r: Vec<Command>)
    requires
        ceiling > 0,
    ensures
        r@.len() == len,
        forall|i: int| 0 <= i < r@.len() ==> (#[trigger] r@[i]).bounded(ceiling as nat),
{
    let mut out: Vec<Command> = Vec::new();
    while out.len() < len
        invariant
            ceiling > 0,
            out@.len() <= len,
            forall|i: int| 0 <= i < out@.len() ==> (#[trigger] out@[i]).bounded(ceiling as nat),
        decreases len - out@.len(),
    {
        out.push(Command::generate(ceiling));
    }
    out
}

/// Every way to make a failing sequence one step simpler: drop one
/// operation, or replace one operation by one of its shrink candidates
/// with the others held fixed. The first candidates are the eliminations,
/// one per operation in order; the replacements follow. Each candidate
/// weighs strictly less than the sequence it came from.
pub fn shrink_candidates(seq: &Vec<Command>) -> (r: Vec<Vec<Command>>)
    ensures
        forall|k: int| 0 <= k < r@.len() ==> seq_weight((#[trigger] r@[k])@) < seq_weight(seq@),
        r@.len() >= seq@.len(),
        forall|i: int| 0 <= i < seq@.len() ==> (#[trigger] r@[i])@ == seq@.remove(i),
{
    let mut out: Vec<Vec<Command>> = Vec::new();
    let mut i: usize = 0;
    while i < seq.len()
        invariant
            i <= seq@.len(),
            out@.len() == i,
            forall|j: int| 0 <= j < i ==> (#[trigger] out@[j])@ == seq@.remove(j),
            forall|k: int|
                0 <= k < out@.len() ==> seq_weight((#[trigger] out@[k])@) < seq_weight(seq@),
        decreases seq@.len() - i,
    {
        let mut shorter = clone_commands(seq);
        shorter.remove(i);
        proof {
            lemma_seq_weight_remove(seq@, i as int);
        }
        out.push(shorter);
        i = i + 1;
    }
    let mut i2: usize = 0;
    while i2 < seq.len()
        invariant
            i2 <= seq@.len(),
            out@.len() >= seq@.len(),
            forall|j: int| 0 <= j < seq@.len() ==> (#[trigger] out@[j])@ == seq@.remove(j),
            forall|k: int|
                0 <= k < out@.len() ==> seq_weight((#[trigger] out@[k])@) < seq_weight(seq@),
        decreases seq@.len() - i2,
    {
        let cands = seq[i2].shrink();
        let mut k: usize = 0;
        while k < cands.len()
            invariant
                i2 < seq@.len(),
                k <= cands@.len(),
                out@.len() >= seq@.len(),
                forall|j: int|
                    0 <= j < cands@.len() ==> shrinks_to(seq@[i2 as int], #[trigger] cands@[j]),
                forall|j: int| 0 <= j < seq@.len() ==> (#[trigger] out@[j])@ == seq@.remove(j),
                forall|k2: int|
                    0 <= k2 < out@.len() ==> seq_weight((#[trigger] out@[k2])@) < seq_weight(
                        seq@,
                    ),
            decreases cands@.len() - k,
        {
            let mut cand = clone_commands(seq);
            cand.set(i2, cands[k]);
            proof {
                lemma_shrink_lowers_weight(seq@[i2 as int], cands@[k as int]);
                lemma_seq_weight_update(seq@, i2 as int, cands@[k as int]);
            }
            out.push(cand);
            k = k + 1;
        }
        i2 = i2 + 1;
    }
    out
}

} // verus!

//! Twin sessions over the file model: the sequence runner, the regression
//! replayer, and the laws that hold of twin executions.

use vstd::prelude::*;

use crate::commands::Command;
use crate::model::{
    empty_file, file_step, obs_agree, payload_fits, step_obs, FileModel, ModelFile, Obs,
};
use crate::outcome::Divergence;

verus! {

/// Where a run stopped: the index of the first divergent step, and what
/// diverged there.
#[derive(Clone, Copy, Debug, PartialEq, Eq, Structural)]
pub struct RunFailure {
    pub step: usize,
    pub divergence: Divergence,
}

/// Payload sequences that fit a command sequence, one drawn per step.
pub open spec fn payloads_fit(cmds: Seq<Command>, ps: Seq<Seq<u8>>) -> bool {
    &&& ps.len() == cmds.len()
    &&& forall|i: int| 0 <= i < cmds.len() ==> payload_fits(cmds[i], #[trigger] ps[i])
}

/// The state a file reaches after a command sequence, one payload per step.
pub open spec fn run_state(f: FileModel, cmds: Seq<Command>, ps: Seq<Seq<u8>>) -> FileModel
    decreases cmds.len(),
{
    if cmds.len() == 0 {
        f
    } else {
        run_state(file_step(f, cmds[0], ps[0]), cmds.drop_first(), ps.drop_first())
    }
}

/// The comparator verdict of a twin run: the index of the first step whose
/// two observations disagree, if any step's do.
pub open spec fn twin_run(
    f1: FileModel,
    f2: FileModel,
    cmds: Seq<Command>,
    ps: Seq<Seq<u8>>,
) -> Option<nat>
    decreases cmds.len(),
{
    if cmds.len() == 0 {
        None
    } else if !obs_agree(step_obs(f1, cmds[0], ps[0]), step_obs(f2, cmds[0], ps[0])) {
        Some(0)
    } else {
        match twin_run(
            file_step(f1, cmds[0], ps[0]),
            file_step(f2, cmds[0], ps[0]),
            cmds.drop_first(),
            ps.drop_first(),
        ) {
            None => None,
            Some(k) => Some(k + 1),
        }
    }
}

/// The verdict of one replay of a fixed case against freshly provisioned
/// twin roots.
pub open spec fn replay_verdict(cmds: Seq<Command>, ps: Seq<Seq<u8>>) -> Option<nat> {
    twin_run(empty_file(), empty_file(), cmds, ps)
}

/// Equal observations always agree: equal values, equal categories, equal
/// buffers.
pub proof fn lemma_obs_agree_refl(o: Obs)
    ensures
        obs_agree(o, o),
{
}

/// Twin files in equal states never diverge: every step observes the same
/// outcome on both sides and keeps the states equal.
pub proof fn lemma_twin_run_equal(f: FileModel, cmds: Seq<Command>, ps: Seq<Seq<u8>>)
    ensures
        twin_run(f, f, cmds, ps) == None::<nat>,
    decreases cmds.len(),
{
    if cmds.len() > 0 {
        lemma_obs_agree_refl(step_obs(f, cmds[0], ps[0]));
        lemma_twin_run_equal(file_step(f, cmds[0], ps[0]), cmds.drop_first(), ps.drop_first());
    }
}

/// Replaying a fixed case yields the same comparator verdict on every
/// replay, although the write payloads are drawn fresh each time: from
/// freshly provisioned — hence equal — roots, the twin execution never
/// diverges, whatever payloads are drawn.
pub proof fn lemma_replay_verdict_stable(
    cmds: Seq<Command>,
    ps1: Seq<Seq<u8>>,
    ps2: Seq<Seq<u8>>,
)
    ensures
        replay_verdict(cmds, ps1) == replay_verdict(cmds, ps2),
{
    lemma_twin_run_equal(empty_file(), cmds, ps1);
    lemma_twin_run_equal(empty_file(), cmds, ps2);
}

/// After any sequence of writes — Write, PWrite or Truncate — applied to
/// twin files in equal states with shared payloads, a following Size
/// observes the same byte length on both sides, after the implicit sync.
pub proof fn lemma_twin_size_agrees(
    f1: FileModel,
    f2: FileModel,
    cmds: Seq<Command>,
    ps: Seq<Seq<u8>>,
)
    requires
        f1 == f2,
        forall|i: int|
            0 <= i < cmds.len() ==> (#[trigger] cmds[i] is Write || cmds[i] is PWrite
                || cmds[i] is Truncate),
    ensures
        run_state(f1, cmds, ps).bytes.len() == run_state(f2, cmds, ps).bytes.len(),
        step_obs(run_state(f1, cmds, ps), Command::Size, Seq::empty()) == step_obs(
            run_state(f2, cmds, ps),
            Command::Size,
            Seq::empty(),
        ),
{
}

/// A run of `cmds` with payloads `ps` diverges first at step `k`: no
/// earlier step's observations disagree, and step `k`'s do, taken from the
/// states the first `k` steps reach.
pub open spec fn run_diverged_at(
    f1: FileModel,
    f2: FileModel,
    cmds: Seq<Command>,
    ps: Seq<Seq<u8>>,
    k: int,
) -> bool {
    &&& 0 <= k < cmds.len()
    &&& ps.len() == k + 1
    &&& (forall|j: int| 0 <= j <= k ==> payload_fits(cmds[j], #[trigger] ps[j]))
    &&& twin_run(f1, f2, cmds.take(k), ps.take(k)) == None::<nat>
    &&& !obs_agree(
        step_obs(run_state(f1, cmds.take(k), ps.take(k)), cmds[k], ps[k]),
        step_obs(run_state(f2, cmds.take(k), ps.take(k)), cmds[k], ps[k]),
    )
}

/// A divergence-free run stays divergence-free when one more step whose
/// observations agree is appended.
pub proof fn lemma_twin_run_snoc(
    f1: FileModel,
    f2: FileModel,
    cmds: Seq<Command>,
    ps: Seq<Seq<u8>>,
    c: Command,
    p: Seq<u8>,
)
    requires
        cmds.len() == ps.len(),
        twin_run(f1, f2, cmds, ps) == None::<nat>,
        obs_agree(
            step_obs(run_state(f1, cmds, ps), c, p),
            step_obs(run_state(f2, cmds, ps), c, p),
        ),
    ensures
        twin_run(f1, f2, cmds.push(c), ps.push(p)) == None::<nat>,
    decreases cmds.len(),
{
    if cmds.len() == 0 {
        assert(run_state(f1, cmds, ps) == f1);
        assert(run_state(f2, cmds, ps) == f2);
        assert(cmds.push(c)[0] == c);
        assert(ps.push(p)[0] == p);
        assert(cmds.push(c).drop_first() =~= cmds);
        assert(ps.push(p).drop_first() =~= ps);
        assert(twin_run(file_step(f1, c, p), file_step(f2, c, p), cmds, ps) == None::<nat>);
    } else {
        assert(cmds.push(c)[0] == cmds[0]);
        assert(ps.push(p)[0] == ps[0]);
        assert(cmds.push(c).drop_first() =~= cmds.drop_first().push(c));
        assert(ps.push(p).drop_first() =~= ps.drop_first().push(p));
        lemma_twin_run_snoc(
            file_step(f1, cmds[0], ps[0]),
            file_step(f2, cmds[0], ps[0]),
            cmds.drop_first(),
            ps.drop_first(),
            c,
            p,
        );
    }
}

/// Appending one command to a run takes one more step from the state the
/// run reached.
pub proof fn lemma_run_state_snoc(
    f: FileModel,
    cmds: Seq<Command>,
    ps: Seq<Seq<u8>>,
    c: Command,
    p: Seq<u8>,
)
    requires
        cmds.len() == ps.len(),
    ensures
        run_state(f, cmds.push(c), ps.push(p)) == file_step(run_state(f, cmds, ps), c, p),
    decreases cmds.len(),
{
    if cmds.len() == 0 {
        assert(cmds.push(c)[0] == c);
        assert(ps.push(p)[0] == p);
        assert(cmds.push(c).drop_first() =~= cmds);
        assert(ps.push(p).drop_first() =~= ps);
        assert(run_state(f, cmds.push(c), ps.push(p)) == run_state(
            file_step(f, c, p),
            cmds,
            ps,
        ));
    } else {
        assert(cmds.push(c)[0] == cmds[0]);
        assert(ps.push(p)[0] == ps[0]);
        assert(cmds.push(c).drop_first() =~= cmds.drop_first().push(c));
        assert(ps.push(p).drop_first() =~= ps.drop_first().push(p));
        lemma_run_state_snoc(
            file_step(f, cmds[0], ps[0]),
            cmds.drop_first(),
            ps.drop_first(),
            c,
            p,
        );
    }
}

/// A twin pair of model files driven through one command sequence.
pub struct ModelSession {
    pub fd1: ModelFile,
    pub fd2: ModelFile,
}

impl ModelSession {
    /// Both sides are in the same state.
    pub open spec fn agree(&self) -> bool {
        self.fd1@ == self.fd2@
    }

    /// The state of the first side.
    pub open spec fn side1(&self) -> FileModel {
        self.fd1@
    }

    /// The state of the second side.
    pub open spec fn side2(&self) -> FileModel {
        self.fd2@
    }

    /// A freshly provisioned twin pair: two empty files.
    pub fn new() -> (s: ModelSession)
        ensures
            s.side1() == empty_file(),
            s.side2() == empty_file(),
            s.agree(),
    {
        ModelSession { fd1: ModelFile::new(), fd2: ModelFile::new() }
    }

    /// Apply the command list in order, validating each step with the
    /// comparator and stopping at the first divergence, which is reported
    /// with its step index. Twins in equal states never diverge. A
    /// completed run is one whose payload trace carries a divergence-free
    /// verdict, and it leaves each side in the state that trace
    /// prescribes; a failed run names the first step whose observations
    /// disagree.
    pub fn run(&mut self, commands: &Vec<Command>) -> (r: Result<(), RunFailure>)
        ensures
            old(self).agree() ==> r is Ok && final(self).agree(),
            r matches Err(f) ==> f.step < commands@.len(),
            r is Ok ==> exists|ps: Seq<Seq<u8>>|
                {
                    &&& #[trigger] payloads_fit(commands@, ps)
                    &&& twin_run(old(self).side1(), old(self).side2(), commands@, ps)
                        == None::<nat>
                    &&& final(self).side1() == run_state(old(self).side1(), commands@, ps)
                    &&& final(self).side2() == run_state(old(self).side2(), commands@, ps)
                },
            r matches Err(f) ==> exists|ps: Seq<Seq<u8>>, k: int|
                #[trigger] run_diverged_at(
                    old(self).side1(),
                    old(self).side2(),
                    commands@,
                    ps,
                    k,
                ) && k == f.step,
    {
        let ghost mut ps: Seq<Seq<u8>> = Seq::empty();
        let mut i: usize = 0;
        while i < commands.len()
            invariant
                i <= commands@.len(),
                ps.len() == i,
                forall|j: int| 0 <= j < i ==> payload_fits(commands@[j], #[trigger] ps[j]),
                twin_run(
                    old(self).side1(),
                    old(self).side2(),
                    commands@.take(i as int),
                    ps,
                ) == None::<nat>,
                self.fd1@ == run_state(old(self).side1(), commands@.take(i as int), ps),
                self.fd2@ == run_state(old(self).side2(), commands@.take(i as int), ps),
                old(self).agree() ==> self.agree(),
            decreases commands@.len() - i,
        {
            let cmd = commands[i];
            let ghost prev1 = self.fd1@;
            let ghost prev2 = self.fd2@;
            let ghost prev_ps = ps;
            let res = cmd.apply(&mut self.fd1, &mut self.fd2);
            proof {
                let p = choose|p: Seq<u8>|
                    {
                        &&& #[trigger] payload_fits(cmd, p)
                        &&& self.fd1@ == file_step(prev1, cmd, p)
                        &&& self.fd2@ == file_step(prev2, cmd, p)
                        &&& ((res is Ok) <==> obs_agree(
                            step_obs(prev1, cmd, p),
                            step_obs(prev2, cmd, p),
                        ))
                    };
                ps = ps.push(p);
                assert(commands@.take(i + 1) =~= commands@.take(i as int).push(cmd));
                assert(ps.take(i as int) =~= prev_ps);
                lemma_run_state_snoc(
                    old(self).side1(),
                    commands@.take(i as int),
                    prev_ps,
                    cmd,
                    p,
                );
                lemma_run_state_snoc(
                    old(self).side2(),
                    commands@.take(i as int),
                    prev_ps,
                    cmd,
                    p,
                );
                if res is Ok {
                    lemma_twin_run_snoc(
                        old(self).side1(),
                        old(self).side2(),
                        commands@.take(i as int),
                        prev_ps,
                        cmd,
                        p,
                    );
                } else {
                    assert(run_diverged_at(
                        old(self).side1(),
                        old(self).side2(),
                        commands@,
                        ps,
                        i as int,
                    ));
                }
            }
            match res {
                Ok(()) => {},
                Err(d) => {
                    proof {
                        assert(exists|w: Seq<Seq<u8>>, k: int|
                            #[trigger] run_diverged_at(
                                old(self).side1(),
                                old(self).side2(),
                                commands@,
                                w,
                                k,
                            ) && k == i as int);
                    }
                    return Err(RunFailure { step: i, divergence: d });
                },
            }
            i = i + 1;
        }
        proof {
            assert(commands@.take(commands@.len() as int) =~= commands@);
            assert(payloads_fit(commands@, ps));
        }
        Ok(())
    }
}

/// A named, fixed command sequence with literal magnitudes, kept as data
/// and re-executed by the regression replayer.
pub struct RegressionCase {
    pub name: String,
    pub commands: Vec<Command>,
}

/// Re-execute each fixed case against a freshly provisioned twin model
/// pair, fail-fast, reporting the index of the first failing case. Fresh
/// twins never diverge, so over the model every replay succeeds.
pub fn replay(cases: &Vec<RegressionCase>) -> (r: Result<(), usize>)
    ensures
        r is Ok,
{
    let mut i: usize = 0;
    while i < cases.len()
        invariant
            i <= cases@.len(),
        decreases cases@.len() - i,
    {
        let mut session = ModelSession::new();
        match session.run(&cases[i].commands) {
            Ok(()) => {},
            Err(_) => {
                proof {
                    assert(false);
                }
                return Err(i);
            },
        }
        i = i + 1;
    }
    Ok(())
}

} // verus!

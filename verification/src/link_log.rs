//! A runner of `gh-stack` that is known by what it has been asked.
use crate::config::GitHubConfig;
use crate::stack_link::{LinkOutcome, StackLinkRunner};
use vstd::prelude::*;

verus! {

/// A call of a runner, with its answer.
pub struct Asked {
    /// The PRs, bottom to top.
    pub prs: Seq<u64>,
    pub github: GitHubConfig,
    pub outcome: LinkOutcome,
}

/// That answer is one that the runner gives to that call.
pub open spec fn answers<R: StackLinkRunner>(runner: R, asked: Asked) -> bool {
    exists|prs: &Vec<u64>|
        prs@ == asked.prs && #[trigger] call_ensures(
            R::run,
            (&runner, prs, &asked.github),
            asked.outcome,
        )
}

/// A runner with all that it has been asked. As long as it is in here it can be reached only
/// through [`LoggedRunner::run`], so that no call goes unseen.
pub struct LoggedRunner<R> {
    runner: R,
    log: Ghost<Seq<Asked>>,
}

impl<R: StackLinkRunner> LoggedRunner<R> {
    /// The runner itself.
    pub closed spec fn inner(self) -> R {
        self.runner
    }

    /// Every call so far, in order.
    pub closed spec fn asked(self) -> Seq<Asked> {
        self.log@
    }

    /// Every answer is one that the runner gives.
    pub open spec fn wf(self) -> bool {
        forall|k: int|
            0 <= k < self.asked().len() ==> answers(self.inner(), #[trigger] self.asked()[k])
    }

    /// A runner that has been asked nothing yet.
    pub fn new(runner: R) -> (r: Self)
        ensures
            r.wf(),
            r.inner() == runner,
            r.asked() == Seq::<Asked>::empty(),
    {
        LoggedRunner { runner, log: Ghost(Seq::empty()) }
    }

    /// The runner itself, once nothing more is to be asked of it.
    pub fn into_inner(self) -> (r: R)
        ensures
            r == self.inner(),
    {
        self.runner
    }

    /// Asks the runner to link these PRs, bottom to top.
    pub fn run(&mut self, prs: &Vec<u64>, github: &GitHubConfig) -> (outcome: LinkOutcome)
        requires
            old(self).wf(),
        ensures
            final(self).wf(),
            final(self).inner() == old(self).inner(),
            final(self).asked() == old(self).asked().push(
                Asked { prs: prs@, github: *github, outcome },
            ),
    {
        let outcome = self.runner.run(prs, github);
        let ghost call = Asked { prs: prs@, github: *github, outcome };
        assert(answers(self.runner, call));
        let ghost before = self.log@;
        self.log = Ghost(self.log@.push(call));
        assert forall|k: int| 0 <= k < self.asked().len() implies answers(
            self.inner(),
            #[trigger] self.asked()[k],
        ) by {
            if k < before.len() {
                assert(old(self).asked()[k] == self.asked()[k]);
            }
        }
        outcome
    }
}

} // verus!

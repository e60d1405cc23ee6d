//! Request shape of the notification entry point and the two decisions it
//! takes before any work runs: which webhook a mode addresses, and which
//! workflows an empty request falls back to.

use vstd::prelude::*;

verus! {

/// Whether a run is a rehearsal or the real thing.
#[derive(Debug, Clone, Copy, PartialEq, Eq, Structural)]
pub enum Mode {
    Test,
    Production,
}

/// One of the two independent notification pipelines.
#[derive(Debug, Clone, Copy, PartialEq, Eq, Structural)]
pub enum Workflow {
    Benchapp,
    Daysmart,
}

/// One invocation's configuration, handed in whole rather than read from
/// the environment mid-computation.
#[derive(Debug, Clone)]
pub struct Request {
    pub mode: Mode,
    pub discord_hook_url: String,
    pub test_discord_hook_url: String,
    pub ical_url: String,
    pub team_id: String,
    pub workflows: Vec<Workflow>,
}

/// What one invocation reports back.
#[derive(Debug, Clone)]
pub struct Response {
    pub message: String,
}

impl Request {
    /// The webhook a run addresses: the test hook in test mode, the real
    /// hook in production.
    pub fn destination(&self) -> (r: &String)
        ensures
            self.mode is Test ==> r == &self.test_discord_hook_url,
            self.mode is Production ==> r == &self.discord_hook_url,
    {
        match self.mode {
            Mode::Test => &self.test_discord_hook_url,
            Mode::Production => &self.discord_hook_url,
        }
    }

    /// The workflows a run executes: those asked for, or the schedule
    /// pipeline alone when none were named.
    pub fn effective_workflows(&self) -> (r: Vec<Workflow>)
        ensures
            self.workflows@.len() == 0 ==> r@ =~= seq![Workflow::Daysmart],
            self.workflows@.len() > 0 ==> r@ == self.workflows@,
    {
        if self.workflows.len() == 0 {
            let mut v: Vec<Workflow> = Vec::new();
            v.push(Workflow::Daysmart);
            assert(v@ =~= seq![Workflow::Daysmart]);
            v
        } else {
            let n: usize = self.workflows.len();
            let mut v: Vec<Workflow> = Vec::new();
            let mut i: usize = 0;
            while i < n
                invariant
                    n == self.workflows@.len(),
                    i <= n,
                    v@ == self.workflows@.subrange(0, i as int),
                decreases n - i,
            {
                let w: Workflow = self.workflows[i];
                v.push(w);
                assert(self.workflows@.subrange(0, i + 1 as int) =~= self.workflows@.subrange(
                    0,
                    i as int,
                ).push(w));
                i += 1;
            }
            assert(self.workflows@.subrange(0, n as int) =~= self.workflows@);
            v
        }
    }
}

} // verus!

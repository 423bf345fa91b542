//! Why a job failed.

use vstd::prelude::*;

verus! {

/// Faults that a newer zombienet no longer has.
#[derive(Debug, Clone, Copy, PartialEq, Eq, Structural)]
pub enum Fixes {
    /// The version of Polkadot JS.
    PJS,
    /// The removal of the network.
    Deleting,
}

/// What made a job fail.
#[derive(Debug, Clone, Copy, PartialEq, Eq, Structural)]
pub enum Cause {
    /// Nobody has looked yet.
    Unchecked,
    /// The network was not deployed.
    ZombienetDeployment,
    /// The file server could not be resolved.
    FileServerDNSIssue,
    /// Zombienet did not start.
    Infra,
    /// The runner was killed.
    InfraKilled,
    /// A test of the job failed.
    Assertion,
    /// The branch is gone.
    AlreadyMerged,
    /// A rebase brings the fix.
    AlreadyFixedNeedsRebase(Fixes),
}

impl Default for Cause {
    fn default() -> (cause: Self)
        ensures
            cause == Cause::Unchecked,
    {
        Cause::Unchecked
    }
}

impl Cause {
    /// The name of a cause.
    pub open spec fn name(self) -> Seq<char> {
        match self {
            Cause::Unchecked => "Unchecked"@,
            Cause::ZombienetDeployment => "ZombienetDeployment"@,
            Cause::FileServerDNSIssue => "FileServerDNSIssue"@,
            Cause::Infra => "Infra"@,
            Cause::InfraKilled => "InfraKilled"@,
            Cause::Assertion => "Assertion"@,
            Cause::AlreadyMerged => "AlreadyMerged"@,
            Cause::AlreadyFixedNeedsRebase(Fixes::PJS) => "AlreadyFixedNeedsRebase_PJS"@,
            Cause::AlreadyFixedNeedsRebase(Fixes::Deleting) => "AlreadyFixedNeedsRebase_Deleting"@,
        }
    }

    /// A cause as it is printed: its name between double quotes.
    pub open spec fn printed(self) -> Seq<char> {
        seq!['"'] + self.name() + seq!['"']
    }

    /// The cause as text: its name between double quotes.
    pub fn to_string(&self) -> (text: String)
        ensures
            text@ == self.printed(),
    {
        let name = match self {
            Cause::Unchecked => "Unchecked",
            Cause::ZombienetDeployment => "ZombienetDeployment",
            Cause::FileServerDNSIssue => "FileServerDNSIssue",
            Cause::Infra => "Infra",
            Cause::InfraKilled => "InfraKilled",
            Cause::Assertion => "Assertion",
            Cause::AlreadyMerged => "AlreadyMerged",
            Cause::AlreadyFixedNeedsRebase(Fixes::PJS) => "AlreadyFixedNeedsRebase_PJS",
            Cause::AlreadyFixedNeedsRebase(Fixes::Deleting) => "AlreadyFixedNeedsRebase_Deleting",
        };
        proof {
            reveal_strlit("\"");
        }
        let mut text = "\"".to_owned();
        text.append(name);
        text.append("\"");
        assert(text@ =~= self.printed());
        text
    }
}

/// Different causes are printed differently.
pub proof fn lemma_printed_tells_causes_apart(a: Cause, b: Cause)
    requires
        a.printed() == b.printed(),
    ensures
        a == b,
{
    reveal_strlit("Unchecked");
    reveal_strlit("ZombienetDeployment");
    reveal_strlit("FileServerDNSIssue");
    reveal_strlit("Infra");
    reveal_strlit("InfraKilled");
    reveal_strlit("Assertion");
    reveal_strlit("AlreadyMerged");
    reveal_strlit("AlreadyFixedNeedsRebase_PJS");
    reveal_strlit("AlreadyFixedNeedsRebase_Deleting");
    assert(a.printed().len() == a.name().len() + 2);
    assert(b.printed().len() == b.name().len() + 2);
    assert(a.printed()[1] == a.name()[0]);
    assert(b.printed()[1] == b.name()[0]);
}

} // verus!

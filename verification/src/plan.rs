//! Transaction plans: the ordered install and remove steps that a
//! resolution produces and the executor applies.

use vstd::prelude::*;

use crate::package_info::{PackageInfo, PackageInfoV};
use crate::text::clone_strings;

verus! {

impl Clone for PackageInfo {
    /// A clone carries every field over unchanged.
    fn clone(&self) -> (r: Self)
        ensures
            r@ == self@,
    {
        let r = PackageInfo {
            name: self.name.clone(),
            version: self.version.clone(),
            architecture: self.architecture.clone(),
            description: self.description.clone(),
            dependencies: clone_strings(&self.dependencies),
            conflicts: clone_strings(&self.conflicts),
            provides: clone_strings(&self.provides),
            replaces: clone_strings(&self.replaces),
            size: self.size,
            installed_size: self.installed_size,
            maintainer: self.maintainer.clone(),
            homepage: match &self.homepage {
                Some(h) => Some(h.clone()),
                None => None,
            },
            section: self.section.clone(),
            priority: self.priority.clone(),
            filename: self.filename.clone(),
            md5sum: self.md5sum.clone(),
            sha256: self.sha256.clone(),
        };
        r
    }
}

/// One install step: the chosen record and the repository it came from.
#[derive(Debug)]
pub struct InstallStep {
    pub record: PackageInfo,
    pub repo_name: String,
    pub priority: i32,
}

/// Mathematical image of an `InstallStep`.
pub ghost struct InstallStepV {
    pub record: PackageInfoV,
    pub repo_name: Seq<char>,
    pub priority: i32,
}

impl View for InstallStep {
    type V = InstallStepV;

    open spec fn view(&self) -> InstallStepV {
        InstallStepV { record: self.record@, repo_name: self.repo_name@, priority: self.priority }
    }
}

impl DeepView for InstallStep {
    type V = InstallStepV;

    open spec fn deep_view(&self) -> InstallStepV {
        self@
    }
}

impl Clone for InstallStep {
    /// A clone carries every field over unchanged.
    fn clone(&self) -> (r: Self)
        ensures
            r@ == self@,
    {
        InstallStep {
            record: self.record.clone(),
            repo_name: self.repo_name.clone(),
            priority: self.priority,
        }
    }
}

/// One step of a transaction plan.
#[derive(Debug)]
pub enum Step {
    Install(InstallStep),
    Remove(String),
}

/// Mathematical image of a `Step`.
pub ghost enum StepV {
    Install(InstallStepV),
    Remove(Seq<char>),
}

impl View for Step {
    type V = StepV;

    open spec fn view(&self) -> StepV {
        match self {
            Step::Install(s) => StepV::Install(s@),
            Step::Remove(n) => StepV::Remove(n@),
        }
    }
}

impl DeepView for Step {
    type V = StepV;

    open spec fn deep_view(&self) -> StepV {
        self@
    }
}

/// The ordered steps of one transaction.
#[derive(Debug)]
pub struct TransactionPlan {
    pub steps: Vec<Step>,
}

impl View for TransactionPlan {
    type V = Seq<StepV>;

    open spec fn view(&self) -> Seq<StepV> {
        self.steps.deep_view()
    }
}

impl TransactionPlan {
    /// A plan with no steps.
    pub fn new() -> (r: Self)
        ensures
            r@ == Seq::<StepV>::empty(),
    {
        let r = TransactionPlan { steps: Vec::new() };
        proof {
            assert(r@ =~= Seq::<StepV>::empty());
        }
        r
    }

    /// How many steps the plan holds.
    pub fn len(&self) -> (r: usize)
        ensures
            r == self@.len(),
    {
        proof {
            assert(self@.len() == self.steps@.len());
        }
        self.steps.len()
    }
}

} // verus!

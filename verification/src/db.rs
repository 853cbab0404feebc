//! The build targets of a workspace: which of them belong to the project itself, and which
//! one is examined.

use crate::args::{choice_of, choose_target, names_of, Args, ChooseError};
use crate::utils::TargetKind;
use vstd::prelude::*;

verus! {

/// A build target of a package: its name, the path of its root file, and its kind.
pub struct Target {
    pub name: String,
    pub root: String,
    pub kind: TargetKind,
}

/// A package of the workspace, as far as the choice of a target reads it.
pub struct Package {
    /// Whether the package belongs to the project, as opposed to its dependencies.
    pub is_local: bool,
    pub targets: Vec<Target>,
}

impl Target {
    /// A copy of the target.
    pub fn duplicate(&self) -> (copy: Target)
        ensures
            copy == *self,
    {
        Target { name: self.name.clone(), root: self.root.clone(), kind: self.kind }
    }
}

/// The targets of the local packages, in the order of the packages and, within a package,
/// of its targets.
pub open spec fn local_targets(packages: Seq<Package>) -> Seq<Target>
    decreases packages.len(),
{
    if packages.len() == 0 {
        Seq::empty()
    } else {
        let before = local_targets(packages.drop_last());
        let package = packages.last();
        if package.is_local {
            before + package.targets@
        } else {
            before
        }
    }
}

/// The targets of the local packages.
pub fn get_targets(packages: &[Package]) -> (targets: Vec<Target>)
    ensures
        targets@ == local_targets(packages@),
{
    let mut targets: Vec<Target> = Vec::new();
    let mut i: usize = 0;
    while i < packages.len()
        invariant
            i <= packages.len(),
            targets@ == local_targets(packages@.take(i as int)),
        decreases packages.len() - i,
    {
        let package = &packages[i];
        let ghost before = targets@;
        proof {
            let upto = packages@.take(i + 1);
            assert(upto.drop_last() =~= packages@.take(i as int));
            assert(upto.last() == packages[i as int]);
        }
        if package.is_local {
            let mut j: usize = 0;
            while j < package.targets.len()
                invariant
                    j <= package.targets.len(),
                    targets@ == before + package.targets@.take(j as int),
                decreases package.targets.len() - j,
            {
                targets.push(package.targets[j].duplicate());
                assert(targets@ =~= before + package.targets@.take(j + 1));
                j += 1;
            }
            assert(package.targets@.take(package.targets.len() as int) =~= package.targets@);
        }
        i += 1;
    }
    assert(packages@.take(packages.len() as int) =~= packages@);
    targets
}

/// The target to examine among those of the local packages.
pub fn get_target(args: &Args, packages: &[Package]) -> (chosen: Result<Target, ChooseError>)
    ensures
        match chosen {
            Ok(target) => choice_of(
                args.filter_view(),
                names_of(local_targets(packages@)),
            ) matches Ok(index) && target == local_targets(packages@)[index],
            Err(error) => choice_of(args.filter_view(), names_of(local_targets(packages@)))
                == Err::<int, ChooseError>(error),
        },
{
    let targets = get_targets(packages);
    match choose_target(args, targets.as_slice()) {
        Ok(target) => Ok(target.duplicate()),
        Err(error) => Err(error),
    }
}

} // verus!

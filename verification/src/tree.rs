//! Source trees: where a tree comes from, where it stands on disk, how it
//! is patched and built, and where its patch marker lies.

use crate::commands::{
    edk2_build_steps, edk2_steps, qemu_build_steps, qemu_steps, step_views, BuildStep,
    BuildStepView,
};
use crate::patch::{
    edk2_substitutions, qemu_substitutions, table_view, views_of, Substitution, SubstitutionView,
    EDK2_SUBSTITUTIONS, QEMU_SUBSTITUTIONS,
};
use vstd::prelude::*;
use vstd::string::StringExecFns;

verus! {

/// How a tree is patched: by substitutions applied in order, or by one diff
/// applied to the whole tree.
#[derive(Clone, Debug)]
pub enum PatchSpec {
    Substitutions(Vec<Substitution>),
    Diff(Vec<u8>),
}

/// What a `PatchSpec` holds, as sequences.
pub enum PatchSpecView {
    Substitutions(Seq<SubstitutionView>),
    Diff(Seq<u8>),
}

impl View for PatchSpec {
    type V = PatchSpecView;

    open spec fn view(&self) -> PatchSpecView {
        match self {
            PatchSpec::Substitutions(subs) => PatchSpecView::Substitutions(views_of(subs@)),
            PatchSpec::Diff(bytes) => PatchSpecView::Diff(bytes@),
        }
    }
}

/// One upstream project: its remote location, the directory of its tree,
/// the tag that is checked out, its patch, its name, and the steps of its
/// build.
#[derive(Clone, Debug)]
pub struct SourceTree {
    pub url: String,
    pub path: String,
    pub tag: String,
    pub patch: PatchSpec,
    pub name: String,
    pub build: Vec<BuildStep>,
}

/// What a `SourceTree` holds, as sequences.
pub struct SourceTreeView {
    pub url: Seq<char>,
    pub path: Seq<char>,
    pub tag: Seq<char>,
    pub patch: PatchSpecView,
    pub name: Seq<char>,
    pub build: Seq<BuildStepView>,
}

impl View for SourceTree {
    type V = SourceTreeView;

    open spec fn view(&self) -> SourceTreeView {
        SourceTreeView {
            url: self.url@,
            path: self.path@,
            tag: self.tag@,
            patch: self.patch@,
            name: self.name@,
            build: step_views(self.build@),
        }
    }
}

impl SourceTreeView {
    /// The substitutions of the tree's patch; none where the patch is a diff.
    pub open spec fn substitutions(self) -> Seq<SubstitutionView> {
        match self.patch {
            PatchSpecView::Substitutions(subs) => subs,
            PatchSpecView::Diff(_) => Seq::empty(),
        }
    }

    /// Whether an index of the machine can count the substitutions and the
    /// build steps of the tree. This holds of the view of every `SourceTree`.
    pub open spec fn countable(self) -> bool {
        self.substitutions().len() <= usize::MAX && self.build.len() <= usize::MAX
    }

    /// The path of the tree's patch marker: the file in the tree's directory
    /// that is named after the tree.
    pub open spec fn marker(self) -> Seq<char> {
        self.path + "/"@ + self.name + "_patch_marker"@
    }

    /// The question put to the operator where the tree's directory exists.
    pub open spec fn prompt(self) -> Seq<char> {
        "Would you like to re-clone the "@ + self.name + " GitHub repository? (y/N)"@
    }
}

impl SourceTree {
    /// The substitutions and the build steps of a tree can be counted.
    pub proof fn lemma_countable(&self)
        ensures
            self@.countable(),
    {
        match self.patch {
            PatchSpec::Substitutions(subs) => {
                assert(views_of(subs@).len() == subs.len());
            },
            PatchSpec::Diff(_) => {},
        }
        assert(step_views(self.build@).len() == self.build.len());
    }

    /// The number of substitutions of the tree's patch.
    pub fn substitution_count(&self) -> (n: usize)
        ensures
            n == self@.substitutions().len(),
    {
        match &self.patch {
            PatchSpec::Substitutions(subs) => subs.len(),
            PatchSpec::Diff(_) => 0,
        }
    }

    /// The path of the tree's patch marker.
    pub fn marker_path(&self) -> (out: String)
        ensures
            out@ == self@.marker(),
    {
        let mut out = self.path.clone();
        out.append("/");
        out.append(self.name.as_str());
        out.append("_patch_marker");
        out
    }

    /// The question put to the operator where the tree's directory exists.
    pub fn prompt(&self) -> (out: String)
        ensures
            out@ == self@.prompt(),
    {
        let mut out = "Would you like to re-clone the ".to_owned();
        out.append(self.name.as_str());
        out.append(" GitHub repository? (y/N)");
        out
    }
}

/// The hypervisor tree, built with `threads` jobs.
pub open spec fn qemu(threads: nat) -> SourceTreeView {
    SourceTreeView {
        url: "https://github.com/qemu/qemu.git"@,
        path: "./qemu/"@,
        tag: "v8.0.3"@,
        patch: PatchSpecView::Substitutions(table_view(QEMU_SUBSTITUTIONS@)),
        name: "qemu"@,
        build: qemu_steps(threads),
    }
}

/// The hypervisor tree, built with `threads` jobs.
pub fn qemu_tree(threads: usize) -> (out: SourceTree)
    ensures
        out@ == qemu(threads as nat),
{
    SourceTree {
        url: "https://github.com/qemu/qemu.git".to_owned(),
        path: "./qemu/".to_owned(),
        tag: "v8.0.3".to_owned(),
        patch: PatchSpec::Substitutions(qemu_substitutions()),
        name: "qemu".to_owned(),
        build: qemu_build_steps(threads),
    }
}

/// The firmware tree, built with `threads` jobs.
pub open spec fn edk2(threads: nat) -> SourceTreeView {
    SourceTreeView {
        url: "https://github.com/tianocore/edk2.git"@,
        path: "./edk2/"@,
        tag: "edk2-stable202011"@,
        patch: PatchSpecView::Substitutions(table_view(EDK2_SUBSTITUTIONS@)),
        name: "edk2"@,
        build: edk2_steps(threads),
    }
}

/// The firmware tree, built with `threads` jobs.
pub fn edk2_tree(threads: usize) -> (out: SourceTree)
    ensures
        out@ == edk2(threads as nat),
{
    SourceTree {
        url: "https://github.com/tianocore/edk2.git".to_owned(),
        path: "./edk2/".to_owned(),
        tag: "edk2-stable202011".to_owned(),
        patch: PatchSpec::Substitutions(edk2_substitutions()),
        name: "edk2".to_owned(),
        build: edk2_build_steps(threads),
    }
}

} // verus!

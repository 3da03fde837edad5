//! The command lines that build the two trees and that install the packages
//! of the host. The library only writes them down; running them is the
//! caller's part.

use crate::number::{decimal, push_decimal};
use vstd::prelude::*;

verus! {

/// A program and its arguments.
#[derive(Clone, Debug)]
pub struct CommandLine {
    pub program: String,
    pub args: Vec<String>,
}

/// What a `CommandLine` holds, as character sequences.
pub struct CommandLineView {
    pub program: Seq<char>,
    pub args: Seq<Seq<char>>,
}

/// The character sequences of a sequence of strings, in order.
pub open spec fn texts(strings: Seq<String>) -> Seq<Seq<char>> {
    Seq::new(strings.len(), |i: int| strings[i]@)
}

impl View for CommandLine {
    type V = CommandLineView;

    open spec fn view(&self) -> CommandLineView {
        CommandLineView { program: self.program@, args: texts(self.args@) }
    }
}

/// One step of a build: a command, and the directory below the root of the
/// tree in which it runs. An empty `subdir` is the root itself.
#[derive(Clone, Debug)]
pub struct BuildStep {
    pub command: CommandLine,
    pub subdir: String,
}

/// What a `BuildStep` holds, as character sequences.
pub struct BuildStepView {
    pub command: CommandLineView,
    pub subdir: Seq<char>,
}

impl View for BuildStep {
    type V = BuildStepView;

    open spec fn view(&self) -> BuildStepView {
        BuildStepView { command: self.command@, subdir: self.subdir@ }
    }
}

/// The views of a sequence of build steps, in order.
pub open spec fn step_views(steps: Seq<BuildStep>) -> Seq<BuildStepView> {
    Seq::new(steps.len(), |i: int| steps[i]@)
}

/// The flag that asks `make` for `threads` jobs at a time.
pub open spec fn jobs_flag(threads: nat) -> Seq<char> {
    "-j"@ + decimal(threads)
}

/// The flag that asks `make` for `threads` jobs at a time.
pub fn jobs_argument(threads: usize) -> (out: String)
    ensures
        out@ == jobs_flag(threads as nat),
{
    let mut out = "-j".to_owned();
    push_decimal(&mut out, threads);
    out
}

/// The step that builds the base tools with `threads` jobs, at the root of
/// the tree.
pub open spec fn base_tools_step(threads: nat) -> BuildStepView {
    BuildStepView {
        command: CommandLineView {
            program: "make"@,
            args: seq![jobs_flag(threads), "-C"@, "BaseTools"@],
        },
        subdir: ""@,
    }
}

/// The step that builds the base tools with `threads` jobs.
pub fn make_base_tools(threads: usize) -> (out: BuildStep)
    ensures
        out@ == base_tools_step(threads as nat),
{
    let mut args: Vec<String> = Vec::new();
    args.push(jobs_argument(threads));
    args.push("-C".to_owned());
    args.push("BaseTools".to_owned());
    assert(texts(args@) == seq![jobs_flag(threads as nat), "-C"@, "BaseTools"@]);
    BuildStep {
        command: CommandLine { program: "make".to_owned(), args },
        subdir: "".to_owned(),
    }
}

/// The steps that build the hypervisor: configure, then make.
pub open spec fn qemu_steps(threads: nat) -> Seq<BuildStepView> {
    seq![
        BuildStepView {
            command: CommandLineView {
                program: "./configure"@,
                args: seq!["--enable-spice"@, "--disable-werror"@],
            },
            subdir: ""@,
        },
        base_tools_step(threads),
    ]
}

/// The steps that build the hypervisor with `threads` jobs.
pub fn qemu_build_steps(threads: usize) -> (out: Vec<BuildStep>)
    ensures
        step_views(out@) == qemu_steps(threads as nat),
{
    let mut args: Vec<String> = Vec::new();
    args.push("--enable-spice".to_owned());
    args.push("--disable-werror".to_owned());
    assert(texts(args@) == seq!["--enable-spice"@, "--disable-werror"@]);
    let configure = BuildStep {
        command: CommandLine { program: "./configure".to_owned(), args },
        subdir: "".to_owned(),
    };
    let mut out: Vec<BuildStep> = Vec::new();
    out.push(configure);
    out.push(make_base_tools(threads));
    assert(step_views(out@) == qemu_steps(threads as nat));
    out
}

/// The steps that build the firmware: the base tools, the set-up script, and
/// the build of the target in its own directory.
pub open spec fn edk2_steps(threads: nat) -> Seq<BuildStepView> {
    seq![
        base_tools_step(threads),
        BuildStepView {
            command: CommandLineView { program: ". edksetup.sh"@, args: Seq::empty() },
            subdir: ""@,
        },
        BuildStepView {
            command: CommandLineView {
                program: ". build.sh"@,
                args: seq![
                    "-p"@,
                    "./OvmfPkgX64.dsc"@,
                    "-a"@,
                    "X64"@,
                    "-b"@,
                    "RELEASE"@,
                    "-t"@,
                    "GCC5"@,
                ],
            },
            subdir: "OvmfPkg"@,
        },
    ]
}

/// The steps that build the firmware with `threads` jobs.
pub fn edk2_build_steps(threads: usize) -> (out: Vec<BuildStep>)
    ensures
        step_views(out@) == edk2_steps(threads as nat),
{
    let setup = BuildStep {
        command: CommandLine { program: ". edksetup.sh".to_owned(), args: Vec::new() },
        subdir: "".to_owned(),
    };
    assert(texts(setup.command.args@) == Seq::<Seq<char>>::empty());
    let mut args: Vec<String> = Vec::new();
    args.push("-p".to_owned());
    args.push("./OvmfPkgX64.dsc".to_owned());
    args.push("-a".to_owned());
    args.push("X64".to_owned());
    args.push("-b".to_owned());
    args.push("RELEASE".to_owned());
    args.push("-t".to_owned());
    args.push("GCC5".to_owned());
    assert(texts(args@) == seq![
        "-p"@,
        "./OvmfPkgX64.dsc"@,
        "-a"@,
        "X64"@,
        "-b"@,
        "RELEASE"@,
        "-t"@,
        "GCC5"@,
    ]);
    let target = BuildStep {
        command: CommandLine { program: ". build.sh".to_owned(), args },
        subdir: "OvmfPkg".to_owned(),
    };
    let mut out: Vec<BuildStep> = Vec::new();
    out.push(make_base_tools(threads));
    out.push(setup);
    out.push(target);
    assert(step_views(out@) == edk2_steps(threads as nat));
    out
}

/// The command that installs `packages`: every package is installed again
/// where it is there already, and no question is asked.
pub open spec fn install_line(packages: Seq<Seq<char>>) -> CommandLineView {
    CommandLineView { program: "apt"@, args: seq!["install"@, "--reinstall"@, "-y"@] + packages }
}

/// The command that installs `packages`.
pub fn install_command(packages: &[&str]) -> (out: CommandLine)
    ensures
        out@ == install_line(Seq::new(packages@.len(), |i: int| packages@[i]@)),
{
    let mut args: Vec<String> = Vec::new();
    args.push("install".to_owned());
    args.push("--reinstall".to_owned());
    args.push("-y".to_owned());
    let mut i: usize = 0;
    while i < packages.len()
        invariant
            i <= packages.len(),
            args.len() == 3 + i,
            args@[0]@ == "install"@,
            args@[1]@ == "--reinstall"@,
            args@[2]@ == "-y"@,
            forall|k: int| 3 <= k < 3 + i ==> (#[trigger] args@[k])@ == packages@[k - 3]@,
        decreases packages.len() - i,
    {
        args.push(packages[i].to_owned());
        i += 1;
    }
    assert(texts(args@) == seq!["install"@, "--reinstall"@, "-y"@] + Seq::new(
        packages@.len(),
        |i: int| packages@[i]@,
    ));
    CommandLine { program: "apt".to_owned(), args }
}

} // verus!

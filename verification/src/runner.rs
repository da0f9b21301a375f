//! The decisions of the integration-test runner: what its command-line
//! values mean, what to write into the guest's initramfs list and kernel
//! command line, and how to read what the guest prints. Starting processes
//! and reading their output is the caller's part.

use vstd::prelude::*;
use vstd::slice::*;
use vstd::string::{StrSliceExecFns, StringExecFns, StringSliceAdditionalSpecFns};
use crate::text::{
    append, contains, copy_of, cut_once, find, occurs_at, same, split, split_on, split_once,
    starts_at, trim, trimmed,
};

verus! {

/// A command-line value that does not have the form that is asked for.
#[derive(Clone, Copy, Debug, PartialEq, Eq, Structural)]
pub struct InvalidInput;

/// The position of the first `c` in `s` at or behind `from`.
pub open spec fn index_of(s: Seq<char>, c: char, from: int) -> Option<int>
    decreases s.len() - from,
{
    if from < 0 || from >= s.len() {
        None
    } else if s[from] == c {
        Some(from)
    } else {
        index_of(s, c, from + 1)
    }
}

/// The two parts of `<image>:<modules>`: `s` holds exactly one `:`, and the
/// parts are what stands before and behind it.
pub open spec fn image_and_modules(s: Seq<char>) -> Option<(Seq<char>, Seq<char>)> {
    match index_of(s, ':', 0) {
        None => None,
        Some(i) => if index_of(s, ':', i + 1) is Some {
            None
        } else {
            Some((s.subrange(0, i), s.subrange(i + 1, s.len() as int)))
        },
    }
}

/// Finds the first `c` in `s` at or behind `from`.
fn find_char(s: &str, c: char, from: usize, len: usize) -> (r: Option<usize>)
    requires
        len == s@.len(),
        from <= len,
    ensures
        match r {
            Some(i) => index_of(s@, c, from as int) == Some(i as int) && from <= i < len,
            None => index_of(s@, c, from as int) is None,
        },
{
    let mut i: usize = from;
    while i < len
        invariant
            from <= i <= len == s@.len(),
            index_of(s@, c, from as int) == index_of(s@, c, i as int),
        decreases len - i,
    {
        if s.get_char(i) == c {
            return Some(i);
        }
        i += 1;
    }
    None
}

/// Reads a kernel image and its modules directory from
/// `</path/to/image/vmlinuz>:</path/to/lib/modules>`.
///
/// Succeeds if and only if `s` holds exactly one `:`.
pub fn parse_image_and_modules(s: &str) -> (r: Result<(String, String), InvalidInput>)
    ensures
        match r {
            Ok((image, modules)) => image_and_modules(s@) == Some((image@, modules@)),
            Err(_) => image_and_modules(s@) is None,
        },
{
    let len = s.unicode_len();
    let first = match find_char(s, ':', 0, len) {
        Some(i) => i,
        None => {
            return Err(InvalidInput);
        },
    };
    if find_char(s, ':', first + 1, len).is_some() {
        return Err(InvalidInput);
    }
    let image = String::from_str(s.substring_char(0, first));
    let modules = String::from_str(s.substring_char(first + 1, len));
    Ok((image, modules))
}

/// Whether a process ended well: it ended by itself, with the code `0`.
pub fn succeeded(code: Option<i32>) -> (r: bool)
    ensures
        r == (code == Some(0i32)),
{
    match code {
        Some(c) => c == 0,
        None => false,
    }
}

/// Whether the cache is in a state that is worth a warning: the tool is
/// gone and the tag that was saved with it is still there.
pub fn cache_mismatch(tool_exists: bool, etag_exists: bool) -> (r: bool)
    ensures
        r == (!tool_exists && etag_exists),
{
    !tool_exists && etag_exists
}

/// The program and the arguments of a runner command such as `sudo -E`:
/// the command without the white space at its ends, cut at each blank.
/// `None` where nothing is left.
pub open spec fn runner_command(runner: Seq<u8>) -> Option<(Seq<u8>, Seq<Seq<u8>>)> {
    let command = trim(runner);
    if command.len() == 0 {
        None
    } else {
        let pieces = split(command, 0x20);
        Some((pieces[0], pieces.subrange(1, pieces.len() as int)))
    }
}

/// Cuts a runner command into its program and its arguments.
pub fn split_runner(runner: &[u8]) -> (r: Option<(Vec<u8>, Vec<Vec<u8>>)>)
    ensures
        match r {
            Some((program, args)) => runner_command(runner@) == Some(
                (program@, args@.map_values(|a: Vec<u8>| a@)),
            ),
            None => runner_command(runner@) is None,
        },
{
    let command = trimmed(runner);
    if command.len() == 0 {
        return None;
    }
    let mut pieces = split_on(command.as_slice(), 0x20);
    let ghost all = pieces@.map_values(|a: Vec<u8>| a@);
    let program = pieces.remove(0);
    proof {
        assert(pieces@.map_values(|a: Vec<u8>| a@) =~= all.subrange(1, all.len() as int));
    }
    Some((program, pieces))
}

/// The architecture that `file --brief` reports for a kernel image: what
/// stands between `Linux kernel` and the next `boot executable`, without
/// the white space at its ends.
pub open spec fn reported_arch(output: Seq<u8>) -> Option<Seq<u8>> {
    match split_once(output, "Linux kernel".spec_bytes()) {
        None => None,
        Some((_, behind)) => match split_once(behind, "boot executable".spec_bytes()) {
            None => None,
            Some((between, _)) => Some(trim(between)),
        },
    }
}

/// Reads the guest architecture from the output of `file --brief` on a
/// kernel image, which looks like
/// `Linux kernel ARM64 boot executable Image, little-endian, 4K pages`.
pub fn guest_arch(output: &[u8]) -> (r: Option<Vec<u8>>)
    ensures
        match r {
            Some(arch) => reported_arch(output@) == Some(arch@),
            None => reported_arch(output@) is None,
        },
{
    let (_, behind) = match cut_once(output, "Linux kernel".as_bytes()) {
        Some(parts) => parts,
        None => {
            return None;
        },
    };
    let (between, _) = match cut_once(behind.as_slice(), "boot executable".as_bytes()) {
        Some(parts) => parts,
        None => {
            return None;
        },
    };
    Some(trimmed(between.as_slice()))
}

/// How a guest of one architecture is started.
#[derive(Clone, Debug, PartialEq, Eq)]
pub struct Guest {
    /// The architecture as the tool chain and QEMU name it.
    pub arch: Vec<u8>,
    /// The machine to ask QEMU for, where the default will not do.
    pub machine: Option<&'static str>,
    /// The CPU to ask QEMU for, where the default will not do.
    pub cpu: Option<&'static str>,
    /// The guest's serial console.
    pub console: &'static str,
}

impl Guest {
    /// Picks the guest for the architecture that `file` reported: `ARM64`
    /// is `aarch64` on the machine `virt` with the CPU `max` and the console
    /// `ttyAMA0`; `x86` is `x86_64`; any other architecture keeps its name.
    /// For all but `ARM64` the console is `ttyS0` and QEMU's defaults stand.
    pub fn of(reported: &[u8]) -> (g: Guest)
        ensures
            reported@ == "ARM64".spec_bytes() ==> {
                &&& g.arch@ == "aarch64".spec_bytes()
                &&& g.machine == Some("virt")
                &&& g.cpu == Some("max")
                &&& g.console == "ttyAMA0"
            },
            reported@ != "ARM64".spec_bytes() ==> {
                &&& g.machine is None
                &&& g.cpu is None
                &&& g.console == "ttyS0"
            },
            reported@ != "ARM64".spec_bytes() && reported@ == "x86".spec_bytes() ==> g.arch@
                == "x86_64".spec_bytes(),
            reported@ != "ARM64".spec_bytes() && reported@ != "x86".spec_bytes() ==> g.arch@
                == reported@,
    {
        if same(reported, "ARM64".as_bytes()) {
            Guest {
                arch: slice_to_vec("aarch64".as_bytes()),
                machine: Some("virt"),
                cpu: Some("max"),
                console: "ttyAMA0",
            }
        } else if same(reported, "x86".as_bytes()) {
            Guest {
                arch: slice_to_vec("x86_64".as_bytes()),
                machine: None,
                cpu: None,
                console: "ttyS0",
            }
        } else {
            Guest { arch: slice_to_vec(reported), machine: None, cpu: None, console: "ttyS0" }
        }
    }

    /// Returns the target triple to build the guest's programs for.
    pub fn target(&self) -> (t: Vec<u8>)
        ensures
            t@ == self.arch@ + "-unknown-linux-musl".spec_bytes(),
    {
        let mut t: Vec<u8> = Vec::new();
        append(&mut t, self.arch.as_slice());
        append(&mut t, "-unknown-linux-musl".as_bytes());
        assert(t@ =~= self.arch@ + "-unknown-linux-musl".spec_bytes());
        t
    }

    /// Returns the name of the QEMU program that runs the guest.
    pub fn qemu(&self) -> (t: Vec<u8>)
        ensures
            t@ == "qemu-system-".spec_bytes() + self.arch@,
    {
        let mut t: Vec<u8> = Vec::new();
        append(&mut t, "qemu-system-".as_bytes());
        append(&mut t, self.arch.as_slice());
        assert(t@ =~= "qemu-system-".spec_bytes() + self.arch@);
        t
    }
}

/// The line that puts the directory `path` into the initramfs.
pub open spec fn dir_entry(path: Seq<u8>) -> Seq<u8> {
    "dir ".spec_bytes() + path + " ".spec_bytes() + "755 0 0\n".spec_bytes()
}

/// The line that puts the file `source` into the initramfs as `path`, with
/// the mode and owners `mode`.
pub open spec fn file_entry(path: Seq<u8>, source: Seq<u8>, mode: Seq<u8>) -> Seq<u8> {
    "file ".spec_bytes() + path + " ".spec_bytes() + source + " ".spec_bytes() + mode
        + "\n".spec_bytes()
}

/// Returns the initramfs list line for the directory `path`.
pub fn dir_line(path: &[u8]) -> (line: Vec<u8>)
    ensures
        line@ == dir_entry(path@),
{
    let mut line: Vec<u8> = Vec::new();
    append(&mut line, "dir ".as_bytes());
    append(&mut line, path);
    append(&mut line, " ".as_bytes());
    append(&mut line, "755 0 0\n".as_bytes());
    assert(line@ =~= dir_entry(path@));
    line
}

/// Returns the initramfs list line for the file `source`, to stand at
/// `path` with the mode and owners `mode`.
pub fn file_line(path: &[u8], source: &[u8], mode: &[u8]) -> (line: Vec<u8>)
    ensures
        line@ == file_entry(path@, source@, mode@),
{
    let mut line: Vec<u8> = Vec::new();
    append(&mut line, "file ".as_bytes());
    append(&mut line, path);
    append(&mut line, " ".as_bytes());
    append(&mut line, source);
    append(&mut line, " ".as_bytes());
    append(&mut line, mode);
    append(&mut line, "\n".as_bytes());
    assert(line@ =~= file_entry(path@, source@, mode@));
    line
}

/// ` init.arg=<arg>` for each of the first `n` arguments, in order.
pub open spec fn init_args(run_args: Seq<Seq<u8>>, n: nat) -> Seq<u8>
    decreases n,
{
    if n == 0 {
        Seq::empty()
    } else {
        init_args(run_args, (n - 1) as nat) + " ".spec_bytes() + "init.arg".spec_bytes()
            + "=".spec_bytes() + run_args[n - 1]
    }
}

/// The kernel command line of the guest: the console, one `init.arg` for
/// each argument of the tests, and `noapic`.
pub open spec fn kernel_command_line(console: Seq<u8>, run_args: Seq<Seq<u8>>) -> Seq<u8> {
    "console".spec_bytes() + "=".spec_bytes() + console + init_args(run_args, run_args.len())
        + " noapic".spec_bytes()
}

/// Returns the kernel command line of the guest.
pub fn kernel_args(console: &[u8], run_args: &[Vec<u8>]) -> (line: Vec<u8>)
    ensures
        line@ == kernel_command_line(console@, run_args@.map_values(|a: Vec<u8>| a@)),
{
    let ghost args = run_args@.map_values(|a: Vec<u8>| a@);
    let mut line: Vec<u8> = Vec::new();
    append(&mut line, "console".as_bytes());
    append(&mut line, "=".as_bytes());
    append(&mut line, console);
    let ghost head = line@;
    let mut i: usize = 0;
    proof {
        assert(line@ =~= head + init_args(args, 0));
    }
    while i < run_args.len()
        invariant
            i <= run_args@.len(),
            args == run_args@.map_values(|a: Vec<u8>| a@),
            line@ == head + init_args(args, i as nat),
        decreases run_args@.len() - i,
    {
        append(&mut line, " ".as_bytes());
        append(&mut line, "init.arg".as_bytes());
        append(&mut line, "=".as_bytes());
        append(&mut line, run_args[i].as_slice());
        i += 1;
        proof {
            assert(args[i - 1] == run_args@[i - 1]@);
            assert(line@ =~= head + init_args(args, i as nat));
        }
    }
    append(&mut line, " noapic".as_bytes());
    assert(line@ =~= kernel_command_line(console@, args));
    line
}

/// The text that marks a guest that hangs.
pub open spec fn marker(i: int) -> Seq<u8> {
    if i == 0 {
        "end Kernel panic".spec_bytes()
    } else if i == 1 {
        "rcu: RCU grace-period kthread stack dump:".spec_bytes()
    } else {
        "watchdog: BUG: soft lockup".spec_bytes()
    }
}

/// How often a marker may be seen before the guest is given up: a soft
/// lockup once, the others never.
pub open spec fn marker_limit(i: int) -> nat {
    if i == 2 {
        1
    } else {
        0
    }
}

/// The first of the markers that `line` holds.
pub open spec fn first_marker(line: Seq<u8>) -> Option<int> {
    if contains(line, marker(0)) {
        Some(0)
    } else if contains(line, marker(1)) {
        Some(1)
    } else if contains(line, marker(2)) {
        Some(2)
    } else {
        None
    }
}

/// Counts the signs that a guest hangs.
#[derive(Clone, Copy, Debug, PartialEq, Eq)]
pub struct HangDetector {
    /// How often each marker was seen.
    pub counts: [usize; 3],
}

impl HangDetector {
    /// Returns the text of the marker `i`.
    pub fn marker_text(i: usize) -> (text: &'static str)
        ensures
            text.spec_bytes() == marker(i as int),
    {
        if i == 0 {
            "end Kernel panic"
        } else if i == 1 {
            "rcu: RCU grace-period kthread stack dump:"
        } else {
            "watchdog: BUG: soft lockup"
        }
    }

    /// Returns how often the marker `i` may be seen before the guest is
    /// given up.
    pub fn limit(i: usize) -> (max: usize)
        ensures
            max == marker_limit(i as int),
    {
        if i == 2 {
            1
        } else {
            0
        }
    }

    /// Makes a detector that has seen nothing.
    pub fn new() -> (d: HangDetector)
        ensures
            d.counts@ == seq![0usize, 0usize, 0usize],
    {
        let d = HangDetector { counts: [0, 0, 0] };
        assert(d.counts@ =~= seq![0usize, 0usize, 0usize]);
        d
    }

    /// Takes note of one line of the guest's output.
    ///
    /// A line that holds a marker counts for the first marker that it
    /// holds (a count that is full stays full). Returns that marker where
    /// it has now been seen more often than its limit: the guest is then to
    /// be terminated.
    pub fn observe(&mut self, line: &[u8]) -> (terminate: Option<usize>)
        ensures
            match first_marker(line@) {
                None => terminate is None && final(self).counts@ == old(self).counts@,
                Some(i) => {
                    let seen = if old(self).counts@[i] < usize::MAX {
                        (old(self).counts@[i] + 1) as usize
                    } else {
                        usize::MAX
                    };
                    &&& final(self).counts@ == old(self).counts@.update(i, seen)
                    &&& terminate == if seen > marker_limit(i) {
                        Some(i as usize)
                    } else {
                        None
                    }
                },
            },
    {
        let i: usize = if find(line, "end Kernel panic".as_bytes()).is_some() {
            0
        } else if find(line, "rcu: RCU grace-period kthread stack dump:".as_bytes()).is_some() {
            1
        } else if find(line, "watchdog: BUG: soft lockup".as_bytes()).is_some() {
            2
        } else {
            return None;
        };
        let limit: usize = if i == 2 {
            1
        } else {
            0
        };
        let seen: usize = if self.counts[i] < usize::MAX {
            self.counts[i] + 1
        } else {
            usize::MAX
        };
        self.counts[i] = seen;
        if seen > limit {
            Some(i)
        } else {
            None
        }
    }
}

/// How the tests in a guest ended.
#[derive(Clone, Copy, Debug, PartialEq, Eq, Structural)]
pub enum Outcome {
    Success,
    Failure,
}

/// What is wrong with the guest's reports.
#[derive(Clone, Debug, PartialEq, Eq)]
pub enum InitError {
    /// A report that is neither `success` nor `failure`, with its text.
    Unexpected { output: Vec<u8> },
    /// A second report.
    Multiple { previous: Outcome, current: Outcome },
    /// The guest ended without a report.
    DidNotExit,
}

/// What a line of the guest's output reports: nothing, unless the line
/// starts with `init: `; else the outcome that follows, or the text that
/// follows where it names no outcome.
pub open spec fn init_report(line: Seq<u8>) -> Option<Result<Outcome, Seq<u8>>> {
    let prefix = "init: ".spec_bytes();
    if occurs_at(line, prefix, 0) {
        let report = line.subrange(prefix.len() as int, line.len() as int);
        if report == "success".spec_bytes() {
            Some(Ok(Outcome::Success))
        } else if report == "failure".spec_bytes() {
            Some(Ok(Outcome::Failure))
        } else {
            Some(Err(report))
        }
    } else {
        None
    }
}

/// Takes note of one line of the guest's output.
///
/// A line that reports an outcome makes it the known outcome. It is an
/// error if one was known already, and if a report names no outcome.
pub fn track_init(outcome: &mut Option<Outcome>, line: &[u8]) -> (r: Result<(), InitError>)
    ensures
        match init_report(line@) {
            None => r is Ok && *final(outcome) == *old(outcome),
            Some(Err(text)) => {
                &&& r matches Err(InitError::Unexpected { output })
                &&& output@ == text
                &&& *final(outcome) == *old(outcome)
            },
            Some(Ok(current)) => {
                &&& *final(outcome) == Some(current)
                &&& match *old(outcome) {
                    None => r is Ok,
                    Some(previous) => r == Err::<(), InitError>(
                        InitError::Multiple { previous, current },
                    ),
                }
            },
        },
{
    let prefix = "init: ".as_bytes();
    if !starts_at(line, 0, prefix) {
        return Ok(());
    }
    let report = copy_of(line, prefix.len(), line.len());
    let current = if same(report.as_slice(), "success".as_bytes()) {
        Outcome::Success
    } else if same(report.as_slice(), "failure".as_bytes()) {
        Outcome::Failure
    } else {
        return Err(InitError::Unexpected { output: report });
    };
    let previous = *outcome;
    *outcome = Some(current);
    match previous {
        None => Ok(()),
        Some(previous) => Err(InitError::Multiple { previous, current }),
    }
}

/// The verdict on a guest that has ended: whether its tests succeeded. It
/// is an error if the guest never reported.
pub fn verdict(outcome: Option<Outcome>) -> (r: Result<bool, InitError>)
    ensures
        match outcome {
            None => r == Err::<bool, InitError>(InitError::DidNotExit),
            Some(o) => r == Ok::<bool, InitError>(o is Success),
        },
{
    match outcome {
        None => Err(InitError::DidNotExit),
        Some(Outcome::Success) => Ok(true),
        Some(Outcome::Failure) => Ok(false),
    }
}

} // verus!

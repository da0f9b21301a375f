//! Kernel space probes: the bookkeeping of a probe program. The kernel
//! itself is asked by the caller, who hands its answers in.

use libc::pid_t;
use vstd::prelude::*;
use vstd::string::StringExecFns;

verus! {

/// The kind of a probe.
#[derive(Clone, Copy, Debug, PartialEq, Eq, Hash, Structural)]
pub enum ProbeKind {
    /// Attached to the start of a kernel function.
    KProbe,
    /// Attached to the return address of a kernel function.
    KRetProbe,
    /// Attached to the start of a user space function.
    UProbe,
    /// Attached to the return address of a user space function.
    URetProbe,
}

impl ProbeKind {
    /// Whether probes of this kind fire when the target function returns.
    pub open spec fn on_return(self) -> bool {
        self is KRetProbe || self is URetProbe
    }

    /// Returns whether probes of this kind fire when the target function
    /// returns.
    pub fn is_return(self) -> (r: bool)
        ensures
            r == self.on_return(),
    {
        match self {
            ProbeKind::KRetProbe | ProbeKind::URetProbe => true,
            _ => false,
        }
    }
}

/// What went wrong with a file that a probe needs.
#[derive(Clone, Debug, PartialEq, Eq)]
pub enum KProbeError {
    /// The file `filename` could not be read; `io_error` is the code that
    /// the operating system gave, where it gave one.
    FileError { filename: String, io_error: Option<i32> },
}

impl KProbeError {
    /// The text of [`KProbeError::message`]: the file's name between two
    /// backticks.
    pub open spec fn message_text(self) -> Seq<char> {
        match self {
            KProbeError::FileError { filename, io_error } => "`"@ + filename@ + "`"@,
        }
    }

    /// Returns the message of this error.
    pub fn message(&self) -> (s: String)
        ensures
            s@ == self.message_text(),
    {
        match self {
            KProbeError::FileError { filename, io_error } => {
                let mut s = String::from_str("`");
                s.append(filename.as_str());
                s.append("`");
                s
            },
        }
    }
}

/// Why an operation on a program failed.
#[derive(Clone, Debug, PartialEq, Eq)]
pub enum ProgramError {
    /// The program is already loaded.
    AlreadyLoaded,
    /// The program is not loaded.
    NotLoaded,
    /// The kernel refused the program, with this error code.
    LoadError { code: i32 },
    /// A call into the kernel failed; `io_error` is the code that the
    /// operating system gave, where it gave one.
    SyscallError { call: String, io_error: Option<i32> },
    /// A file that the probe needs could not be read.
    KProbeError(KProbeError),
}

/// What is known of a program: its name, the descriptor under which the
/// kernel holds it once it is loaded, and the descriptors of its links.
#[derive(Clone, Debug, PartialEq, Eq)]
pub struct ProgramData {
    pub name: String,
    pub fd: Option<i32>,
    pub links: Vec<i32>,
}

/// A link of a program to a target, known by its position among the
/// program's links.
#[derive(Clone, Copy, Debug, PartialEq, Eq, Hash, Structural)]
pub struct LinkRef {
    pub index: usize,
}

/// A kernel probe.
///
/// Kernel probes are programs that can be attached to almost any function
/// inside the kernel: a `kprobe` to the start of the target function, a
/// `kretprobe` to its return address.
#[derive(Clone, Debug, PartialEq, Eq)]
pub struct KProbe {
    pub data: ProgramData,
    pub kind: ProbeKind,
}

impl KProbe {
    /// Makes a probe that is not loaded yet.
    pub fn new(name: String, kind: ProbeKind) -> (probe: KProbe)
        ensures
            probe.data.name == name,
            probe.data.fd is None,
            probe.data.links@.len() == 0,
            probe.kind == kind,
    {
        KProbe { data: ProgramData { name, fd: None, links: Vec::new() }, kind }
    }

    /// Returns whether the program is loaded.
    pub fn is_loaded(&self) -> (r: bool)
        ensures
            r == self.data.fd is Some,
    {
        self.data.fd.is_some()
    }

    /// Records the kernel's answer to the request to load the program.
    ///
    /// A program that is already loaded stays as it is, and the call fails
    /// with `AlreadyLoaded`: ask [`KProbe::is_loaded`] before asking the
    /// kernel. Otherwise `answer` is the descriptor that the kernel gave,
    /// or its error code.
    pub fn load(&mut self, answer: Result<i32, i32>) -> (r: Result<(), ProgramError>)
        ensures
            final(self).data.name == old(self).data.name,
            final(self).data.links == old(self).data.links,
            final(self).kind == old(self).kind,
            match (old(self).data.fd, answer) {
                (Some(_), _) => r == Err::<(), ProgramError>(ProgramError::AlreadyLoaded)
                    && final(self).data.fd == old(self).data.fd,
                (None, Ok(fd)) => r == Ok::<(), ProgramError>(())
                    && final(self).data.fd == Some(fd),
                (None, Err(code)) => r == Err::<(), ProgramError>(ProgramError::LoadError { code })
                    && final(self).data.fd is None,
            },
    {
        if self.data.fd.is_some() {
            return Err(ProgramError::AlreadyLoaded);
        }
        match answer {
            Ok(fd) => {
                self.data.fd = Some(fd);
                Ok(())
            },
            Err(code) => Err(ProgramError::LoadError { code }),
        }
    }

    /// Returns the name of the program.
    pub fn name(&self) -> (name: String)
        ensures
            name@ == self.data.name@,
    {
        self.data.name.clone()
    }

    /// Returns `KProbe` if the program is a `kprobe`, or `KRetProbe` if the
    /// program is a `kretprobe`.
    pub fn kind(&self) -> (kind: ProbeKind)
        ensures
            kind == self.kind,
    {
        self.kind
    }

    /// Records the attachment of the program to the function `fn_name`.
    ///
    /// `perf_fd` is the descriptor of the probe event that the caller
    /// opened for `fn_name`, `offset` and `pid` and attached the program
    /// to, or why that failed. A program that is not loaded cannot be
    /// attached: ask [`KProbe::is_loaded`] before asking the kernel. On
    /// success the descriptor is the program's newest link, and the
    /// reference to it comes back; a failure is handed on as it is.
    pub fn attach(
        &mut self,
        fn_name: &str,
        offset: u64,
        pid: Option<pid_t>,
        perf_fd: Result<i32, ProgramError>,
    ) -> (r: Result<LinkRef, ProgramError>)
        ensures
            final(self).data.name == old(self).data.name,
            final(self).data.fd == old(self).data.fd,
            final(self).kind == old(self).kind,
            match (old(self).data.fd, perf_fd) {
                (None, _) => r == Err::<LinkRef, ProgramError>(ProgramError::NotLoaded)
                    && final(self).data.links@ == old(self).data.links@,
                (Some(_), Err(e)) => r == Err::<LinkRef, ProgramError>(e)
                    && final(self).data.links@ == old(self).data.links@,
                (Some(_), Ok(fd)) => r == Ok::<LinkRef, ProgramError>(
                    LinkRef { index: old(self).data.links@.len() as usize },
                ) && final(self).data.links@ == old(self).data.links@.push(fd),
            },
    {
        if self.data.fd.is_none() {
            return Err(ProgramError::NotLoaded);
        }
        match perf_fd {
            Err(e) => Err(e),
            Ok(fd) => {
                let index = self.data.links.len();
                self.data.links.push(fd);
                Ok(LinkRef { index })
            },
        }
    }
}

} // verus!

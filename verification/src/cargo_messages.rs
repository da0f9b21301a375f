//! Reading what `cargo build --message-format=json` reports: each line of
//! its output is a message, and each message asks for one step.

use cargo_metadata::Message;
use vstd::prelude::*;
use vstd::slice::*;
use vstd::string::StringSliceAdditionalSpecFns;
use vstd::utf8::encode_utf8;
use crate::text::{append, split, split_on};

verus! {

/// What one line of cargo's output reports, as far as the build needs it.
#[derive(Clone, Debug, PartialEq, Eq)]
pub enum BuildMessage {
    /// The compiler made an artifact for the target `name`; `executable` is
    /// the path of the program, where the artifact is one.
    CompilerArtifact { name: String, executable: Option<String> },
    /// The compiler wants to display a message; `rendered` is the message
    /// as the compiler would print it.
    CompilerMessage { rendered: Option<String> },
    /// A line of text that is no message.
    TextLine(String),
    /// Any other message.
    Other,
}

/// A message as a mathematical value.
pub enum BuildMessageView {
    CompilerArtifact { name: Seq<char>, executable: Option<Seq<char>> },
    CompilerMessage { rendered: Option<Seq<char>> },
    TextLine(Seq<char>),
    Other,
}

impl View for BuildMessage {
    type V = BuildMessageView;

    open spec fn view(&self) -> BuildMessageView {
        match self {
            BuildMessage::CompilerArtifact { name, executable } => {
                BuildMessageView::CompilerArtifact {
                    name: name@,
                    executable: match executable {
                        Some(path) => Some(path@),
                        None => None,
                    },
                }
            },
            BuildMessage::CompilerMessage { rendered } => BuildMessageView::CompilerMessage {
                rendered: match rendered {
                    Some(text) => Some(text@),
                    None => None,
                },
            },
            BuildMessage::TextLine(text) => BuildMessageView::TextLine(text@),
            BuildMessage::Other => BuildMessageView::Other,
        }
    }
}

/// The deepest nesting of arrays and objects that the reader is asked to
/// follow. The reader follows the nesting of its input with its own stack,
/// without a limit of its own.
pub const MAX_NESTING: usize = 127;

/// Where a scan for brackets stands: how many arrays and objects are open,
/// how many were open at most, and whether the scan is inside a string, and
/// there behind a backslash.
pub struct Scan {
    pub open: nat,
    pub deepest: nat,
    pub in_string: bool,
    pub escaped: bool,
}

/// The scan after one more byte. Inside a string only its end counts, and a
/// byte behind a backslash never ends it; outside, `[` and `{` open and `]`
/// and `}` close.
pub open spec fn scan_step(s: Scan, b: u8) -> Scan {
    if s.in_string {
        if s.escaped {
            Scan { open: s.open, deepest: s.deepest, in_string: true, escaped: false }
        } else if b == 0x5c {
            Scan { open: s.open, deepest: s.deepest, in_string: true, escaped: true }
        } else if b == 0x22 {
            Scan { open: s.open, deepest: s.deepest, in_string: false, escaped: false }
        } else {
            s
        }
    } else if b == 0x22 {
        Scan { open: s.open, deepest: s.deepest, in_string: true, escaped: false }
    } else if b == 0x5b || b == 0x7b {
        Scan {
            open: s.open + 1,
            deepest: if s.open + 1 > s.deepest {
                s.open + 1
            } else {
                s.deepest
            },
            in_string: false,
            escaped: false,
        }
    } else if (b == 0x5d || b == 0x7d) && s.open > 0 {
        Scan { open: (s.open - 1) as nat, deepest: s.deepest, in_string: false, escaped: false }
    } else {
        s
    }
}

/// The scan after all of `text`.
pub open spec fn scan_of(text: Seq<u8>) -> Scan
    decreases text.len(),
{
    if text.len() == 0 {
        Scan { open: 0, deepest: 0, in_string: false, escaped: false }
    } else {
        scan_step(scan_of(text.drop_last()), text.last())
    }
}

/// How deeply arrays and objects are nested in `text`, at most.
pub open spec fn nesting(text: Seq<u8>) -> nat {
    scan_of(text).deepest
}

/// Returns how deeply arrays and objects are nested in `text`, at most.
pub fn nesting_of(text: &[u8]) -> (deepest: usize)
    ensures
        deepest == nesting(text@),
{
    let mut open: usize = 0;
    let mut deepest: usize = 0;
    let mut in_string = false;
    let mut escaped = false;
    let mut i: usize = 0;
    proof {
        assert(text@.take(0) =~= Seq::<u8>::empty());
    }
    while i < text.len()
        invariant
            i <= text@.len(),
            open <= deepest <= i,
            escaped ==> in_string,
            scan_of(text@.take(i as int)) == (Scan {
                open: open as nat,
                deepest: deepest as nat,
                in_string,
                escaped,
            }),
        decreases text@.len() - i,
    {
        proof {
            assert(text@.take(i + 1).drop_last() =~= text@.take(i as int));
            assert(text@.take(i + 1).last() == text@[i as int]);
        }
        let b = text[i];
        if in_string {
            if escaped {
                escaped = false;
            } else if b == 0x5c {
                escaped = true;
            } else if b == 0x22 {
                in_string = false;
            }
        } else if b == 0x22 {
            in_string = true;
        } else if b == 0x5b || b == 0x7b {
            open += 1;
            if open > deepest {
                deepest = open;
            }
        } else if (b == 0x5d || b == 0x7d) && open > 0 {
            open -= 1;
        }
        i += 1;
    }
    proof {
        assert(text@.take(i as int) =~= text@);
    }
    deepest
}

/// The first message that `cargo_metadata` reads from `text`; `None` where
/// it reads none.
pub uninterp spec fn cargo_message(text: Seq<char>) -> Option<BuildMessageView>;

/// Reads the first message from `text` with
/// `cargo_metadata::Message::parse_stream`.
///
/// Nothing is proved of this function. Its contract only gives the result a
/// name: the same text always reads as the same message. Of the message it
/// keeps the target's name and the executable of an artifact, the rendered
/// text of a compiler message, and a line of text as it is. Text that is
/// nested more deeply than [`MAX_NESTING`] is kept from the reader, whose
/// stack grows with the nesting.
#[verifier::external_body]
fn read_message(text: &str) -> (message: Option<BuildMessage>)
    requires
        nesting(text.spec_bytes()) <= MAX_NESTING,
    ensures
        cargo_message(text@) == match message {
            Some(m) => Some(m@),
            None => None,
        },
{
    match Message::parse_stream(text.as_bytes()).next()? {
        Ok(Message::CompilerArtifact(artifact)) => Some(
            BuildMessage::CompilerArtifact {
                name: artifact.target.name,
                executable: artifact.executable.map(String::from),
            },
        ),
        Ok(Message::CompilerMessage(m)) => Some(
            BuildMessage::CompilerMessage { rendered: m.message.rendered },
        ),
        Ok(Message::TextLine(line)) => Some(BuildMessage::TextLine(line)),
        Ok(_) => Some(BuildMessage::Other),
        Err(_) => None,
    }
}

/// The lines under which a compiler message is passed on: each line of the
/// message behind `cargo:warning=`. A message without text counts as one
/// empty line.
pub open spec fn warnings(rendered: Option<Seq<u8>>) -> Seq<Seq<u8>> {
    let text = match rendered {
        Some(text) => text,
        None => Seq::empty(),
    };
    split(text, 0x0a).map_values(|line: Seq<u8>| "cargo:warning=".spec_bytes() + line)
}

/// Returns the lines under which a compiler message is passed on.
pub fn warning_lines(rendered: Option<&[u8]>) -> (lines: Vec<Vec<u8>>)
    ensures
        lines@.map_values(|l: Vec<u8>| l@) == warnings(
            match rendered {
                Some(text) => Some(text@),
                None => None,
            },
        ),
{
    let empty: Vec<u8> = Vec::new();
    let text: &[u8] = match rendered {
        Some(text) => text,
        None => empty.as_slice(),
    };
    let pieces = split_on(text, 0x0a);
    let ghost cut = split(text@, 0x0a);
    let mut lines: Vec<Vec<u8>> = Vec::new();
    let mut i: usize = 0;
    while i < pieces.len()
        invariant
            i <= pieces@.len(),
            pieces@.map_values(|p: Vec<u8>| p@) == cut,
            lines@.len() == i,
            forall|j: int|
                0 <= j < i ==> (#[trigger] lines@[j])@ == "cargo:warning=".spec_bytes() + cut[j],
        decreases pieces@.len() - i,
    {
        let mut line: Vec<u8> = Vec::new();
        append(&mut line, "cargo:warning=".as_bytes());
        append(&mut line, pieces[i].as_slice());
        proof {
            assert(cut[i as int] == pieces@[i as int]@);
            assert(line@ =~= "cargo:warning=".spec_bytes() + cut[i as int]);
        }
        lines.push(line);
        i += 1;
    }
    proof {
        assert(cut.len() == pieces@.len());
        assert(lines@.map_values(|l: Vec<u8>| l@) =~= cut.map_values(
            |line: Seq<u8>| "cargo:warning=".spec_bytes() + line,
        ));
    }
    lines
}

/// What the build does about one message.
#[derive(Clone, Debug, PartialEq, Eq)]
pub enum BuildStep {
    /// Take note of the executable `path` of the target `name`.
    Executable { name: String, path: String },
    /// Print these lines.
    Print(Vec<Vec<u8>>),
    /// Nothing.
    Nothing,
}

/// A step as a mathematical value.
pub enum BuildStepView {
    Executable { name: Seq<char>, path: Seq<char> },
    Print(Seq<Seq<u8>>),
    Nothing,
}

impl View for BuildStep {
    type V = BuildStepView;

    open spec fn view(&self) -> BuildStepView {
        match self {
            BuildStep::Executable { name, path } => BuildStepView::Executable {
                name: name@,
                path: path@,
            },
            BuildStep::Print(lines) => BuildStepView::Print(lines@.map_values(|l: Vec<u8>| l@)),
            BuildStep::Nothing => BuildStepView::Nothing,
        }
    }
}

/// The step that a message asks for: an artifact with an executable is
/// taken note of; a compiler message is printed line by line as a warning
/// of the build script; a line of text is printed as it is.
pub open spec fn step_for(message: BuildMessageView) -> BuildStepView {
    match message {
        BuildMessageView::CompilerArtifact { name, executable } => match executable {
            Some(path) => BuildStepView::Executable { name, path },
            None => BuildStepView::Nothing,
        },
        BuildMessageView::CompilerMessage { rendered } => BuildStepView::Print(
            warnings(
                match rendered {
                    Some(text) => Some(encode_utf8(text)),
                    None => None,
                },
            ),
        ),
        BuildMessageView::TextLine(text) => BuildStepView::Print(seq![encode_utf8(text)]),
        BuildMessageView::Other => BuildStepView::Nothing,
    }
}

/// Returns the step that `message` asks for.
pub fn on_message(message: BuildMessage) -> (step: BuildStep)
    ensures
        step@ == step_for(message@),
{
    match message {
        BuildMessage::CompilerArtifact { name, executable } => match executable {
            Some(path) => BuildStep::Executable { name, path },
            None => BuildStep::Nothing,
        },
        BuildMessage::CompilerMessage { rendered } => {
            let lines = match &rendered {
                Some(text) => warning_lines(Some(text.as_str().as_bytes())),
                None => warning_lines(None),
            };
            BuildStep::Print(lines)
        },
        BuildMessage::TextLine(text) => {
            let mut lines: Vec<Vec<u8>> = Vec::new();
            lines.push(slice_to_vec(text.as_str().as_bytes()));
            proof {
                assert(lines@.map_values(|l: Vec<u8>| l@) =~= seq![encode_utf8(text@)]);
            }
            BuildStep::Print(lines)
        },
        BuildMessage::Other => BuildStep::Nothing,
    }
}

/// Text that is nested more deeply than the reader is asked to follow.
#[derive(Clone, Copy, Debug, PartialEq, Eq, Structural)]
pub struct TooDeep;

/// Returns the step that the first message in `text` asks for; `None`
/// where `text` holds no message, as the empty text does.
///
/// Text in which arrays and objects are nested more deeply than
/// [`MAX_NESTING`] is not read at all.
pub fn on_line(text: &str) -> (step: Result<Option<BuildStep>, TooDeep>)
    ensures
        match step {
            Err(_) => nesting(text.spec_bytes()) > MAX_NESTING,
            Ok(step) => {
                &&& nesting(text.spec_bytes()) <= MAX_NESTING
                &&& match step {
                    Some(s) => cargo_message(text@) matches Some(m) && s@ == step_for(m),
                    None => cargo_message(text@) is None,
                }
            },
        },
{
    if nesting_of(text.as_bytes()) > MAX_NESTING {
        return Err(TooDeep);
    }
    match read_message(text) {
        Some(message) => Ok(Some(on_message(message))),
        None => Ok(None),
    }
}

} // verus!

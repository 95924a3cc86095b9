use vstd::prelude::*;

use crate::lexer::chars_of;
use crate::parser::ParserMode;

verus! {

/// The width of a cell.
#[derive(Clone, Copy, Debug, PartialEq, Eq)]
pub enum CellType {
    U8,
    U16,
    U32,
}

/// What a run is to do.
pub struct Settings {
    pub src: String,
    pub parser_mode: ParserMode,
    pub dump_mem: bool,
    pub cell_type: CellType,
    pub buffer_size: usize,
}

/// The tape size used unless the arguments give another.
pub const DEFAULT_BUFFER_SIZE: usize = 30_000;

impl Settings {
    /// No source, release mode, no dump, 8-bit cells, the default tape.
    pub fn init_default() -> (r: Settings)
        ensures
            r.src@.len() == 0,
            r.parser_mode == ParserMode::Release,
            !r.dump_mem,
            r.cell_type == CellType::U8,
            r.buffer_size == DEFAULT_BUFFER_SIZE,
    {
        Settings {
            src: String::new(),
            parser_mode: ParserMode::Release,
            dump_mem: false,
            cell_type: CellType::U8,
            buffer_size: DEFAULT_BUFFER_SIZE,
        }
    }

    pub fn get_src(&self) -> (r: String)
        ensures
            r@ == self.src@,
    {
        self.src.clone()
    }
}

/// The value of a string of decimal digits.
pub open spec fn digits_value(s: Seq<char>) -> nat
    decreases s.len(),
{
    if s.len() == 0 {
        0
    } else {
        digits_value(s.drop_last()) * 10 + ((s.last() as u32 - '0' as u32) as nat)
    }
}

pub open spec fn is_digits(s: Seq<char>) -> bool {
    s.len() > 0 && forall|i: int| 0 <= i < s.len() ==> '0' <= #[trigger] s[i] <= '9'
}

/// The `usize` that a text denotes: an optional `+` followed by decimal
/// digits, whose value fits.
pub open spec fn usize_text(s: Seq<char>) -> Option<nat> {
    let digits = if s.len() > 0 && s[0] == '+' {
        s.skip(1)
    } else {
        s
    };
    if is_digits(digits) && digits_value(digits) <= usize::MAX {
        Some(digits_value(digits))
    } else {
        None
    }
}

/// Relies on `str::parse::<usize>`: it accepts an optional `+` followed by
/// ASCII digits and nothing else, and reports a value that does not fit as
/// an error.
#[verifier::external_body]
fn parse_usize(s: &str) -> (r: Option<usize>)
    ensures
        match usize_text(s@) {
            Some(v) => r == Some(v as usize),
            None => r is None,
        },
{
    s.parse::<usize>().ok()
}

/// Whether two texts are the same.
fn same_text(a: &str, b: &str) -> (r: bool)
    ensures
        r == (a@ == b@),
{
    let x = chars_of(a);
    let y = chars_of(b);
    if x.len() != y.len() {
        return false;
    }
    let mut i: usize = 0;
    while i < x.len()
        invariant
            x@ == a@,
            y@ == b@,
            x@.len() == y@.len(),
            i <= x@.len(),
            forall|j: int| 0 <= j < i ==> x@[j] == y@[j],
        decreases x@.len() - i,
    {
        if x[i] != y[i] {
            return false;
        }
        i = i + 1;
    }
    assert(x@ =~= y@);
    true
}

/// What the next argument is read as.
#[derive(Clone, Copy, Debug, PartialEq, Eq)]
pub enum ArgState {
    SkipExeFile,
    Start,
    FileArg,
    SrcArg,
    CellArg,
    BufferArg,
}

/// What the caller is to do after an argument.
#[derive(Debug)]
pub enum ArgAction {
    Continue,
    /// Print the help text and stop.
    Help,
    /// Report the unknown argument, print the help text and stop.
    Unknown(String),
    /// Load the named source file and hand its text to `set_src`; stop if
    /// it cannot be read.
    LoadFile(String),
    /// Report that the cell type is not one of `u8`, `u16`, `u32`.
    InvalidCellType,
    /// Report that the tape size is not a number.
    InvalidBufferSize,
}

/// The option an argument names, when read in the `Start` state.
pub enum OptionKind {
    File,
    Src,
    Help,
    Debug,
    Dump,
    Cell,
    Buffer,
    Unknown,
}

pub open spec fn option_kind(a: Seq<char>) -> OptionKind {
    if a == "-f"@ || a == "--file"@ {
        OptionKind::File
    } else if a == "-s"@ || a == "--src"@ {
        OptionKind::Src
    } else if a == "-h"@ || a == "--help"@ {
        OptionKind::Help
    } else if a == "-d"@ || a == "--debug"@ {
        OptionKind::Debug
    } else if a == "--dump"@ {
        OptionKind::Dump
    } else if a == "-c"@ || a == "--cell"@ {
        OptionKind::Cell
    } else if a == "-b"@ || a == "--buffer"@ {
        OptionKind::Buffer
    } else {
        OptionKind::Unknown
    }
}

pub open spec fn cell_type_of(a: Seq<char>) -> Option<CellType> {
    if a == "u8"@ {
        Some(CellType::U8)
    } else if a == "u16"@ {
        Some(CellType::U16)
    } else if a == "u32"@ {
        Some(CellType::U32)
    } else {
        None
    }
}

/// Reads the command line one argument at a time. The first argument is
/// the program's own name and is skipped.
pub struct ArgParser {
    settings: Settings,
    state: ArgState,
}

impl ArgParser {
    pub closed spec fn settings(&self) -> Settings {
        self.settings
    }

    pub closed spec fn state(&self) -> ArgState {
        self.state
    }

    pub fn new() -> (r: ArgParser)
        ensures
            r.state() == ArgState::SkipExeFile,
            r.settings().src@.len() == 0,
            r.settings().parser_mode == ParserMode::Release,
            !r.settings().dump_mem,
            r.settings().cell_type == CellType::U8,
            r.settings().buffer_size == DEFAULT_BUFFER_SIZE,
    {
        ArgParser { settings: Settings::init_default(), state: ArgState::SkipExeFile }
    }

    /// Takes the next argument.
    pub fn feed(&mut self, arg: String) -> (r: ArgAction)
        ensures
            ({
                let s0 = old(self).settings();
                let s1 = final(self).settings();
                let same_but_src = s1.parser_mode == s0.parser_mode && s1.dump_mem == s0.dump_mem
                    && s1.cell_type == s0.cell_type && s1.buffer_size == s0.buffer_size;
                let unchanged = same_but_src && s1.src@ == s0.src@;
                match old(self).state() {
                    ArgState::SkipExeFile => final(self).state() == ArgState::Start && unchanged
                        && r is Continue,
                    ArgState::Start => match option_kind(arg@) {
                        OptionKind::File => final(self).state() == ArgState::FileArg && unchanged
                            && r is Continue,
                        OptionKind::Src => final(self).state() == ArgState::SrcArg && unchanged
                            && r is Continue,
                        OptionKind::Cell => final(self).state() == ArgState::CellArg && unchanged
                            && r is Continue,
                        OptionKind::Buffer => final(self).state() == ArgState::BufferArg
                            && unchanged && r is Continue,
                        OptionKind::Help => final(self).state() == ArgState::Start && unchanged
                            && r is Help,
                        OptionKind::Debug => final(self).state() == ArgState::Start && s1.src@
                            == s0.src@ && s1.parser_mode == ParserMode::Debug && s1.dump_mem
                            == s0.dump_mem && s1.cell_type == s0.cell_type && s1.buffer_size
                            == s0.buffer_size && r is Continue,
                        OptionKind::Dump => final(self).state() == ArgState::Start && s1.src@
                            == s0.src@ && s1.parser_mode == s0.parser_mode && s1.dump_mem
                            && s1.cell_type == s0.cell_type && s1.buffer_size == s0.buffer_size
                            && r is Continue,
                        OptionKind::Unknown => final(self).state() == ArgState::Start && unchanged
                            && match r {
                            ArgAction::Unknown(a) => a@ == arg@,
                            _ => false,
                        },
                    },
                    ArgState::FileArg => final(self).state() == ArgState::Start && unchanged
                        && match r {
                        ArgAction::LoadFile(name) => name@ == arg@,
                        _ => false,
                    },
                    ArgState::SrcArg => final(self).state() == ArgState::Start && same_but_src
                        && s1.src@ == arg@ && r is Continue,
                    ArgState::CellArg => final(self).state() == ArgState::Start && s1.src@
                        == s0.src@ && s1.parser_mode == s0.parser_mode && s1.dump_mem
                        == s0.dump_mem && s1.buffer_size == s0.buffer_size && match cell_type_of(
                        arg@,
                    ) {
                        Some(t) => s1.cell_type == t && r is Continue,
                        None => s1.cell_type == s0.cell_type && r is InvalidCellType,
                    },
                    ArgState::BufferArg => final(self).state() == ArgState::Start && s1.src@
                        == s0.src@ && s1.parser_mode == s0.parser_mode && s1.dump_mem
                        == s0.dump_mem && s1.cell_type == s0.cell_type && match usize_text(
                        arg@,
                    ) {
                        Some(n) => s1.buffer_size == n && r is Continue,
                        None => s1.buffer_size == s0.buffer_size && r is InvalidBufferSize,
                    },
                }
            }),
    {
        match self.state {
            ArgState::SkipExeFile => {
                self.state = ArgState::Start;
                ArgAction::Continue
            },
            ArgState::Start => {
                let a = arg.as_str();
                if same_text(a, "-f") || same_text(a, "--file") {
                    self.state = ArgState::FileArg;
                    ArgAction::Continue
                } else if same_text(a, "-s") || same_text(a, "--src") {
                    self.state = ArgState::SrcArg;
                    ArgAction::Continue
                } else if same_text(a, "-h") || same_text(a, "--help") {
                    ArgAction::Help
                } else if same_text(a, "-d") || same_text(a, "--debug") {
                    self.settings.parser_mode = ParserMode::Debug;
                    ArgAction::Continue
                } else if same_text(a, "--dump") {
                    self.settings.dump_mem = true;
                    ArgAction::Continue
                } else if same_text(a, "-c") || same_text(a, "--cell") {
                    self.state = ArgState::CellArg;
                    ArgAction::Continue
                } else if same_text(a, "-b") || same_text(a, "--buffer") {
                    self.state = ArgState::BufferArg;
                    ArgAction::Continue
                } else {
                    ArgAction::Unknown(arg)
                }
            },
            ArgState::FileArg => {
                self.state = ArgState::Start;
                ArgAction::LoadFile(arg)
            },
            ArgState::SrcArg => {
                self.settings.src = arg;
                self.state = ArgState::Start;
                ArgAction::Continue
            },
            ArgState::CellArg => {
                self.state = ArgState::Start;
                let a = arg.as_str();
                if same_text(a, "u8") {
                    self.settings.cell_type = CellType::U8;
                    ArgAction::Continue
                } else if same_text(a, "u16") {
                    self.settings.cell_type = CellType::U16;
                    ArgAction::Continue
                } else if same_text(a, "u32") {
                    self.settings.cell_type = CellType::U32;
                    ArgAction::Continue
                } else {
                    ArgAction::InvalidCellType
                }
            },
            ArgState::BufferArg => {
                self.state = ArgState::Start;
                match parse_usize(arg.as_str()) {
                    Some(n) => {
                        self.settings.buffer_size = n;
                        ArgAction::Continue
                    },
                    None => ArgAction::InvalidBufferSize,
                }
            },
        }
    }

    /// Takes the text of a source file that `ArgAction::LoadFile` asked for.
    pub fn set_src(&mut self, src: String)
        ensures
            final(self).state() == old(self).state(),
            final(self).settings().src@ == src@,
            final(self).settings().parser_mode == old(self).settings().parser_mode,
            final(self).settings().dump_mem == old(self).settings().dump_mem,
            final(self).settings().cell_type == old(self).settings().cell_type,
            final(self).settings().buffer_size == old(self).settings().buffer_size,
    {
        self.settings.src = src;
    }

    /// The settings the arguments gave.
    pub fn finish(self) -> (r: Settings)
        ensures
            r == self.settings(),
    {
        self.settings
    }
}

} // verus!

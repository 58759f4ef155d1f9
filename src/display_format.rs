//! The control-line template: literal text mixed with bracketed blocks such as
//! `[prev]` or `[metadata:20,4]`, compiled in one left-to-right pass.

use vstd::prelude::*;
use crate::text::{
    append_str, chars_of, nat_text, parse_byte, parse_u8, push_decimal, same_chars, string_of,
    trim, trimmed,
};

verus! {

/// The template used when none is configured.
pub const DEFAULT_DISPLAY_FORMAT: &'static str = "[prev] [play-pause] [next] [info] ┃ [metadata]";

/// Defaults of `[info]`: show the number of players, show the player's name.
pub const DEFAULT_SHOW_COUNT: bool = true;
pub const DEFAULT_SHOW_NAME: bool = true;

/// Defaults of `[metadata]`: window width and dwell ticks of its scroller.
pub const DEFAULT_WINDOW: u8 = 32;
pub const DEFAULT_DWELL: u8 = 10;

/// Defaults of `[time]`: show the length, count down the remaining time.
pub const DEFAULT_SHOW_LENGTH: bool = true;
pub const DEFAULT_USE_REMAINING: bool = false;

/// One compiled block of the control line.
#[derive(Clone, Debug, PartialEq, Eq)]
pub enum DisplayFormat {
    Prev,
    Next,
    PlayPause,
    Status,
    /// `(show number of players, show name)`
    PlayerInfo(bool, bool),
    /// `(window width, dwell ticks)`
    Metadata(u8, u8),
    /// `(show length, use remaining)`
    Time(bool, bool),
    String(String),
}

/// What a `DisplayFormat` is, with its text as characters.
pub enum DisplayBlock {
    Prev,
    Next,
    PlayPause,
    Status,
    PlayerInfo(bool, bool),
    Metadata(u8, u8),
    Time(bool, bool),
    Literal(Seq<char>),
}

impl View for DisplayFormat {
    type V = DisplayBlock;

    open spec fn view(&self) -> DisplayBlock {
        match self {
            DisplayFormat::Prev => DisplayBlock::Prev,
            DisplayFormat::Next => DisplayBlock::Next,
            DisplayFormat::PlayPause => DisplayBlock::PlayPause,
            DisplayFormat::Status => DisplayBlock::Status,
            DisplayFormat::PlayerInfo(a, b) => DisplayBlock::PlayerInfo(*a, *b),
            DisplayFormat::Metadata(a, b) => DisplayBlock::Metadata(*a, *b),
            DisplayFormat::Time(a, b) => DisplayBlock::Time(*a, *b),
            DisplayFormat::String(s) => DisplayBlock::Literal(s@),
        }
    }
}

/// Why a control-line template was rejected; positions count characters
/// from 0.
#[derive(Debug)]
pub enum DisplayFormatError {
    Unexpected(usize, char),
    /// `(position, block name, most arguments allowed, arguments given)`
    ArgumentCount(usize, String, usize, usize),
    WrongArgumentType(usize),
    InvalidArgument(usize),
    UnknownBlock(usize, String),
}

/// What a `DisplayFormatError` is, with its names as characters.
pub enum DisplayFault {
    Unexpected(nat, char),
    ArgumentCount(nat, Seq<char>, nat, nat),
    WrongArgumentType(nat),
    InvalidArgument(nat),
    UnknownBlock(nat, Seq<char>),
}

impl View for DisplayFormatError {
    type V = DisplayFault;

    open spec fn view(&self) -> DisplayFault {
        match self {
            DisplayFormatError::Unexpected(p, c) => DisplayFault::Unexpected(*p as nat, *c),
            DisplayFormatError::ArgumentCount(p, n, e, g) => DisplayFault::ArgumentCount(
                *p as nat,
                n@,
                *e as nat,
                *g as nat,
            ),
            DisplayFormatError::WrongArgumentType(p) => DisplayFault::WrongArgumentType(*p as nat),
            DisplayFormatError::InvalidArgument(p) => DisplayFault::InvalidArgument(*p as nat),
            DisplayFormatError::UnknownBlock(p, n) => DisplayFault::UnknownBlock(*p as nat, n@),
        }
    }
}

/// The text of an error: `at {position}: {detail}`.
pub open spec fn display_error_text(e: DisplayFault) -> Seq<char> {
    match e {
        DisplayFault::Unexpected(p, c) => "at "@ + nat_text(p) + ": unexpected '"@ + seq![c] + "'"@,
        DisplayFault::ArgumentCount(p, b, e, g) => "at "@ + nat_text(p) + ": expected "@ + nat_text(e)
            + " arguments for block '"@ + b + "', got "@ + nat_text(g),
        DisplayFault::WrongArgumentType(p) => "at "@ + nat_text(p) + ": wrong argument type"@,
        DisplayFault::InvalidArgument(p) => "at "@ + nat_text(p) + ": invalid argument"@,
        DisplayFault::UnknownBlock(p, n) => "at "@ + nat_text(p) + ": unknown block '"@ + n + "'"@,
    }
}

impl DisplayFormatError {
    /// What went wrong and where, for a person to read.
    pub fn message(&self) -> (r: String)
        ensures
            r@ == display_error_text(self@),
    {
        let mut out: Vec<char> = Vec::new();
        match self {
            DisplayFormatError::Unexpected(p, c) => {
                append_str(&mut out, "at ");
                push_decimal(&mut out, *p as u64);
                append_str(&mut out, ": unexpected '");
                out.push(*c);
                append_str(&mut out, "'");
            },
            DisplayFormatError::ArgumentCount(p, b, e, g) => {
                append_str(&mut out, "at ");
                push_decimal(&mut out, *p as u64);
                append_str(&mut out, ": expected ");
                push_decimal(&mut out, *e as u64);
                append_str(&mut out, " arguments for block '");
                append_str(&mut out, b.as_str());
                append_str(&mut out, "', got ");
                push_decimal(&mut out, *g as u64);
            },
            DisplayFormatError::WrongArgumentType(p) => {
                append_str(&mut out, "at ");
                push_decimal(&mut out, *p as u64);
                append_str(&mut out, ": wrong argument type");
            },
            DisplayFormatError::InvalidArgument(p) => {
                append_str(&mut out, "at ");
                push_decimal(&mut out, *p as u64);
                append_str(&mut out, ": invalid argument");
            },
            DisplayFormatError::UnknownBlock(p, n) => {
                append_str(&mut out, "at ");
                push_decimal(&mut out, *p as u64);
                append_str(&mut out, ": unknown block '");
                append_str(&mut out, n.as_str());
                append_str(&mut out, "'");
            },
        }
        string_of(&out)
    }
}

/// A block argument.
#[derive(Clone, Copy, Debug, PartialEq, Eq, Structural)]
pub enum ArgValue {
    Number(u8),
    Bool(bool),
}

/// Where the scan of a control-line template stands.
#[derive(Clone, Copy, Debug, PartialEq, Eq, Structural)]
pub enum ScanState {
    Escape,
    Text,
    Block,
    ArgumentList,
}

/// The state of the scan: the pending text, where the current name or
/// argument starts, where the last `[` stands, the block name once read, the arguments so far (each
/// with where it starts; `None` asks for the default) and the blocks so far.
pub struct DisplayScan {
    pub state: ScanState,
    pub buffer: Seq<char>,
    pub start: nat,
    pub open: nat,
    pub name: Seq<char>,
    pub args: Seq<(Option<ArgValue>, nat)>,
    pub blocks: Seq<DisplayBlock>,
}

pub open spec fn is_display_name(n: Seq<char>) -> bool {
    n == "prev"@ || n == "next"@ || n == "play-pause"@ || n == "info"@ || n == "metadata"@ || n
        == "time"@ || n == "status"@
}

/// How many arguments the block named `n` takes at most.
pub open spec fn max_args(n: Seq<char>) -> nat {
    if n == "info"@ || n == "metadata"@ || n == "time"@ {
        2
    } else {
        0
    }
}

/// An argument token, already trimmed: `Some(None)` when empty (the default
/// applies), `Some(Some(v))` for a byte or a boolean, `None` when invalid.
pub open spec fn parse_arg(t: Seq<char>) -> Option<Option<ArgValue>> {
    if t.len() == 0 {
        Some(None)
    } else if parse_u8(t) is Some {
        Some(Some(ArgValue::Number(parse_u8(t)->0)))
    } else if t == "true"@ {
        Some(Some(ArgValue::Bool(true)))
    } else if t == "false"@ {
        Some(Some(ArgValue::Bool(false)))
    } else {
        None
    }
}

pub open spec fn mistyped(v: Option<ArgValue>, number: bool) -> bool {
    match v {
        Some(ArgValue::Number(_)) => !number,
        Some(ArgValue::Bool(_)) => number,
        None => false,
    }
}

/// Where the first argument of the wrong kind starts, if one is there.
pub open spec fn first_mistyped(args: Seq<(Option<ArgValue>, nat)>, number: bool) -> Option<nat>
    decreases args.len(),
{
    if args.len() == 0 {
        None
    } else {
        match first_mistyped(args.drop_last(), number) {
            Some(p) => Some(p),
            None => if mistyped(args.last().0, number) {
                Some(args.last().1)
            } else {
                None
            },
        }
    }
}

pub open spec fn arg_number(args: Seq<(Option<ArgValue>, nat)>, i: int, default: u8) -> u8 {
    if 0 <= i < args.len() {
        match args[i].0 {
            Some(ArgValue::Number(n)) => n,
            _ => default,
        }
    } else {
        default
    }
}

pub open spec fn arg_bool(args: Seq<(Option<ArgValue>, nat)>, i: int, default: bool) -> bool {
    if 0 <= i < args.len() {
        match args[i].0 {
            Some(ArgValue::Bool(b)) => b,
            _ => default,
        }
    } else {
        default
    }
}

/// The block named `n` (one of `is_display_name`), with its arguments or
/// their defaults.
pub open spec fn block_for(n: Seq<char>, args: Seq<(Option<ArgValue>, nat)>) -> DisplayBlock {
    if n == "prev"@ {
        DisplayBlock::Prev
    } else if n == "next"@ {
        DisplayBlock::Next
    } else if n == "play-pause"@ {
        DisplayBlock::PlayPause
    } else if n == "info"@ {
        DisplayBlock::PlayerInfo(
            arg_bool(args, 0, DEFAULT_SHOW_COUNT),
            arg_bool(args, 1, DEFAULT_SHOW_NAME),
        )
    } else if n == "metadata"@ {
        DisplayBlock::Metadata(arg_number(args, 0, DEFAULT_WINDOW), arg_number(args, 1, DEFAULT_DWELL))
    } else if n == "time"@ {
        DisplayBlock::Time(
            arg_bool(args, 0, DEFAULT_SHOW_LENGTH),
            arg_bool(args, 1, DEFAULT_USE_REMAINING),
        )
    } else {
        DisplayBlock::Status
    }
}

/// Checks the arguments of the block named `n`: first their number, then
/// their kind (numbers for `metadata`, booleans for `info` and `time`).
pub open spec fn close_block(n: Seq<char>, args: Seq<(Option<ArgValue>, nat)>) -> Result<
    DisplayBlock,
    DisplayFault,
> {
    let max = max_args(n);
    if args.len() > max {
        Err(DisplayFault::ArgumentCount(args[max as int].1, n, max, args.len()))
    } else {
        match first_mistyped(args, n == "metadata"@) {
            Some(p) => Err(DisplayFault::WrongArgumentType(p)),
            None => Ok(block_for(n, args)),
        }
    }
}

pub open spec fn keep(s: DisplayScan, c: char) -> DisplayScan {
    DisplayScan { buffer: s.buffer.push(c), ..s }
}

/// The pending text, if any, becomes a literal block.
pub open spec fn flushed(s: DisplayScan) -> DisplayScan {
    if s.buffer.len() > 0 {
        DisplayScan { blocks: s.blocks.push(DisplayBlock::Literal(s.buffer)), buffer: seq![], ..s }
    } else {
        s
    }
}

/// The pending text is one argument.
pub open spec fn take_token(s: DisplayScan) -> Result<DisplayScan, DisplayFault> {
    match parse_arg(trim(s.buffer)) {
        Some(v) => Ok(DisplayScan { args: s.args.push((v, s.start)), buffer: seq![], ..s }),
        None => Err(DisplayFault::InvalidArgument(s.start)),
    }
}

/// The block whose name and arguments were read is done.
pub open spec fn end_block(s: DisplayScan) -> Result<DisplayScan, DisplayFault> {
    match close_block(s.name, s.args) {
        Ok(b) => Ok(
            DisplayScan {
                state: ScanState::Text,
                blocks: s.blocks.push(b),
                args: seq![],
                buffer: seq![],
                ..s
            },
        ),
        Err(e) => Err(e),
    }
}

/// One character `c`, at position `pos`.
pub open spec fn display_step(s: DisplayScan, pos: nat, c: char) -> Result<DisplayScan, DisplayFault> {
    if s.state == ScanState::Escape {
        Ok(DisplayScan { state: ScanState::Text, ..keep(s, c) })
    } else if c == '\\' {
        if s.state == ScanState::Text {
            Ok(DisplayScan { state: ScanState::Escape, ..s })
        } else {
            Err(DisplayFault::Unexpected(pos, c))
        }
    } else if c == '[' {
        if s.state == ScanState::Text {
            Ok(DisplayScan { state: ScanState::Block, start: pos + 1, open: pos, ..flushed(s) })
        } else {
            Err(DisplayFault::Unexpected(pos, c))
        }
    } else if c == ':' {
        if s.state == ScanState::Block {
            let n = trim(s.buffer);
            if is_display_name(n) {
                Ok(
                    DisplayScan {
                        state: ScanState::ArgumentList,
                        name: n,
                        start: pos + 1,
                        buffer: seq![],
                        ..s
                    },
                )
            } else {
                Err(DisplayFault::UnknownBlock(s.start, n))
            }
        } else {
            Ok(keep(s, c))
        }
    } else if c == ',' {
        if s.state == ScanState::ArgumentList {
            match take_token(s) {
                Ok(t) => Ok(DisplayScan { start: pos + 1, ..t }),
                Err(e) => Err(e),
            }
        } else {
            Ok(keep(s, c))
        }
    } else if c == ']' {
        if s.state == ScanState::Block {
            let n = trim(s.buffer);
            if is_display_name(n) {
                end_block(DisplayScan { name: n, buffer: seq![], ..s })
            } else {
                Err(DisplayFault::UnknownBlock(s.start, n))
            }
        } else if s.state == ScanState::ArgumentList {
            match take_token(s) {
                Ok(t) => end_block(t),
                Err(e) => Err(e),
            }
        } else {
            Err(DisplayFault::Unexpected(pos, c))
        }
    } else {
        Ok(keep(s, c))
    }
}

pub open spec fn initial_scan() -> DisplayScan {
    DisplayScan {
        state: ScanState::Text,
        buffer: seq![],
        start: 0,
        open: 0,
        name: seq![],
        args: seq![],
        blocks: seq![],
    }
}

/// The scan after the characters `t`, or the first error met in them.
pub open spec fn scan_display(t: Seq<char>) -> Result<DisplayScan, DisplayFault>
    decreases t.len(),
{
    if t.len() == 0 {
        Ok(initial_scan())
    } else {
        match scan_display(t.drop_last()) {
            Ok(s) => display_step(s, (t.len() - 1) as nat, t.last()),
            Err(e) => Err(e),
        }
    }
}

/// The blocks that the template `t` compiles to: text pending at the end
/// is a literal; a block still open at the end is an unexpected `[`, and a
/// lone `\\` at the end an unexpected `\\`.
pub open spec fn compile_display(t: Seq<char>) -> Result<Seq<DisplayBlock>, DisplayFault> {
    match scan_display(t) {
        Ok(s) => match s.state {
            ScanState::Text => Ok(flushed(s).blocks),
            ScanState::Escape => Err(DisplayFault::Unexpected((t.len() - 1) as nat, '\\')),
            _ => Err(DisplayFault::Unexpected(s.open, '[')),
        },
        Err(e) => Err(e),
    }
}

pub open spec fn blocks_view(v: Seq<DisplayFormat>) -> Seq<DisplayBlock> {
    v.map_values(|b: DisplayFormat| b@)
}

pub open spec fn args_view(v: Seq<(Option<ArgValue>, usize)>) -> Seq<(Option<ArgValue>, nat)> {
    v.map_values(|a: (Option<ArgValue>, usize)| (a.0, a.1 as nat))
}

pub open spec fn display_outcome(r: Result<Vec<DisplayFormat>, DisplayFormatError>) -> Result<
    Seq<DisplayBlock>,
    DisplayFault,
> {
    match r {
        Ok(v) => Ok(blocks_view(v@)),
        Err(e) => Err(e@),
    }
}

fn is_display_name_of(n: &Vec<char>) -> (r: bool)
    ensures
        r == is_display_name(n@),
{
    same_chars(n, "prev") || same_chars(n, "next") || same_chars(n, "play-pause") || same_chars(
        n,
        "info",
    ) || same_chars(n, "metadata") || same_chars(n, "time") || same_chars(n, "status")
}

fn parse_arg_of(t: &Vec<char>) -> (r: Option<Option<ArgValue>>)
    ensures
        r == parse_arg(t@),
{
    if t.len() == 0 {
        Some(None)
    } else {
        match parse_byte(t) {
            Some(n) => Some(Some(ArgValue::Number(n))),
            None => if same_chars(t, "true") {
                Some(Some(ArgValue::Bool(true)))
            } else if same_chars(t, "false") {
                Some(Some(ArgValue::Bool(false)))
            } else {
                None
            },
        }
    }
}

fn arg_number_of(args: &Vec<(Option<ArgValue>, usize)>, i: usize, default: u8) -> (r: u8)
    ensures
        r == arg_number(args_view(args@), i as int, default),
{
    if i < args.len() {
        match args[i].0 {
            Some(ArgValue::Number(n)) => n,
            _ => default,
        }
    } else {
        default
    }
}

fn arg_bool_of(args: &Vec<(Option<ArgValue>, usize)>, i: usize, default: bool) -> (r: bool)
    ensures
        r == arg_bool(args_view(args@), i as int, default),
{
    if i < args.len() {
        match args[i].0 {
            Some(ArgValue::Bool(b)) => b,
            _ => default,
        }
    } else {
        default
    }
}

fn close_block_of(n: &Vec<char>, args: &Vec<(Option<ArgValue>, usize)>) -> (r: Result<
    DisplayFormat,
    DisplayFormatError,
>)
    ensures
        match r {
            Ok(b) => close_block(n@, args_view(args@)) == Ok::<DisplayBlock, DisplayFault>(b@),
            Err(e) => close_block(n@, args_view(args@)) == Err::<DisplayBlock, DisplayFault>(e@),
        },
{
    let ghost av = args_view(args@);
    let is_info = same_chars(n, "info");
    let is_meta = same_chars(n, "metadata");
    let is_time = same_chars(n, "time");
    let max: usize = if is_info || is_meta || is_time {
        2
    } else {
        0
    };
    if args.len() > max {
        return Err(DisplayFormatError::ArgumentCount(args[max].1, string_of(n), max, args.len()));
    }
    for i in 0..args.len()
        invariant
            av == args_view(args@),
            args.len() <= max,
            max == max_args(n@),
            is_info == (n@ == "info"@),
            is_meta == (n@ == "metadata"@),
            is_time == (n@ == "time"@),
            first_mistyped(av.subrange(0, i as int), is_meta) is None,
    {
        assert(av.subrange(0, i + 1).drop_last() == av.subrange(0, i as int));
        if match args[i].0 {
            Some(ArgValue::Number(_)) => !is_meta,
            Some(ArgValue::Bool(_)) => is_meta,
            None => false,
        } {
            proof {
                lemma_first_mistyped_stays(av, i + 1, is_meta);
            }
            return Err(DisplayFormatError::WrongArgumentType(args[i].1));
        }
    }
    assert(av.subrange(0, av.len() as int) == av);
    let b = if same_chars(n, "prev") {
        DisplayFormat::Prev
    } else if same_chars(n, "next") {
        DisplayFormat::Next
    } else if same_chars(n, "play-pause") {
        DisplayFormat::PlayPause
    } else if is_info {
        DisplayFormat::PlayerInfo(
            arg_bool_of(args, 0, DEFAULT_SHOW_COUNT),
            arg_bool_of(args, 1, DEFAULT_SHOW_NAME),
        )
    } else if is_meta {
        DisplayFormat::Metadata(
            arg_number_of(args, 0, DEFAULT_WINDOW),
            arg_number_of(args, 1, DEFAULT_DWELL),
        )
    } else if is_time {
        DisplayFormat::Time(
            arg_bool_of(args, 0, DEFAULT_SHOW_LENGTH),
            arg_bool_of(args, 1, DEFAULT_USE_REMAINING),
        )
    } else {
        DisplayFormat::Status
    };
    Ok(b)
}

/// `Ok(s)` where a step succeeded and left the scan at `s`, else the error.
pub open spec fn step_outcome(r: Result<(), DisplayFormatError>, s: DisplayScan) -> Result<
    DisplayScan,
    DisplayFault,
> {
    match r {
        Ok(_) => Ok(s),
        Err(e) => Err(e@),
    }
}

struct DisplayScanner {
    state: ScanState,
    buffer: Vec<char>,
    start: usize,
    open: usize,
    name: Vec<char>,
    args: Vec<(Option<ArgValue>, usize)>,
    blocks: Vec<DisplayFormat>,
}

impl DisplayScanner {
    spec fn model(&self) -> DisplayScan {
        DisplayScan {
            state: self.state,
            buffer: self.buffer@,
            start: self.start as nat,
            open: self.open as nat,
            name: self.name@,
            args: args_view(self.args@),
            blocks: blocks_view(self.blocks@),
        }
    }

    fn keep(&mut self, c: char)
        ensures
            final(self).model() == keep(old(self).model(), c),
    {
        self.buffer.push(c);
    }

    fn flush(&mut self)
        ensures
            final(self).model() == flushed(old(self).model()),
    {
        if self.buffer.len() > 0 {
            let b = DisplayFormat::String(string_of(&self.buffer));
            let ghost before = self.blocks@;
            self.blocks.push(b);
            assert(blocks_view(self.blocks@) == blocks_view(before).push(b@));
            self.buffer = Vec::new();
        }
    }

    fn take_token(&mut self) -> (r: Result<(), DisplayFormatError>)
        ensures
            step_outcome(r, final(self).model()) == take_token(old(self).model()),
    {
        let t = trimmed(&self.buffer);
        match parse_arg_of(&t) {
            Some(v) => {
                let ghost before = self.args@;
                self.args.push((v, self.start));
                assert(args_view(self.args@) == args_view(before).push((v, self.start as nat)));
                self.buffer = Vec::new();
                Ok(())
            },
            None => Err(DisplayFormatError::InvalidArgument(self.start)),
        }
    }

    fn end_block(&mut self) -> (r: Result<(), DisplayFormatError>)
        ensures
            step_outcome(r, final(self).model()) == end_block(old(self).model()),
    {
        let b = close_block_of(&self.name, &self.args)?;
        let ghost before = self.blocks@;
        self.blocks.push(b);
        assert(blocks_view(self.blocks@) == blocks_view(before).push(b@));
        self.state = ScanState::Text;
        self.args = Vec::new();
        assert(args_view(self.args@) == Seq::<(Option<ArgValue>, nat)>::empty());
        self.buffer = Vec::new();
        Ok(())
    }

    fn step(&mut self, pos: usize, c: char) -> (r: Result<(), DisplayFormatError>)
        requires
            pos < usize::MAX,
        ensures
            step_outcome(r, final(self).model()) == display_step(old(self).model(), pos as nat, c),
    {
        if self.state == ScanState::Escape {
            self.buffer.push(c);
            self.state = ScanState::Text;
            Ok(())
        } else if c == '\\' {
            if self.state == ScanState::Text {
                self.state = ScanState::Escape;
                Ok(())
            } else {
                Err(DisplayFormatError::Unexpected(pos, c))
            }
        } else if c == '[' {
            if self.state == ScanState::Text {
                self.flush();
                self.state = ScanState::Block;
                self.start = pos + 1;
                self.open = pos;
                Ok(())
            } else {
                Err(DisplayFormatError::Unexpected(pos, c))
            }
        } else if c == ':' {
            if self.state == ScanState::Block {
                let n = trimmed(&self.buffer);
                if is_display_name_of(&n) {
                    self.state = ScanState::ArgumentList;
                    self.name = n;
                    self.start = pos + 1;
                    self.buffer = Vec::new();
                    Ok(())
                } else {
                    Err(DisplayFormatError::UnknownBlock(self.start, string_of(&n)))
                }
            } else {
                self.keep(c);
                Ok(())
            }
        } else if c == ',' {
            if self.state == ScanState::ArgumentList {
                self.take_token()?;
                self.start = pos + 1;
                Ok(())
            } else {
                self.keep(c);
                Ok(())
            }
        } else if c == ']' {
            if self.state == ScanState::Block {
                let n = trimmed(&self.buffer);
                if is_display_name_of(&n) {
                    self.name = n;
                    self.buffer = Vec::new();
                    self.end_block()
                } else {
                    Err(DisplayFormatError::UnknownBlock(self.start, string_of(&n)))
                }
            } else if self.state == ScanState::ArgumentList {
                self.take_token()?;
                self.end_block()
            } else {
                Err(DisplayFormatError::Unexpected(pos, c))
            }
        } else {
            self.keep(c);
            Ok(())
        }
    }
}

/// Compiles a control-line template into its blocks.
///
/// Text between blocks becomes `String` blocks; `\\` takes the next character
/// literally. A block is `[name]` or `[name:arg,...]`: after the colon, every
/// token up to a `,` or the `]` is one argument, and an empty one stands for
/// its default (so `[prev:]` has one argument, too many). The first error met, scanning from the
/// left, is returned, with the position where it was found; a template that
/// ends inside a block or right after `\\` is rejected.
pub fn process_display_format(format: &str) -> (r: Result<Vec<DisplayFormat>, DisplayFormatError>)
    ensures
        display_outcome(r) == compile_display(format@),
{
    let chars = chars_of(format);
    let mut scan = DisplayScanner {
        state: ScanState::Text,
        buffer: Vec::new(),
        start: 0,
        open: 0,
        name: Vec::new(),
        args: Vec::new(),
        blocks: Vec::new(),
    };
    assert(scan.model() == initial_scan()) by {
        assert(args_view(scan.args@) == Seq::<(Option<ArgValue>, nat)>::empty());
        assert(blocks_view(scan.blocks@) == Seq::<DisplayBlock>::empty());
    }
    for i in 0..chars.len()
        invariant
            chars@ == format@,
            scan_display(chars@.subrange(0, i as int)) == Ok::<DisplayScan, DisplayFault>(
                scan.model(),
            ),
    {
        assert(chars@.subrange(0, i + 1).drop_last() == chars@.subrange(0, i as int));
        let r = scan.step(i, chars[i]);
        match r {
            Ok(_) => {},
            Err(e) => {
                proof {
                    lemma_scan_error_stays(chars@, i as int + 1);
                }
                return Err(e);
            },
        }
    }
    assert(chars@.subrange(0, chars@.len() as int) == chars@);
    if scan.state == ScanState::Escape {
        return Err(DisplayFormatError::Unexpected(chars.len() - 1, '\\'));
    }
    if scan.state != ScanState::Text {
        return Err(DisplayFormatError::Unexpected(scan.open, '['));
    }
    scan.flush();
    Ok(scan.blocks)
}

proof fn lemma_first_mistyped_stays(args: Seq<(Option<ArgValue>, nat)>, k: int, number: bool)
    requires
        0 <= k <= args.len(),
        first_mistyped(args.subrange(0, k), number) is Some,
    ensures
        first_mistyped(args, number) == first_mistyped(args.subrange(0, k), number),
    decreases args.len() - k,
{
    if k < args.len() {
        assert(args.drop_last().subrange(0, k) == args.subrange(0, k));
        lemma_first_mistyped_stays(args.drop_last(), k, number);
    } else {
        assert(args.subrange(0, k) == args);
    }
}

/// Once the scan has failed on a prefix, it fails the same way on the
/// whole text.
proof fn lemma_scan_error_stays(t: Seq<char>, k: int)
    requires
        0 <= k <= t.len(),
        scan_display(t.subrange(0, k)) is Err,
    ensures
        scan_display(t) == scan_display(t.subrange(0, k)),
    decreases t.len() - k,
{
    if k < t.len() {
        assert(t.drop_last().subrange(0, k) == t.subrange(0, k));
        lemma_scan_error_stays(t.drop_last(), k);
    } else {
        assert(t.subrange(0, k) == t);
    }
}

/// The name that the block `b` is written with; empty for literal text.
pub open spec fn block_name(b: DisplayBlock) -> Seq<char> {
    match b {
        DisplayBlock::Prev => "prev"@,
        DisplayBlock::Next => "next"@,
        DisplayBlock::PlayPause => "play-pause"@,
        DisplayBlock::Status => "status"@,
        DisplayBlock::PlayerInfo(_, _) => "info"@,
        DisplayBlock::Metadata(_, _) => "metadata"@,
        DisplayBlock::Time(_, _) => "time"@,
        DisplayBlock::Literal(_) => seq![],
    }
}

/// The names of the blocks of `bs` that are not literal text, in order.
pub open spec fn block_names(bs: Seq<DisplayBlock>) -> Seq<Seq<char>>
    decreases bs.len(),
{
    if bs.len() == 0 {
        seq![]
    } else if bs.last() is Literal {
        block_names(bs.drop_last())
    } else {
        block_names(bs.drop_last()).push(block_name(bs.last()))
    }
}

/// `s` up to its first `:`, or all of `s` when it has none.
pub open spec fn before_colon(s: Seq<char>) -> Seq<char>
    decreases s.len(),
{
    if s.len() == 0 {
        s
    } else if s.drop_last().contains(':') {
        before_colon(s.drop_last())
    } else if s.last() == ':' {
        s.drop_last()
    } else {
        s
    }
}

/// The name written in a bracket group whose inside is `inner`.
pub open spec fn group_name(inner: Seq<char>) -> Seq<char> {
    trim(before_colon(inner))
}

/// The bracket groups of a text read on their own: the names of the groups
/// closed so far, in order, and the inside of the group still open.
pub struct Groups {
    pub names: Seq<Seq<char>>,
    pub open: Option<Seq<char>>,
}

/// The bracket groups of `t`; `None` when a `[` opens inside a group or a
/// `]` closes none.
pub open spec fn group_scan(t: Seq<char>) -> Option<Groups>
    decreases t.len(),
{
    if t.len() == 0 {
        Some(Groups { names: seq![], open: None })
    } else {
        match group_scan(t.drop_last()) {
            None => None,
            Some(g) => {
                let c = t.last();
                match g.open {
                    None => if c == '[' {
                        Some(Groups { open: Some(seq![]), ..g })
                    } else if c == ']' {
                        None
                    } else {
                        Some(g)
                    },
                    Some(inner) => if c == ']' {
                        Some(Groups { names: g.names.push(group_name(inner)), open: None })
                    } else if c == '[' {
                        None
                    } else {
                        Some(Groups { open: Some(inner.push(c)), ..g })
                    },
                }
            },
        }
    }
}

/// Every `[` of `t` is closed by a `]` before the next `[`, and every `]`
/// closes one.
pub open spec fn balanced(t: Seq<char>) -> bool {
    group_scan(t) matches Some(g) && g.open is None
}

/// How the scan of the compiler stands against the bracket groups.
spec fn follows_groups(s: DisplayScan, g: Groups) -> bool {
    &&& block_names(s.blocks) == g.names
    &&& match s.state {
        ScanState::Text => g.open is None,
        ScanState::Block => g.open == Some(s.buffer) && !s.buffer.contains(':'),
        ScanState::ArgumentList => g.open matches Some(inner) && inner.contains(':')
            && group_name(inner) == s.name,
        ScanState::Escape => false,
    }
}

proof fn lemma_block_names_push(bs: Seq<DisplayBlock>, b: DisplayBlock)
    ensures
        block_names(bs.push(b)) == if b is Literal {
            block_names(bs)
        } else {
            block_names(bs).push(block_name(b))
        },
{
    assert(bs.push(b).drop_last() == bs);
}

proof fn lemma_block_for_name(n: Seq<char>, args: Seq<(Option<ArgValue>, nat)>)
    requires
        is_display_name(n),
    ensures
        block_name(block_for(n, args)) == n,
        !(block_for(n, args) is Literal),
{
}

proof fn lemma_colon_free_push(s: Seq<char>, c: char)
    requires
        !s.contains(':'),
    ensures
        c != ':' ==> !s.push(c).contains(':'),
        before_colon(s) == s,
        before_colon(s.push(c)) == if c == ':' {
            s
        } else {
            s.push(c)
        },
    decreases s.len(),
{
    assert(s.push(c).drop_last() == s);
    if c != ':' {
        assert forall|i: int| 0 <= i < s.push(c).len() implies s.push(c)[i] != ':' by {
            if i < s.len() {
                assert(s.push(c)[i] == s[i]);
            }
        }
    }
    if s.len() > 0 {
        assert(!s.drop_last().contains(':')) by {
            assert forall|i: int| 0 <= i < s.drop_last().len() implies s.drop_last()[i] != ':' by {
                assert(s.drop_last()[i] == s[i]);
            }
        }
        assert(s.last() != ':') by {
            assert(s[s.len() - 1] == s.last());
        }
    }
}

proof fn lemma_colon_push(s: Seq<char>, c: char)
    requires
        s.contains(':'),
    ensures
        s.push(c).contains(':'),
        before_colon(s.push(c)) == before_colon(s),
{
    assert(s.push(c).drop_last() == s);
    let i = choose|i: int| 0 <= i < s.len() && s[i] == ':';
    assert(s.push(c)[i] == ':');
}

proof fn lemma_flushed_names(s: DisplayScan)
    ensures
        block_names(flushed(s).blocks) == block_names(s.blocks),
{
    if s.buffer.len() > 0 {
        lemma_block_names_push(s.blocks, DisplayBlock::Literal(s.buffer));
    }
}

proof fn lemma_end_block_names(s: DisplayScan)
    requires
        end_block(s) is Ok,
        is_display_name(s.name),
    ensures
        end_block(s)->Ok_0.state == ScanState::Text,
        block_names(end_block(s)->Ok_0.blocks) == block_names(s.blocks).push(s.name),
{
    lemma_block_for_name(s.name, s.args);
    lemma_block_names_push(s.blocks, block_for(s.name, s.args));
}

/// The invariant of the scan of a text without escapes, against its bracket
/// groups.
proof fn lemma_scan_follows_groups(t: Seq<char>)
    requires
        !t.contains('\\'),
        scan_display(t) is Ok,
    ensures
        group_scan(t) is Some,
        follows_groups(scan_display(t)->Ok_0, group_scan(t)->0),
        scan_display(t)->Ok_0.state == ScanState::ArgumentList ==> is_display_name(
            scan_display(t)->Ok_0.name,
        ),
    decreases t.len(),
{
    if t.len() > 0 {
        let p = t.drop_last();
        let c = t.last();
        assert(!p.contains('\\')) by {
            if p.contains('\\') {
                let i = choose|i: int| 0 <= i < p.len() && p[i] == '\\';
                assert(t[i] == '\\');
            }
        }
        assert(c != '\\') by {
            assert(t[t.len() - 1] == c);
        }
        lemma_scan_follows_groups(p);
        let s = scan_display(p)->Ok_0;
        let g = group_scan(p)->0;
        let pos = (t.len() - 1) as nat;
        assert(scan_display(t) == display_step(s, pos, c));
        let s2 = display_step(s, pos, c)->Ok_0;
        match s.state {
            ScanState::Text => {
                if c == '[' {
                    lemma_flushed_names(s);
                } else {
                }
            },
            ScanState::Block => {
                lemma_colon_free_push(s.buffer, c);
                if c == ']' {
                    lemma_end_block_names(
                        DisplayScan { name: trim(s.buffer), buffer: seq![], ..s },
                    );
                }
            },
            ScanState::ArgumentList => {
                let inner = g.open->0;
                lemma_colon_push(inner, c);
                if c == ']' {
                    lemma_end_block_names(take_token(s)->Ok_0);
                }
            },
            ScanState::Escape => {},
        }
    }
}

/// A text without escapes whose brackets pair up compiles, when it compiles,
/// to one block that is not literal text for each bracket group, in the
/// order of the groups, each the block that its group names.
pub proof fn lemma_blocks_follow_groups(t: Seq<char>)
    requires
        !t.contains('\\'),
        balanced(t),
        compile_display(t) is Ok,
    ensures
        block_names(compile_display(t)->Ok_0) == group_scan(t)->0.names,
        block_names(compile_display(t)->Ok_0).len() == group_scan(t)->0.names.len(),
{
    lemma_scan_follows_groups(t);
    lemma_flushed_names(scan_display(t)->Ok_0);
}

/// No literal block of `bs` is empty, and no two literal blocks stand side
/// by side.
pub open spec fn literals_apart(bs: Seq<DisplayBlock>) -> bool
    decreases bs.len(),
{
    if bs.len() == 0 {
        true
    } else {
        let rest = bs.drop_last();
        &&& literals_apart(rest)
        &&& match bs.last() {
            DisplayBlock::Literal(t) => t.len() > 0 && (rest.len() == 0 || !(rest.last() is Literal)),
            _ => true,
        }
    }
}

proof fn lemma_literals_apart_push(bs: Seq<DisplayBlock>, b: DisplayBlock)
    requires
        literals_apart(bs),
        b matches DisplayBlock::Literal(t) ==> t.len() > 0 && (bs.len() == 0 || !(
        bs.last() is Literal)),
    ensures
        literals_apart(bs.push(b)),
{
    assert(bs.push(b).drop_last() == bs);
}

/// What the scan keeps true of the blocks it has built.
spec fn scan_keeps_apart(s: DisplayScan) -> bool {
    &&& literals_apart(s.blocks)
    &&& (s.state == ScanState::Text || s.state == ScanState::Escape) ==> (s.blocks.len() == 0
        || !(s.blocks.last() is Literal))
}

proof fn lemma_flushed_apart(s: DisplayScan)
    requires
        scan_keeps_apart(s),
        s.state == ScanState::Text,
    ensures
        literals_apart(flushed(s).blocks),
{
    if s.buffer.len() > 0 {
        lemma_literals_apart_push(s.blocks, DisplayBlock::Literal(s.buffer));
    }
}

proof fn lemma_end_block_apart(s: DisplayScan)
    requires
        literals_apart(s.blocks),
        end_block(s) is Ok,
    ensures
        scan_keeps_apart(end_block(s)->Ok_0),
{
    let b = block_for(s.name, s.args);
    assert(!(b is Literal));
    lemma_literals_apart_push(s.blocks, b);
}

proof fn lemma_scan_keeps_apart(t: Seq<char>)
    requires
        scan_display(t) is Ok,
    ensures
        scan_keeps_apart(scan_display(t)->Ok_0),
    decreases t.len(),
{
    if t.len() > 0 {
        let p = t.drop_last();
        let c = t.last();
        lemma_scan_keeps_apart(p);
        let s = scan_display(p)->Ok_0;
        let pos = (t.len() - 1) as nat;
        assert(scan_display(t) == display_step(s, pos, c));
        if s.state == ScanState::Text && c == '[' {
            lemma_flushed_apart(s);
        } else if s.state == ScanState::Block && c == ']' {
            lemma_end_block_apart(DisplayScan { name: trim(s.buffer), buffer: seq![], ..s });
        } else if s.state == ScanState::ArgumentList && c == ']' {
            if take_token(s) is Ok {
                lemma_end_block_apart(take_token(s)->Ok_0);
            }
        }
    }
}

/// A compiled control line never holds an empty literal, nor two literals
/// side by side: adjacent text is one literal.
pub proof fn lemma_literals_apart(t: Seq<char>)
    requires
        compile_display(t) is Ok,
    ensures
        literals_apart(compile_display(t)->Ok_0),
{
    lemma_scan_keeps_apart(t);
    lemma_flushed_apart(scan_display(t)->Ok_0);
}

/// Whether `c` has a meaning of its own in a control-line template outside
/// blocks.
pub open spec fn is_display_control(c: char) -> bool {
    c == '\\' || c == '[' || c == ']'
}

proof fn lemma_plain_scan(t: Seq<char>)
    requires
        forall|i: int| 0 <= i < t.len() ==> !is_display_control(#[trigger] t[i]),
    ensures
        scan_display(t) == Ok::<DisplayScan, DisplayFault>(
            DisplayScan { buffer: t, ..initial_scan() },
        ),
    decreases t.len(),
{
    if t.len() > 0 {
        let p = t.drop_last();
        assert forall|i: int| 0 <= i < p.len() implies !is_display_control(#[trigger] p[i]) by {
            assert(p[i] == t[i]);
        }
        lemma_plain_scan(p);
        assert(!is_display_control(t[t.len() - 1]));
        assert(p.push(t.last()) == t);
        let s = DisplayScan { buffer: p, ..initial_scan() };
        assert(display_step(s, (t.len() - 1) as nat, t.last()) == Ok::<DisplayScan, DisplayFault>(
            DisplayScan { buffer: t, ..initial_scan() },
        ));
    } else {
        assert(t == Seq::<char>::empty());
    }
}

/// A template without `\`, `[` and `]` is one literal, or nothing when empty.
pub proof fn lemma_plain_text_is_one_literal(t: Seq<char>)
    requires
        forall|i: int| 0 <= i < t.len() ==> !is_display_control(#[trigger] t[i]),
    ensures
        compile_display(t) == if t.len() == 0 {
            Ok::<Seq<DisplayBlock>, DisplayFault>(seq![])
        } else {
            Ok::<Seq<DisplayBlock>, DisplayFault>(seq![DisplayBlock::Literal(t)])
        },
{
    lemma_plain_scan(t);
}

} // verus!

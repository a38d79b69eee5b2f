//! A printf-style formatter over a NUL-terminated format string and a typed
//! argument list. Output is produced one byte at a time by `Printf`, so the
//! caller can hand each byte to the console before the next is computed.

use vstd::prelude::*;
use crate::digits::{digits, low_nibbles, DigitRun};

verus! {

pub const NUL: u8 = 0;
pub const PERCENT: u8 = 37;
pub const MINUS: u8 = 45;
pub const ZERO: u8 = 48;
pub const LETTER_D: u8 = 100;
pub const LETTER_S: u8 = 115;
pub const LETTER_X: u8 = 120;

/// One formatter argument, tagged with its type: `%s` takes a `Str`, `%d`
/// an `Int` and `%x` a `Hex`.
#[derive(Clone, Copy)]
pub enum Arg<'a> {
    /// A string, read up to its first NUL byte (or its end).
    Str(&'a [u8]),
    Int(i32),
    Hex(u32),
}

/// The bytes of `s` from index `i` up to, not including, the first NUL.
pub open spec fn cstr(s: Seq<u8>, i: int) -> Seq<u8>
    decreases s.len() - i,
{
    if i < 0 || i >= s.len() || s[i] == NUL {
        Seq::empty()
    } else {
        seq![s[i]] + cstr(s, i + 1)
    }
}

/// `%d`: `0` for zero, else an optional `-` and the decimal digits of the
/// magnitude.
pub open spec fn render_i32(v: i32) -> Seq<u8> {
    if v == 0 {
        seq![ZERO]
    } else if v < 0 {
        seq![MINUS] + digits((-v) as nat, 10)
    } else {
        digits(v as nat, 10)
    }
}

/// `%x`: `0` for zero, else the lowercase hex digits of the seven low
/// nibbles, without leading zeros.
pub open spec fn render_hex(v: u32) -> Seq<u8> {
    if v == 0 {
        seq![ZERO]
    } else {
        low_nibbles(v as nat % 0x1000_0000)
    }
}

pub open spec fn render_arg(a: Arg) -> Seq<u8> {
    match a {
        Arg::Str(s) => cstr(s@, 0),
        Arg::Int(v) => render_i32(v),
        Arg::Hex(v) => render_hex(v),
    }
}

/// The directives that consume an argument.
pub open spec fn takes_arg(c: u8) -> bool {
    c == LETTER_S || c == LETTER_D || c == LETTER_X
}

/// Whether argument `a` is of the type that directive `c` consumes. The
/// smallest `i32` is left out: its magnitude does not fit an `i32`.
pub open spec fn arg_fits(c: u8, a: Arg) -> bool {
    match a {
        Arg::Str(_) => c == LETTER_S,
        Arg::Int(v) => c == LETTER_D && v != i32::MIN,
        Arg::Hex(_) => c == LETTER_X,
    }
}

/// What the formatter emits for `fmt` from index `i`, with the arguments
/// from index `j` still to consume. A `%` before the terminator ends the
/// scan; a `%` before a byte that is not a directive (`%%` among them)
/// emits that byte and consumes nothing.
pub open spec fn format_from(fmt: Seq<u8>, i: int, args: Seq<Arg>, j: int) -> Seq<u8>
    decreases fmt.len() - i,
{
    if i < 0 || i >= fmt.len() || fmt[i] == NUL {
        Seq::empty()
    } else if fmt[i] != PERCENT {
        seq![fmt[i]] + format_from(fmt, i + 1, args, j)
    } else if i + 1 >= fmt.len() || fmt[i + 1] == NUL {
        Seq::empty()
    } else if takes_arg(fmt[i + 1]) {
        render_arg(args[j]) + format_from(fmt, i + 2, args, j + 1)
    } else {
        seq![fmt[i + 1]] + format_from(fmt, i + 2, args, j)
    }
}

/// Whether every directive of `fmt` from index `i` finds an argument of its
/// type, in order, from index `j`.
pub open spec fn args_fit(fmt: Seq<u8>, i: int, args: Seq<Arg>, j: int) -> bool
    decreases fmt.len() - i,
{
    if i < 0 || i >= fmt.len() || fmt[i] == NUL {
        true
    } else if fmt[i] != PERCENT {
        args_fit(fmt, i + 1, args, j)
    } else if i + 1 >= fmt.len() || fmt[i + 1] == NUL {
        true
    } else if takes_arg(fmt[i + 1]) {
        0 <= j < args.len() && arg_fits(fmt[i + 1], args[j]) && args_fit(fmt, i + 2, args, j + 1)
    } else {
        args_fit(fmt, i + 2, args, j)
    }
}

/// The complete output of formatting `fmt` with `args`.
pub open spec fn format_output(fmt: Seq<u8>, args: Seq<Arg>) -> Seq<u8> {
    format_from(fmt, 0, args, 0)
}

/// Tells whether `args` suit `fmt`: one argument of the right type for each
/// directive, in order.
pub fn check_args(fmt: &[u8], args: &[Arg]) -> (r: bool)
    ensures
        r == args_fit(fmt@, 0, args@, 0),
{
    let mut i: usize = 0;
    let mut j: usize = 0;
    while i < fmt.len() && fmt[i] != NUL
        invariant
            i <= fmt@.len(),
            j <= args@.len(),
            args_fit(fmt@, i as int, args@, j as int) == args_fit(fmt@, 0, args@, 0),
        decreases fmt@.len() - i,
    {
        if fmt[i] != PERCENT {
            i = i + 1;
        } else if i + 1 >= fmt.len() || fmt[i + 1] == NUL {
            return true;
        } else {
            let c = fmt[i + 1];
            if c == LETTER_S || c == LETTER_D || c == LETTER_X {
                if j >= args.len() {
                    return false;
                }
                let fits = match args[j] {
                    Arg::Str(_) => c == LETTER_S,
                    Arg::Int(v) => c == LETTER_D && v != i32::MIN,
                    Arg::Hex(_) => c == LETTER_X,
                };
                if !fits {
                    return false;
                }
                j = j + 1;
            }
            i = i + 2;
        }
    }
    true
}

/// What remains of the directive being emitted.
#[derive(Clone, Copy)]
enum Pending<'a> {
    /// Nothing: the next byte comes from the format string.
    Scan,
    /// The rest of a `%s` argument from index `at`.
    Str { s: &'a [u8], at: usize },
    /// The remaining digits of a `%d` or `%x` argument.
    Digits(DigitRun),
}

impl<'a> Pending<'a> {
    spec fn wf(self) -> bool {
        match self {
            Pending::Scan => true,
            Pending::Str { s, at } => at <= s@.len(),
            Pending::Digits(run) => run.wf(),
        }
    }

    spec fn out(self) -> Seq<u8> {
        match self {
            Pending::Scan => Seq::empty(),
            Pending::Str { s, at } => cstr(s@, at as int),
            Pending::Digits(run) => run.out(),
        }
    }

    spec fn rank(self) -> int {
        match self {
            Pending::Scan => 0,
            _ => 1,
        }
    }
}

/// A formatter in progress: each call of `next_byte` yields the next byte
/// of the output, with no buffering and no allocation.
pub struct Printf<'a> {
    fmt: &'a [u8],
    args: &'a [Arg<'a>],
    pos: usize,
    next_arg: usize,
    pending: Pending<'a>,
}

impl<'a> Printf<'a> {
    pub closed spec fn wf(self) -> bool {
        &&& self.pos <= self.fmt@.len()
        &&& self.next_arg <= self.args@.len()
        &&& args_fit(self.fmt@, self.pos as int, self.args@, self.next_arg as int)
        &&& self.pending.wf()
    }

    /// The bytes still to be emitted.
    pub closed spec fn rest(self) -> Seq<u8> {
        self.pending.out() + format_from(
            self.fmt@,
            self.pos as int,
            self.args@,
            self.next_arg as int,
        )
    }

    /// Starts formatting `fmt` with `args`; the whole output is still ahead.
    pub fn new(fmt: &'a [u8], args: &'a [Arg<'a>]) -> (r: Printf<'a>)
        requires
            args_fit(fmt@, 0, args@, 0),
        ensures
            r.wf(),
            r.rest() == format_output(fmt@, args@),
    {
        let r = Printf { fmt, args, pos: 0, next_arg: 0, pending: Pending::Scan };
        assert(r.rest() =~= format_output(fmt@, args@));
        r
    }

    /// The next output byte, or `None` once the output is complete.
    pub fn next_byte(&mut self) -> (r: Option<u8>)
        requires
            old(self).wf(),
        ensures
            final(self).wf(),
            old(self).rest().len() == 0 ==> r is None && final(self).rest().len() == 0,
            old(self).rest().len() > 0 ==> r == Some(old(self).rest()[0]) && final(self).rest()
                == old(self).rest().drop_first(),
    {
        loop
            invariant
                self.wf(),
                self.rest() == old(self).rest(),
            decreases self.fmt@.len() - self.pos, self.pending.rank(),
        {
            let ghost tail = format_from(
                self.fmt@,
                self.pos as int,
                self.args@,
                self.next_arg as int,
            );
            match self.pending {
                Pending::Str { s, at } => {
                    if at < s.len() && s[at] != NUL {
                        self.pending = Pending::Str { s, at: at + 1 };
                        assert(old(self).rest() =~= seq![s[at as int]] + self.rest());
                        return Some(s[at]);
                    }
                    self.pending = Pending::Scan;
                    assert(self.rest() =~= old(self).rest());
                },
                Pending::Digits(run) => {
                    let mut run = run;
                    match run.next_digit() {
                        Some(d) => {
                            self.pending = Pending::Digits(run);
                            assert(old(self).rest() =~= seq![d] + self.rest());
                            return Some(d);
                        },
                        None => {
                            self.pending = Pending::Scan;
                            assert(self.rest() =~= old(self).rest());
                        },
                    }
                },
                Pending::Scan => {
                    assert(self.rest() =~= tail);
                    let len = self.fmt.len();
                    if self.pos >= len || self.fmt[self.pos] == NUL {
                        return None;
                    }
                    let c = self.fmt[self.pos];
                    if c != PERCENT {
                        self.pos = self.pos + 1;
                        assert(old(self).rest() =~= seq![c] + self.rest());
                        return Some(c);
                    }
                    if self.pos + 1 >= len || self.fmt[self.pos + 1] == NUL {
                        return None;
                    }
                    let d = self.fmt[self.pos + 1];
                    self.pos = self.pos + 2;
                    if d == LETTER_S || d == LETTER_D || d == LETTER_X {
                        let a = self.args[self.next_arg];
                        self.next_arg = self.next_arg + 1;
                        match a {
                            Arg::Str(s) => {
                                self.pending = Pending::Str { s, at: 0 };
                            },
                            Arg::Int(v) => {
                                if v == 0 {
                                    assert(old(self).rest() =~= seq![ZERO] + self.rest());
                                    return Some(ZERO);
                                }
                                if v < 0 {
                                    self.pending = Pending::Digits(DigitRun::decimal((-v) as u32));
                                    assert(old(self).rest() =~= seq![MINUS] + self.rest());
                                    return Some(MINUS);
                                }
                                self.pending = Pending::Digits(DigitRun::decimal(v as u32));
                            },
                            Arg::Hex(v) => {
                                if v == 0 {
                                    assert(old(self).rest() =~= seq![ZERO] + self.rest());
                                    return Some(ZERO);
                                }
                                self.pending = Pending::Digits(DigitRun::hex(v));
                            },
                        }
                        assert(self.rest() =~= old(self).rest());
                    } else {
                        assert(old(self).rest() =~= seq![d] + self.rest());
                        return Some(d);
                    }
                },
            }
        }
    }
}

/// Formats `fmt` with `args` to completion, collecting the bytes that
/// `Printf` yields one by one.
pub fn render(fmt: &[u8], args: &[Arg]) -> (r: Vec<u8>)
    requires
        args_fit(fmt@, 0, args@, 0),
    ensures
        r@ == format_output(fmt@, args@),
{
    let mut p = Printf::new(fmt, args);
    let mut out: Vec<u8> = Vec::new();
    loop
        invariant
            p.wf(),
            out@ + p.rest() == format_output(fmt@, args@),
        decreases p.rest().len(),
    {
        match p.next_byte() {
            Some(b) => {
                out.push(b);
            },
            None => {
                assert(out@ =~= format_output(fmt@, args@));
                return out;
            },
        }
    }
}

} // verus!

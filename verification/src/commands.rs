//! Parsing of debugger commands and breakpoint targets.
//!
//! A command line is split into whitespace tokens elsewhere; this module
//! turns the tokens into a command, and classifies the argument of a
//! breakpoint command: a raw hexadecimal address (with or without a
//! leading `*`), a decimal source line number, or a function name to be
//! resolved against the debug symbols by the caller.

use vstd::prelude::*;
use vstd::string::StrSliceExecFns;
use crate::strutil::str_eq;

verus! {

/// A breakpoint location: the address where the trap byte sits and the
/// instruction byte it replaced.
#[derive(Clone)]
pub struct Breakpoint {
    pub addr: usize,
    pub orig_byte: u8,
}

/// One parsed debugger command.
pub enum DebuggerCommand {
    Quit,
    Run(Vec<String>),
    Continue,
    Backtrace,
    Break(String),
}

impl DebuggerCommand {
    /// Parses one command from its whitespace-split tokens. `None` means
    /// the first token is not a known command word.
    pub fn from_tokens(tokens: &Vec<&str>) -> (r: Option<DebuggerCommand>)
        requires
            tokens@.len() > 0,
            tokens@[0]@ == "b"@ || tokens@[0]@ == "break"@ ==> tokens@.len() >= 2,
        ensures
            ({
                let head = tokens@[0]@;
                if head == "q"@ || head == "quit"@ {
                    r matches Some(c) && c is Quit
                } else if head == "r"@ || head == "run"@ {
                    r matches Some(DebuggerCommand::Run(args)) && args.deep_view()
                        == tokens.deep_view().drop_first()
                } else if head == "c"@ || head == "cont"@ || head == "continue"@ {
                    r matches Some(c) && c is Continue
                } else if head == "bt"@ || head == "back"@ || head == "backtrace"@ {
                    r matches Some(c) && c is Backtrace
                } else if head == "b"@ || head == "break"@ {
                    r matches Some(DebuggerCommand::Break(a)) && a@ == tokens@[1]@
                } else {
                    r is None
                }
            }),
    {
        let head = tokens[0];
        if str_eq(head, "q") || str_eq(head, "quit") {
            Some(DebuggerCommand::Quit)
        } else if str_eq(head, "r") || str_eq(head, "run") {
            let mut args: Vec<String> = Vec::new();
            let mut j: usize = 1;
            while j < tokens.len()
                invariant
                    1 <= j <= tokens@.len(),
                    args.deep_view() == tokens.deep_view().subrange(1, j as int),
                decreases tokens@.len() - j,
            {
                let ghost before = args.deep_view();
                args.push(tokens[j].to_owned());
                assert(args.deep_view() =~= before.push(tokens.deep_view()[j as int]));
                assert(args.deep_view() =~= tokens.deep_view().subrange(1, j as int + 1));
                j += 1;
            }
            assert(tokens.deep_view().subrange(1, tokens@.len() as int) =~= tokens.deep_view()
                .drop_first());
            Some(DebuggerCommand::Run(args))
        } else if str_eq(head, "c") || str_eq(head, "cont") || str_eq(head, "continue") {
            Some(DebuggerCommand::Continue)
        } else if str_eq(head, "bt") || str_eq(head, "back") || str_eq(head, "backtrace") {
            Some(DebuggerCommand::Backtrace)
        } else if str_eq(head, "break") || str_eq(head, "b") {
            Some(DebuggerCommand::Break(tokens[1].to_owned()))
        } else {
            None
        }
    }
}

/// The numeric value of one hexadecimal digit, or 16 for any other character.
pub open spec fn hex_digit(c: char) -> nat {
    if '0' <= c <= '9' {
        (c as nat - '0' as nat) as nat
    } else if 'a' <= c <= 'f' {
        (c as nat - 'a' as nat + 10) as nat
    } else if 'A' <= c <= 'F' {
        (c as nat - 'A' as nat + 10) as nat
    } else {
        16
    }
}

/// Every character is a hexadecimal digit.
pub open spec fn all_hex(s: Seq<char>) -> bool {
    forall|i: int| 0 <= i < s.len() ==> hex_digit(#[trigger] s[i]) < 16
}

/// The value of a hexadecimal numeral, most significant digit first.
pub open spec fn hex_value(s: Seq<char>) -> nat
    decreases s.len(),
{
    if s.len() == 0 {
        0
    } else {
        hex_value(s.drop_last()) * 16 + hex_digit(s.last())
    }
}

/// The numeric value of one decimal digit, or 10 for any other character.
pub open spec fn dec_digit(c: char) -> nat {
    if '0' <= c <= '9' {
        (c as nat - '0' as nat) as nat
    } else {
        10
    }
}

/// Every character is a decimal digit.
pub open spec fn all_dec(s: Seq<char>) -> bool {
    forall|i: int| 0 <= i < s.len() ==> dec_digit(#[trigger] s[i]) < 10
}

/// The value of a decimal numeral, most significant digit first.
pub open spec fn dec_value(s: Seq<char>) -> nat
    decreases s.len(),
{
    if s.len() == 0 {
        0
    } else {
        dec_value(s.drop_last()) * 10 + dec_digit(s.last())
    }
}

/// What parsing a hexadecimal numeral yields: its value when the string
/// is a nonempty run of hexadecimal digits whose value fits, else nothing.
pub open spec fn hex_result(s: Seq<char>) -> Option<usize> {
    if s.len() > 0 && all_hex(s) && hex_value(s) <= usize::MAX {
        Some(hex_value(s) as usize)
    } else {
        None
    }
}

/// What parsing a decimal numeral yields, on the same terms.
pub open spec fn dec_result(s: Seq<char>) -> Option<usize> {
    if s.len() > 0 && all_dec(s) && dec_value(s) <= usize::MAX {
        Some(dec_value(s) as usize)
    } else {
        None
    }
}

fn hex_digit_of(c: char) -> (d: u32)
    ensures
        d as nat == hex_digit(c),
{
    if '0' <= c && c <= '9' {
        c as u32 - '0' as u32
    } else if 'a' <= c && c <= 'f' {
        c as u32 - 'a' as u32 + 10
    } else if 'A' <= c && c <= 'F' {
        c as u32 - 'A' as u32 + 10
    } else {
        16
    }
}

fn dec_digit_of(c: char) -> (d: u32)
    ensures
        d as nat == dec_digit(c),
{
    if '0' <= c && c <= '9' {
        c as u32 - '0' as u32
    } else {
        10
    }
}

proof fn lemma_hex_value_prefix_le(s: Seq<char>, i: int)
    requires
        0 <= i <= s.len(),
    ensures
        hex_value(s.subrange(0, i)) <= hex_value(s),
    decreases s.len() - i,
{
    if i < s.len() {
        lemma_hex_value_prefix_le(s, i + 1);
        let longer = s.subrange(0, i + 1);
        assert(longer.drop_last() =~= s.subrange(0, i));
        assert(hex_value(longer) == hex_value(s.subrange(0, i)) * 16 + hex_digit(longer.last()));
    } else {
        assert(s.subrange(0, i) =~= s);
    }
}

proof fn lemma_dec_value_prefix_le(s: Seq<char>, i: int)
    requires
        0 <= i <= s.len(),
    ensures
        dec_value(s.subrange(0, i)) <= dec_value(s),
    decreases s.len() - i,
{
    if i < s.len() {
        lemma_dec_value_prefix_le(s, i + 1);
        let longer = s.subrange(0, i + 1);
        assert(longer.drop_last() =~= s.subrange(0, i));
        assert(dec_value(longer) == dec_value(s.subrange(0, i)) * 10 + dec_digit(longer.last()));
    } else {
        assert(s.subrange(0, i) =~= s);
    }
}

/// Parses a hexadecimal numeral, most significant digit first.
pub fn parse_hex(s: &str) -> (r: Option<usize>)
    ensures
        r == hex_result(s@),
{
    let n = s.unicode_len();
    if n == 0 {
        return None;
    }
    let mut acc: usize = 0;
    let mut i: usize = 0;
    while i < n
        invariant
            i <= n,
            n == s@.len(),
            0 < n,
            all_hex(s@.subrange(0, i as int)),
            acc as nat == hex_value(s@.subrange(0, i as int)),
        decreases n - i,
    {
        let ghost pre = s@.subrange(0, i as int);
        let ghost ext = s@.subrange(0, i as int + 1);
        assert(ext.drop_last() =~= pre);
        assert(ext.last() == s@[i as int]);
        let c = s.get_char(i);
        let d = hex_digit_of(c);
        if d >= 16 {
            assert(hex_digit(s@[i as int]) >= 16);
            assert(!all_hex(s@));
            return None;
        }
        let wide: u128 = acc as u128 * 16 + d as u128;
        assert(wide == hex_value(ext));
        if wide > usize::MAX as u128 {
            proof {
                lemma_hex_value_prefix_le(s@, i as int + 1);
            }
            assert(hex_value(s@) > usize::MAX);
            return None;
        }
        acc = wide as usize;
        i += 1;
    }
    assert(s@.subrange(0, n as int) =~= s@);
    Some(acc)
}

/// Parses a decimal numeral, most significant digit first.
pub fn parse_decimal(s: &str) -> (r: Option<usize>)
    ensures
        r == dec_result(s@),
{
    let n = s.unicode_len();
    if n == 0 {
        return None;
    }
    let mut acc: usize = 0;
    let mut i: usize = 0;
    while i < n
        invariant
            i <= n,
            n == s@.len(),
            0 < n,
            all_dec(s@.subrange(0, i as int)),
            acc as nat == dec_value(s@.subrange(0, i as int)),
        decreases n - i,
    {
        let ghost pre = s@.subrange(0, i as int);
        let ghost ext = s@.subrange(0, i as int + 1);
        assert(ext.drop_last() =~= pre);
        assert(ext.last() == s@[i as int]);
        let c = s.get_char(i);
        let d = dec_digit_of(c);
        if d >= 10 {
            assert(dec_digit(s@[i as int]) >= 10);
            assert(!all_dec(s@));
            return None;
        }
        let wide: u128 = acc as u128 * 10 + d as u128;
        assert(wide == dec_value(ext));
        if wide > usize::MAX as u128 {
            proof {
                lemma_dec_value_prefix_le(s@, i as int + 1);
            }
            assert(dec_value(s@) > usize::MAX);
            return None;
        }
        acc = wide as usize;
        i += 1;
    }
    assert(s@.subrange(0, n as int) =~= s@);
    Some(acc)
}

/// Where a breakpoint argument points.
pub enum BreakTarget {
    /// A raw address written `0x…` or `*0x…`; nothing when the digits
    /// are bad or the value does not fit.
    Raw(Option<usize>),
    /// A bare decimal numeral: a source line number.
    Line(usize),
    /// Anything else: a function name, resolved against the debug
    /// symbols by the caller.
    Symbol(String),
}

/// Classifies the argument of a breakpoint command.
pub fn parse_break_target(address: &str) -> (t: BreakTarget)
    ensures
        ({
            let s = address@;
            if s.len() >= 2 && s[0] == '0' && (s[1] == 'x' || s[1] == 'X') {
                t == BreakTarget::Raw(hex_result(s.skip(2)))
            } else if s.len() >= 3 && s[0] == '*' && s[1] == '0' && (s[2] == 'x' || s[2] == 'X') {
                t == BreakTarget::Raw(hex_result(s.skip(3)))
            } else if dec_result(s) is Some {
                t == BreakTarget::Line((dec_value(s) as usize))
            } else {
                t matches BreakTarget::Symbol(a) && a@ == s
            }
        }),
{
    let n = address.unicode_len();
    if n >= 2 && address.get_char(0) == '0' && (address.get_char(1) == 'x' || address.get_char(1)
        == 'X') {
        let digits = address.substring_char(2, n);
        assert(digits@ =~= address@.skip(2));
        BreakTarget::Raw(parse_hex(digits))
    } else if n >= 3 && address.get_char(0) == '*' && address.get_char(1) == '0' && (
    address.get_char(2) == 'x' || address.get_char(2) == 'X') {
        let digits = address.substring_char(3, n);
        assert(digits@ =~= address@.skip(3));
        BreakTarget::Raw(parse_hex(digits))
    } else {
        match parse_decimal(address) {
            Some(line) => BreakTarget::Line(line),
            None => BreakTarget::Symbol(address.to_owned()),
        }
    }
}

} // verus!

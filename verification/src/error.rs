//! Errors reported by the machine, and their human-readable messages.
use vstd::prelude::*;
use vstd::string::StringExecFns;

verus! {

/// Why a machine operation failed.
#[derive(Debug, Clone, Copy, PartialEq, Eq, Structural)]
pub enum Chip8Error {
    /// The fetched 16-bit word does not decode to any CHIP-8 instruction.
    UnknownOpcode(u16),
    /// A `CALL` was executed with all sixteen stack slots in use.
    StackOverflow,
    /// A `RET` was executed with an empty call stack.
    StackUnderflow,
    /// The ROM does not fit in the 3,584 bytes of program memory.
    RomTooLarge(usize),
}

/// The character of hexadecimal digit `d` (upper case).
pub open spec fn hex_char(d: int) -> char {
    if d < 10 {
        (('0' as int) + d) as char
    } else {
        (('A' as int) + (d - 10)) as char
    }
}

/// `word` as `0x` followed by exactly four upper-case hex digits.
pub open spec fn hex_word(word: u16) -> Seq<char> {
    seq![
        '0',
        'x',
        hex_char((word / 0x1000) as int),
        hex_char(((word / 0x100) % 16) as int),
        hex_char(((word / 0x10) % 16) as int),
        hex_char((word % 16) as int),
    ]
}

/// `n` in decimal, without leading zeros.
pub open spec fn decimal(n: nat) -> Seq<char>
    decreases n,
{
    if n < 10 {
        seq![hex_char(n as int)]
    } else {
        decimal(n / 10).push(hex_char((n % 10) as int))
    }
}

/// The message describing `e`.
pub open spec fn error_message(e: Chip8Error) -> Seq<char> {
    match e {
        Chip8Error::UnknownOpcode(op) => "unknown opcode "@ + hex_word(op),
        Chip8Error::StackOverflow => "call stack overflow"@,
        Chip8Error::StackUnderflow => "return with empty call stack"@,
        Chip8Error::RomTooLarge(n) => "ROM is "@ + decimal(n as nat) + " bytes; at most 3584 fit"@,
    }
}

/// The one-character string of hexadecimal digit `d`.
fn digit_str(d: u16) -> (s: &'static str)
    requires
        d < 16,
    ensures
        s@ == seq![hex_char(d as int)],
{
    match d {
        0 => { proof { reveal_strlit("0"); } "0" },
        1 => { proof { reveal_strlit("1"); } "1" },
        2 => { proof { reveal_strlit("2"); } "2" },
        3 => { proof { reveal_strlit("3"); } "3" },
        4 => { proof { reveal_strlit("4"); } "4" },
        5 => { proof { reveal_strlit("5"); } "5" },
        6 => { proof { reveal_strlit("6"); } "6" },
        7 => { proof { reveal_strlit("7"); } "7" },
        8 => { proof { reveal_strlit("8"); } "8" },
        9 => { proof { reveal_strlit("9"); } "9" },
        10 => { proof { reveal_strlit("A"); } "A" },
        11 => { proof { reveal_strlit("B"); } "B" },
        12 => { proof { reveal_strlit("C"); } "C" },
        13 => { proof { reveal_strlit("D"); } "D" },
        14 => { proof { reveal_strlit("E"); } "E" },
        _ => { proof { reveal_strlit("F"); } "F" },
    }
}

/// Append `n` in decimal to `s`.
fn append_decimal(s: &mut String, n: usize)
    ensures
        final(s)@ == old(s)@ + decimal(n as nat),
    decreases n,
{
    if n >= 10 {
        append_decimal(s, n / 10);
    }
    s.append(digit_str((n % 10) as u16));
    assert(final(s)@ =~= old(s)@ + decimal(n as nat)) by {
        if n >= 10 {
            assert(decimal(n as nat) == decimal((n / 10) as nat).push(hex_char((n % 10) as int)));
        }
    }
}

impl Chip8Error {
    /// A human-readable description of the error.
    pub fn message(&self) -> (s: String)
        ensures
            s@ == error_message(*self),
    {
        match self {
            Chip8Error::UnknownOpcode(op) => {
                let mut s = String::from_str("unknown opcode ");
                s.append("0x");
                s.append(digit_str(*op / 0x1000));
                s.append(digit_str((*op / 0x100) % 16));
                s.append(digit_str((*op / 0x10) % 16));
                s.append(digit_str(*op % 16));
                proof {
                    reveal_strlit("0x");
                    assert(s@ =~= error_message(*self));
                }
                s
            },
            Chip8Error::StackOverflow => String::from_str("call stack overflow"),
            Chip8Error::StackUnderflow => String::from_str("return with empty call stack"),
            Chip8Error::RomTooLarge(n) => {
                let mut s = String::from_str("ROM is ");
                append_decimal(&mut s, *n);
                s.append(" bytes; at most 3584 fit");
                s
            },
        }
    }
}

} // verus!

//! Reading the command line.
//!
//! Three shapes are accepted: an address alone, `-j <workers> <address>`, and
//! `-h` or `-help`. Flags are matched exactly. Whether an argument is an
//! address is decided by the caller, who hands each argument over together
//! with the address it stands for, if it stands for one.

use crate::ports::DEFAULT_WORKERS;
use vstd::prelude::*;
use vstd::string::StrSliceExecFns;
use vstd::string::StringExecFns;

verus! {

/// An IP address as a number: 32 bits for version 4, 128 bits for version 6,
/// the first octet in the highest bits.
#[derive(Clone, Copy, Debug, PartialEq, Eq, Structural)]
pub enum IpAddress {
    V4(u32),
    V6(u128),
}

/// One argument of the command line: its text, and the address that the text
/// denotes, where it denotes one.
#[derive(Debug)]
pub struct Token {
    pub text: String,
    pub address: Option<IpAddress>,
}

/// Why a command line was not accepted.
#[derive(Clone, Copy, Debug, PartialEq, Eq, Structural)]
pub enum ArgumentError {
    /// Nothing follows the program's name.
    NotEnoughArguments,
    /// More arguments than the shape allows: more than three behind the
    /// program's name, or any behind an address or a help flag.
    TooManyArguments,
    /// Help was asked for: there is nothing to scan.
    Help,
    /// `-j` without exactly a number of workers and an address behind it.
    InvalidFlagSyntax,
    /// The argument behind the number of workers is no address.
    InvalidAddress,
    /// The argument behind `-j` is no number of workers: no number from 1 to
    /// 65535.
    InvalidThreadCount,
    /// The first argument is neither an address nor a known flag.
    InvalidSyntax,
}

/// What an accepted command line asks for.
#[derive(Debug)]
pub struct Argument {
    /// The flag that was given: `-j`, or empty where there was none.
    pub flag: String,
    /// The host to scan.
    pub ipaddr: IpAddress,
    /// The number of workers.
    pub threads: u16,
}

/// `c` is one of the ten decimal digits.
pub open spec fn is_digit(c: char) -> bool {
    '0' <= c <= '9'
}

/// Every character of `s` is a decimal digit.
pub open spec fn all_digits(s: Seq<char>) -> bool {
    forall|i: int| 0 <= i < s.len() ==> is_digit(#[trigger] s[i])
}

/// The number that the decimal digits `s` write.
pub open spec fn digits_value(s: Seq<char>) -> nat
    decreases s.len(),
{
    if s.len() == 0 {
        0
    } else {
        digits_value(s.drop_last()) * 10 + (s.last() as nat - '0' as nat) as nat
    }
}

/// The number that `s` writes: decimal digits, at least one, with or without
/// a `+` before them, whose value does not exceed 65535.
pub open spec fn parsed_count(s: Seq<char>) -> Option<u16> {
    let digits = if s.len() > 0 && s[0] == '+' {
        s.drop_first()
    } else {
        s
    };
    if digits.len() > 0 && all_digits(digits) && digits_value(digits) <= 65535 {
        Some(digits_value(digits) as u16)
    } else {
        None
    }
}

/// What a command line means, `args[0]` being the program's name: the flag,
/// the address and the number of workers, or the reason why it is refused.
pub open spec fn reading(args: Seq<Token>) -> Result<(Seq<char>, IpAddress, u16), ArgumentError> {
    if args.len() < 2 {
        Err(ArgumentError::NotEnoughArguments)
    } else if args.len() > 4 {
        Err(ArgumentError::TooManyArguments)
    } else if let Some(address) = args[1].address {
        if args.len() != 2 {
            Err(ArgumentError::TooManyArguments)
        } else {
            Ok((Seq::empty(), address, DEFAULT_WORKERS))
        }
    } else if args[1].text@ == "-h"@ || args[1].text@ == "-help"@ {
        if args.len() != 2 {
            Err(ArgumentError::TooManyArguments)
        } else {
            Err(ArgumentError::Help)
        }
    } else if args[1].text@ == "-j"@ {
        if args.len() != 4 {
            Err(ArgumentError::InvalidFlagSyntax)
        } else if args[3].address is None {
            Err(ArgumentError::InvalidAddress)
        } else if parsed_count(args[2].text@) is None || parsed_count(args[2].text@) == Some(0u16) {
            Err(ArgumentError::InvalidThreadCount)
        } else {
            Ok(("-j"@, args[3].address->0, parsed_count(args[2].text@)->0))
        }
    } else {
        Err(ArgumentError::InvalidSyntax)
    }
}

/// A command line is accepted in exactly two shapes: an address alone, and
/// `-j` followed by a number of workers from 1 to 65535 and an address. The
/// word `-j` is taken to denote no address.
pub proof fn lemma_accepted_shapes(args: Seq<Token>)
    requires
        args.len() >= 2 && args[1].text@ == "-j"@ ==> args[1].address is None,
    ensures
        reading(args) is Ok <==> (args.len() == 2 && args[1].address is Some) || (args.len() == 4
            && args[1].text@ == "-j"@ && args[3].address is Some && parsed_count(args[2].text@)
            is Some && parsed_count(args[2].text@)->0 >= 1),
        reading(args) matches Ok(r) ==> r.2 >= 1,
{
    reveal_strlit("-j");
    reveal_strlit("-h");
    reveal_strlit("-help");
    if args.len() >= 2 && args[1].text@ == "-j"@ {
        assert(args[1].text@[1] == 'j');
        assert("-h"@[1] == 'h');
        assert("-help"@.len() == 5);
    }
}

/// A longer run of digits writes no smaller number than its beginning.
proof fn lemma_digits_value_grows(s: Seq<char>, n: int)
    requires
        0 <= n <= s.len(),
        all_digits(s),
    ensures
        digits_value(s.take(n)) <= digits_value(s),
    decreases s.len(),
{
    if n == s.len() {
        assert(s.take(n) =~= s);
    } else {
        assert(all_digits(s.drop_last()));
        lemma_digits_value_grows(s.drop_last(), n);
        assert(s.drop_last().take(n) =~= s.take(n));
    }
}

/// Reads a number from 0 to 65535.
pub fn parse_count(s: &str) -> (count: Option<u16>)
    ensures
        count == parsed_count(s@),
{
    let n: usize = s.unicode_len();
    let first: usize = if n > 0 && s.get_char(0) == '+' {
        1
    } else {
        0
    };
    if first == n {
        return None;
    }
    let ghost digits = s@.subrange(first as int, n as int);
    assert(digits =~= if s@.len() > 0 && s@[0] == '+' {
        s@.drop_first()
    } else {
        s@
    });
    let mut value: u32 = 0;
    let mut i: usize = first;
    assert(digits.take(0) =~= Seq::<char>::empty());
    while i < n
        invariant
            first <= i <= n,
            n == s@.len(),
            digits == s@.subrange(first as int, n as int),
            digits == (if s@.len() > 0 && s@[0] == '+' {
                s@.drop_first()
            } else {
                s@
            }),
            all_digits(digits.take(i - first)),
            value == digits_value(digits.take(i - first)),
            value <= 65535,
        decreases n - i,
    {
        let c: char = s.get_char(i);
        let ghost upto = digits.take(i - first + 1);
        assert(upto.drop_last() =~= digits.take(i - first));
        assert(upto.last() == c);
        if c < '0' || c > '9' {
            assert(!is_digit(digits[i - first]));
            return None;
        }
        let digit: u32 = (c as u32) - ('0' as u32);
        value = value * 10 + digit;
        assert(all_digits(upto)) by {
            assert forall|j: int| 0 <= j < upto.len() implies is_digit(#[trigger] upto[j]) by {
                if j < upto.len() - 1 {
                    assert(upto[j] == digits.take(i - first)[j]);
                }
            }
        }
        if value > 65535 {
            proof {
                if all_digits(digits) {
                    lemma_digits_value_grows(digits, i - first + 1);
                }
            }
            return None;
        }
        i = i + 1;
    }
    assert(digits.take(n - first) =~= digits);
    Some(value as u16)
}

/// Whether `text` is exactly `word`.
fn is_word(text: &String, word: &str) -> (same: bool)
    ensures
        same == (text@ == word@),
{
    let other = String::from_str(word);
    *text == other
}

impl ArgumentError {
    /// The reason in words.
    pub fn message(&self) -> (text: &'static str)
        ensures
            text@ == match *self {
                ArgumentError::NotEnoughArguments => "not enough arguments"@,
                ArgumentError::TooManyArguments => "too many arguments"@,
                ArgumentError::Help => "help"@,
                ArgumentError::InvalidFlagSyntax => "invalid syntax: expected -j <threads> <ipaddr>"@,
                ArgumentError::InvalidAddress => "not a valid IPADDR, must be IPv4 or IPv6"@,
                ArgumentError::InvalidThreadCount => "not a valid thread number provided"@,
                ArgumentError::InvalidSyntax => "invalid sytax"@,
            },
    {
        match self {
            ArgumentError::NotEnoughArguments => "not enough arguments",
            ArgumentError::TooManyArguments => "too many arguments",
            ArgumentError::Help => "help",
            ArgumentError::InvalidFlagSyntax => "invalid syntax: expected -j <threads> <ipaddr>",
            ArgumentError::InvalidAddress => "not a valid IPADDR, must be IPv4 or IPv6",
            ArgumentError::InvalidThreadCount => "not a valid thread number provided",
            ArgumentError::InvalidSyntax => "invalid sytax",
        }
    }
}

impl Argument {
    /// Reads the command line `args`, `args[0]` being the program's name. An
    /// accepted command line names at least one worker.
    pub fn new(args: &[Token]) -> (result: Result<Argument, ArgumentError>)
        ensures
            match result {
                Ok(a) => reading(args@) == Ok::<(Seq<char>, IpAddress, u16), ArgumentError>(
                    (a.flag@, a.ipaddr, a.threads),
                ),
                Err(e) => reading(args@) == Err::<(Seq<char>, IpAddress, u16), ArgumentError>(e),
            },
            result matches Ok(a) ==> a.threads >= 1,
    {
        if args.len() < 2 {
            return Err(ArgumentError::NotEnoughArguments);
        } else if args.len() > 4 {
            return Err(ArgumentError::TooManyArguments);
        }
        if let Some(ipaddr) = args[1].address {
            if args.len() != 2 {
                return Err(ArgumentError::TooManyArguments);
            }
            return Ok(Argument { flag: String::new(), ipaddr, threads: DEFAULT_WORKERS });
        }
        let flag = &args[1].text;
        if is_word(flag, "-h") || is_word(flag, "-help") {
            if args.len() != 2 {
                return Err(ArgumentError::TooManyArguments);
            }
            Err(ArgumentError::Help)
        } else if is_word(flag, "-j") {
            if args.len() != 4 {
                return Err(ArgumentError::InvalidFlagSyntax);
            }
            let ipaddr = match args[3].address {
                Some(a) => a,
                None => return Err(ArgumentError::InvalidAddress),
            };
            let threads = match parse_count(args[2].text.as_str()) {
                Some(n) => n,
                None => return Err(ArgumentError::InvalidThreadCount),
            };
            if threads == 0 {
                return Err(ArgumentError::InvalidThreadCount);
            }
            Ok(Argument { flag: flag.clone(), ipaddr, threads })
        } else {
            Err(ArgumentError::InvalidSyntax)
        }
    }
}

} // verus!

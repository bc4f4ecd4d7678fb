//! Command-line values: unsigned decimal numbers and the arguments of the
//! compute-unit filter.
use vstd::prelude::*;
use vstd::string::StrSliceExecFns;
use vstd::string::StringExecFns;

use crate::format::{decimal, digit_char};

verus! {

/// The value of a decimal digit character, if it is one.
pub open spec fn digit_value(c: char) -> Option<nat> {
    if '0' <= c && c <= '9' {
        Some((c as nat - '0' as nat) as nat)
    } else {
        None
    }
}

/// Whether every character of `s` is a decimal digit.
pub open spec fn all_digits(s: Seq<char>) -> bool {
    forall|i: int| 0 <= i < s.len() ==> #[trigger] digit_value(s[i]) is Some
}

/// The number written by the digits `s` (most significant first).
pub open spec fn digits_value(s: Seq<char>) -> nat
    decreases s.len(),
{
    if s.len() == 0 {
        0
    } else {
        digits_value(s.drop_last()) * 10 + digit_value(s.last()).unwrap_or(0)
    }
}

/// The digits of an unsigned number as written: `s` without a leading `+`.
pub open spec fn unsigned_digits(s: Seq<char>) -> Seq<char> {
    if s.len() > 0 && s[0] == '+' {
        s.drop_first()
    } else {
        s
    }
}

/// How an unsigned integer type whose largest value is `max` reads `s`:
/// an optional `+`, then one or more decimal digits whose value is at most
/// `max`; anything else is no number.
pub open spec fn spec_parse_unsigned(s: Seq<char>, max: nat) -> Option<nat> {
    let d = unsigned_digits(s);
    if d.len() > 0 && all_digits(d) && digits_value(d) <= max {
        Some(digits_value(d))
    } else {
        None
    }
}

proof fn lemma_digits_value_step(s: Seq<char>, i: int)
    requires
        0 <= i < s.len(),
    ensures
        digits_value(s.take(i + 1)) == digits_value(s.take(i)) * 10 + digit_value(s[i]).unwrap_or(0),
{
    assert(s.take(i + 1).drop_last() =~= s.take(i));
}

/// Reads an unsigned decimal number of at most `max` (see [`spec_parse_unsigned`]).
pub fn parse_unsigned(s: &str, max: u64) -> (r: Option<u64>)
    ensures
        match spec_parse_unsigned(s@, max as nat) {
            Some(v) => r == Some(v as u64),
            None => r is None,
        },
{
    let len = s.unicode_len();
    let mut start: usize = 0;
    if len > 0 && s.get_char(0) == '+' {
        start = 1;
    }
    let ghost d = unsigned_digits(s@);
    assert(d =~= s@.subrange(start as int, len as int));
    if start >= len {
        return None;
    }
    let mut i: usize = start;
    let mut value: u128 = 0;
    let mut over = false;
    while i < len
        invariant
            start <= i <= len,
            len == s@.len(),
            d == s@.subrange(start as int, len as int),
            d == unsigned_digits(s@),
            all_digits(d.take(i - start)),
            !over ==> value == digits_value(d.take(i - start)) && value <= max,
            over ==> digits_value(d.take(i - start)) > max,
        decreases len - i,
    {
        let c = s.get_char(i);
        proof {
            lemma_digits_value_step(d, i - start);
            assert(d[i - start] == c);
        }
        if c < '0' || c > '9' {
            assert(digit_value(d[i - start]) is None);
            assert(!all_digits(d));
            return None;
        }
        let dv: u128 = ((c as u32) - ('0' as u32)) as u128;
        if !over {
            let next = value * 10 + dv;
            if next > max as u128 {
                over = true;
            } else {
                value = next;
            }
        }
        i = i + 1;
        assert(all_digits(d.take(i - start)));
    }
    assert(d.take(i - start) =~= d);
    if over {
        None
    } else {
        Some(value as u64)
    }
}

/// Reads a `u32` as `str::parse::<u32>` does.
pub fn parse_u32(s: &str) -> (r: Option<u32>)
    ensures
        match spec_parse_unsigned(s@, u32::MAX as nat) {
            Some(v) => r == Some(v as u32),
            None => r is None,
        },
{
    match parse_unsigned(s, u32::MAX as u64) {
        Some(v) => Some(v as u32),
        None => None,
    }
}

/// Reads a `usize` as `str::parse::<usize>` does.
pub fn parse_usize(s: &str) -> (r: Option<usize>)
    ensures
        match spec_parse_unsigned(s@, usize::MAX as nat) {
            Some(v) => r == Some(v as usize),
            None => r is None,
        },
{
    match parse_unsigned(s, usize::MAX as u64) {
        Some(v) => Some(v as usize),
        None => None,
    }
}

/// Reads a `u64` as `str::parse::<u64>` does.
pub fn parse_u64(s: &str) -> (r: Option<u64>)
    ensures
        match spec_parse_unsigned(s@, u64::MAX as nat) {
            Some(v) => r == Some(v as u64),
            None => r is None,
        },
{
    parse_unsigned(s, u64::MAX)
}

/// A digit's character reads back as the digit.
proof fn lemma_digit_char_value(d: nat)
    requires
        d < 10,
    ensures
        digit_value(digit_char(d)) == Some(d),
        digit_char(d) != '+',
{
}

/// The decimal form of `n` is a non-empty run of digits worth `n`.
proof fn lemma_decimal_digits(n: nat)
    ensures
        decimal(n).len() > 0,
        all_digits(decimal(n)),
        decimal(n)[0] != '+',
        digits_value(decimal(n)) == n,
    decreases n,
{
    if n < 10 {
        lemma_digit_char_value(n);
        assert(decimal(n).drop_last() =~= Seq::<char>::empty());
        assert(digits_value(Seq::<char>::empty()) == 0);
        assert(digits_value(decimal(n)) == n);
    } else {
        let prefix = decimal(n / 10);
        lemma_decimal_digits(n / 10);
        lemma_digit_char_value(n % 10);
        let s = decimal(n);
        assert(s == prefix + seq![digit_char(n % 10)]);
        assert(s.drop_last() =~= prefix);
        assert(s.last() == digit_char(n % 10));
        assert(digits_value(s) == (n / 10) * 10 + n % 10);
        assert forall|i: int| 0 <= i < s.len() implies #[trigger] digit_value(s[i]) is Some by {
            if i < prefix.len() {
                assert(s[i] == prefix[i]);
                assert(digit_value(prefix[i]) is Some);
            }
        }
    }
}

/// Reading back what [`crate::format::u64_to_decimal`] writes gives the
/// number again, for every number the reading type can hold.
pub proof fn lemma_decimal_reads_back(n: nat, max: nat)
    requires
        n <= max,
    ensures
        spec_parse_unsigned(decimal(n), max) == Some(n),
{
    lemma_decimal_digits(n);
    assert(unsigned_digits(decimal(n)) == decimal(n));
}

/// The target compute-unit limit of the filter when none is given.
pub const DEFAULT_CU_TARGET: u32 = 140_000;

/// The arguments of the compute-unit filter: the target limit, the database
/// path, the exact follow count asked for, and whether `--follow-count` came
/// last, without its value.
pub struct FilterArgs {
    pub cu_target: u32,
    pub db_path: String,
    pub follow_count: Option<usize>,
    pub follow_count_missing: bool,
}

/// What [`FilterArgs`] holds, with the path as characters.
pub struct FilterArgsView {
    pub cu_target: u32,
    pub db_path: Seq<char>,
    pub follow_count: Option<usize>,
    pub follow_count_missing: bool,
}

impl FilterArgs {
    pub open spec fn view(&self) -> FilterArgsView {
        FilterArgsView {
            cu_target: self.cu_target,
            db_path: self.db_path@,
            follow_count: self.follow_count,
            follow_count_missing: self.follow_count_missing,
        }
    }
}

/// The flag that announces the follow count.
pub open spec fn follow_count_flag() -> Seq<char> {
    seq!['-', '-', 'f', 'o', 'l', 'l', 'o', 'w', '-', 'c', 'o', 'u', 'n', 't']
}

/// The database path used when none is given.
pub open spec fn default_db_path() -> Seq<char> {
    seq!['.', '/', 'p', 'u', 'm', 'p', '_', 'b', 'u', 'n', 'd', 'l', 'e', 's', '_', 'd', 'b']
}

/// Whether `s` begins with `--`.
pub open spec fn starts_with_dashes(s: Seq<char>) -> bool {
    s.len() >= 2 && s[0] == '-' && s[1] == '-'
}

/// The value read from a `usize` argument, `None` where it is no number.
pub open spec fn usize_value(s: Seq<char>) -> Option<usize> {
    match spec_parse_unsigned(s, usize::MAX as nat) {
        Some(v) => Some(v as usize),
        None => None,
    }
}

/// The arguments from position `i` on, read into `st`: `--follow-count`
/// takes the next argument as the follow count (none where it is no number),
/// or is noted as missing its value when it comes last; a number sets the
/// target limit while that is still the default; any other argument that
/// does not begin with `--` is the database path.
pub open spec fn read_filter_args(args: Seq<Seq<char>>, i: int, st: FilterArgsView) -> FilterArgsView
    decreases args.len() - i,
{
    if i < 0 || i >= args.len() {
        st
    } else if args[i] == follow_count_flag() {
        if i + 1 < args.len() {
            read_filter_args(args, i + 2, FilterArgsView { follow_count: usize_value(args[i + 1]), ..st })
        } else {
            read_filter_args(args, i + 1, FilterArgsView { follow_count_missing: true, ..st })
        }
    } else {
        let next = match spec_parse_unsigned(args[i], u32::MAX as nat) {
            Some(v) if st.cu_target == DEFAULT_CU_TARGET => FilterArgsView { cu_target: v as u32, ..st },
            _ => if !starts_with_dashes(args[i]) {
                FilterArgsView { db_path: args[i], ..st }
            } else {
                st
            },
        };
        read_filter_args(args, i + 1, next)
    }
}

/// The filter's arguments as read from the command line `args`, whose first
/// element is the program.
pub open spec fn spec_filter_args(args: Seq<Seq<char>>) -> FilterArgsView {
    read_filter_args(
        args,
        1,
        FilterArgsView {
            cu_target: DEFAULT_CU_TARGET,
            db_path: default_db_path(),
            follow_count: None,
            follow_count_missing: false,
        },
    )
}

/// Reads the filter's arguments from the command line (see [`spec_filter_args`]).
pub fn parse_filter_args(args: &Vec<String>) -> (a: FilterArgs)
    ensures
        a.view() == spec_filter_args(args@.map_values(|s: String| s@)),
{
    let ghost words = args@.map_values(|s: String| s@);
    let flag = String::from_str("--follow-count");
    let mut a = FilterArgs {
        cu_target: DEFAULT_CU_TARGET,
        db_path: String::from_str("./pump_bundles_db"),
        follow_count: None,
        follow_count_missing: false,
    };
    proof {
        reveal_strlit("--follow-count");
        reveal_strlit("./pump_bundles_db");
        assert(flag@ =~= follow_count_flag());
        assert(a.db_path@ =~= default_db_path());
    }
    let mut i: usize = 1;
    while i < args.len()
        invariant
            1 <= i,
            words == args@.map_values(|s: String| s@),
            flag@ == follow_count_flag(),
            read_filter_args(words, i as int, a.view()) == spec_filter_args(words),
        decreases args.len() - i,
    {
        assert(words[i as int] == args[i as int]@);
        if args[i] == flag {
            if i + 1 < args.len() {
                assert(words[i + 1] == args[i + 1]@);
                a.follow_count = parse_usize(args[i + 1].as_str());
                i = i + 2;
            } else {
                a.follow_count_missing = true;
                i = i + 1;
            }
        } else {
            let arg = args[i].as_str();
            let n = parse_u32(arg);
            let mut set_target = false;
            if let Some(v) = n {
                if a.cu_target == DEFAULT_CU_TARGET {
                    a.cu_target = v;
                    set_target = true;
                }
            }
            if !set_target {
                let dashes = arg.unicode_len() >= 2 && arg.get_char(0) == '-' && arg.get_char(1) == '-';
                if !dashes {
                    a.db_path = String::from_str(arg);
                }
            }
            i = i + 1;
        }
    }
    a
}

} // verus!

//! Reading the command line into the benchmark's settings.
//!
//! Tokens have the shape `-x=<value>`: `-t=<seconds>` sets the time budget and
//! `-c=<count>` the number of concurrent workers; `--help` and `-h` ask for
//! the usage text. A malformed value leaves the setting as it was and yields a
//! warning; so does any other token.
use vstd::prelude::*;

verus! {

/// Number of concurrent workers when `-c=` is not given.
pub const DEFAULT_THREADS: u32 = 8;

/// Time budget, in nanoseconds, when `-t=` is not given (180 seconds).
pub const DEFAULT_BUDGET_NANOS: u128 = 180_000_000_000;

/// Saturation point of the decimal reader: one past the largest `u32`.
const COUNT_CAP: u64 = 4_294_967_296;

pub open spec fn is_digit(c: char) -> bool {
    '0' <= c && c <= '9'
}

pub open spec fn digit_value(c: char) -> nat {
    ((c as u32) - ('0' as u32)) as nat
}

pub open spec fn all_digits(s: Seq<char>) -> bool {
    forall|k: int| 0 <= k < s.len() ==> is_digit(#[trigger] s[k])
}

/// The number that a string of decimal digits denotes, most significant first.
pub open spec fn decimal_value(s: Seq<char>) -> nat
    decreases s.len(),
{
    if s.len() == 0 {
        0
    } else {
        decimal_value(s.drop_last()) * 10 + digit_value(s.last())
    }
}

/// The digits of an unsigned number: the text without one leading `+`.
pub open spec fn unsigned_digits(s: Seq<char>) -> Seq<char> {
    if s.len() > 0 && s[0] == '+' {
        s.drop_first()
    } else {
        s
    }
}

/// The worker count that a `-c=` value denotes: a positive decimal number
/// that fits in a `u32`, with an optional leading `+`.
pub open spec fn thread_count_of(s: Seq<char>) -> Option<u32> {
    let d = unsigned_digits(s);
    if d.len() > 0 && all_digits(d) && 0 < decimal_value(d) <= u32::MAX {
        Some(decimal_value(d) as u32)
    } else {
        None
    }
}

proof fn lemma_saturated_step(a: nat, d: nat)
    requires
        d <= 9,
    ensures
        ({
            let cap = COUNT_CAP as nat;
            let sat_a = if a < cap { a } else { cap };
            let lhs = sat_a * 10 + d;
            let rhs = a * 10 + d;
            (if lhs < cap { lhs } else { cap }) == (if rhs < cap { rhs } else { cap })
        }),
{
    let cap = COUNT_CAP as nat;
    if a >= cap {
        assert(a * 10 + d >= cap) by (nonlinear_arith)
            requires
                a >= cap,
        ;
        assert(cap * 10 + d >= cap) by (nonlinear_arith);
    }
}

/// Reads the value of a `-c=` token: `Some` exactly when the text is a
/// positive decimal count that fits in a `u32`.
pub fn parse_threads(text: &str) -> (r: Option<u32>)
    ensures
        r == thread_count_of(text@),
{
    let n = text.unicode_len();
    let mut start: usize = 0;
    if n > 0 && text.get_char(0) == '+' {
        start = 1;
    }
    assert(unsigned_digits(text@) =~= text@.subrange(start as int, n as int));
    if start >= n {
        return None;
    }
    let mut acc: u64 = 0;
    let mut k: usize = start;
    while k < n
        invariant
            start <= k <= n,
            n == text@.len(),
            unsigned_digits(text@) =~= text@.subrange(start as int, n as int),
            all_digits(text@.subrange(start as int, k as int)),
            acc as nat == ({
                let v = decimal_value(text@.subrange(start as int, k as int));
                if v < COUNT_CAP as nat { v } else { COUNT_CAP as nat }
            }),
        decreases n - k,
    {
        let c = text.get_char(k);
        if !('0' <= c && c <= '9') {
            assert(unsigned_digits(text@)[k - start] == c);
            assert(!is_digit(c));
            return None;
        }
        let d = ((c as u32) - ('0' as u32)) as u64;
        proof {
            let prev = text@.subrange(start as int, k as int);
            let next_digits = text@.subrange(start as int, k + 1);
            assert(next_digits.drop_last() =~= prev);
            assert(next_digits.last() == c);
            lemma_saturated_step(decimal_value(prev), d as nat);
        }
        let next = acc * 10 + d;
        acc = if next < COUNT_CAP { next } else { COUNT_CAP };
        k = k + 1;
    }
    assert(text@.subrange(start as int, k as int) =~= unsigned_digits(text@));
    if acc == 0 || acc >= COUNT_CAP {
        None
    } else {
        Some(acc as u32)
    }
}

/// The benchmark's parameters: the concurrency level `T` and the time budget `S`.
#[derive(Clone, Copy, Debug, PartialEq, Eq, Structural)]
pub struct Settings {
    /// Number of workers kept in flight.
    pub threads: u32,
    /// Length of the measurement window, in nanoseconds.
    pub budget_nanos: u128,
}

pub open spec fn default_settings() -> Settings {
    Settings { threads: DEFAULT_THREADS, budget_nanos: DEFAULT_BUDGET_NANOS }
}

impl Settings {
    /// Both parameters are strictly positive.
    pub open spec fn valid(&self) -> bool {
        self.threads > 0 && self.budget_nanos > 0
    }
}

impl Default for Settings {
    fn default() -> (r: Self)
        ensures
            r == default_settings(),
    {
        Settings { threads: DEFAULT_THREADS, budget_nanos: DEFAULT_BUDGET_NANOS }
    }
}

/// One command-line token, classified.
#[derive(Debug)]
pub enum Arg {
    /// `--help` or `-h`.
    Help,
    /// `-t=<value>`, with the value's text.
    Time(String),
    /// `-c=<value>`, with the count it denotes, if any.
    Threads(Option<u32>),
    /// Anything else.
    Unknown,
}

pub open spec fn is_help(s: Seq<char>) -> bool {
    s == seq!['-', '-', 'h', 'e', 'l', 'p'] || s == seq!['-', 'h']
}

/// The token has the shape `-<flag>=...`.
pub open spec fn has_flag(s: Seq<char>, flag: char) -> bool {
    s.len() >= 3 && s[0] == '-' && s[1] == flag && s[2] == '='
}

/// The text after `-<flag>=`.
pub open spec fn flag_value(s: Seq<char>) -> Seq<char> {
    s.subrange(3, s.len() as int)
}

fn is_help_token(arg: &str, n: usize) -> (r: bool)
    requires
        n == arg@.len(),
    ensures
        r == is_help(arg@),
{
    if n == 2 {
        let r = arg.get_char(0) == '-' && arg.get_char(1) == 'h';
        assert(r ==> arg@ =~= seq!['-', 'h']);
        r
    } else if n == 6 {
        let r = arg.get_char(0) == '-' && arg.get_char(1) == '-' && arg.get_char(2) == 'h'
            && arg.get_char(3) == 'e' && arg.get_char(4) == 'l' && arg.get_char(5) == 'p';
        assert(r ==> arg@ =~= seq!['-', '-', 'h', 'e', 'l', 'p']);
        r
    } else {
        false
    }
}

/// Sorts a token into help, a time value, a worker count or anything else.
pub fn classify_arg(arg: &str) -> (r: Arg)
    ensures
        match r {
            Arg::Help => is_help(arg@),
            Arg::Time(v) => !is_help(arg@) && has_flag(arg@, 't') && v@ == flag_value(arg@),
            Arg::Threads(c) => !is_help(arg@) && has_flag(arg@, 'c') && c == thread_count_of(
                flag_value(arg@),
            ),
            Arg::Unknown => !is_help(arg@) && !has_flag(arg@, 't') && !has_flag(arg@, 'c'),
        },
{
    let n = arg.unicode_len();
    if is_help_token(arg, n) {
        return Arg::Help;
    }
    if n >= 3 && arg.get_char(0) == '-' && arg.get_char(2) == '=' {
        let flag = arg.get_char(1);
        if flag == 't' {
            let value = arg.substring_char(3, n);
            return Arg::Time(value.to_owned());
        } else if flag == 'c' {
            let value = arg.substring_char(3, n);
            return Arg::Threads(parse_threads(value));
        }
    }
    Arg::Unknown
}

/// A token that changed nothing, by its position among the arguments.
#[derive(Clone, Copy, Debug, PartialEq, Eq, Structural)]
pub enum Warning {
    /// A `-t=` value that is not a positive duration.
    BadTime(usize),
    /// A `-c=` value that is not a positive count.
    BadThreads(usize),
    /// A token of no known shape.
    Unknown(usize),
}

/// What the command line asks for.
#[derive(Debug)]
pub enum Invocation {
    /// No argument was given: nothing is run.
    NoArgs,
    /// Usage text was asked for: nothing is run.
    Help,
    /// Run the benchmark with these settings, after reporting the warnings.
    Run(Settings, Vec<Warning>),
}

/// The effect of the token at position `k` on the settings read so far.
/// `reading` is the budget in nanoseconds that a `-t=` value denotes, if it
/// denotes one; a zero budget is malformed.
pub open spec fn settle_one(
    s: Settings,
    ws: Seq<Warning>,
    arg: Seq<char>,
    reading: Option<u128>,
    k: usize,
) -> (Settings, Seq<Warning>) {
    if has_flag(arg, 't') {
        match reading {
            Some(ns) => if ns > 0 {
                (Settings { budget_nanos: ns, ..s }, ws)
            } else {
                (s, ws.push(Warning::BadTime(k)))
            },
            None => (s, ws.push(Warning::BadTime(k))),
        }
    } else if has_flag(arg, 'c') {
        match thread_count_of(flag_value(arg)) {
            Some(c) => (Settings { threads: c, ..s }, ws),
            None => (s, ws.push(Warning::BadThreads(k))),
        }
    } else {
        (s, ws.push(Warning::Unknown(k)))
    }
}

/// The settings and warnings after the tokens `args`, left to right, from
/// the defaults.
pub open spec fn settle(args: Seq<String>, readings: Seq<Option<u128>>) -> (Settings, Seq<
    Warning,
>)
    decreases args.len(),
{
    if args.len() == 0 {
        (default_settings(), Seq::empty())
    } else {
        let k = args.len() - 1;
        let prev = settle(args.drop_last(), readings.subrange(0, k));
        settle_one(prev.0, prev.1, args.last()@, readings[k], k as usize)
    }
}

pub open spec fn asks_help(args: Seq<String>) -> bool {
    exists|k: int| 0 <= k < args.len() && is_help(#[trigger] args[k]@)
}

proof fn lemma_settle_valid(args: Seq<String>, readings: Seq<Option<u128>>)
    requires
        readings.len() == args.len(),
    ensures
        settle(args, readings).0.valid(),
    decreases args.len(),
{
    if args.len() > 0 {
        let k = args.len() - 1;
        lemma_settle_valid(args.drop_last(), readings.subrange(0, k));
    }
}

/// A `-t=` value that denotes no positive budget changes no setting: the
/// budget stays what it was (the default, if no earlier value was good), and
/// the token is reported.
pub proof fn lemma_bad_time_keeps_settings(
    args: Seq<String>,
    readings: Seq<Option<u128>>,
)
    requires
        args.len() > 0,
        readings.len() == args.len(),
        has_flag(args.last()@, 't'),
        readings.last() matches Some(ns) ==> ns == 0,
    ensures
        settle(args, readings).0 == settle(args.drop_last(), readings.drop_last()).0,
        settle(args, readings).1 == settle(args.drop_last(), readings.drop_last()).1.push(
            Warning::BadTime((args.len() - 1) as usize),
        ),
{
    assert(readings.subrange(0, args.len() - 1) =~= readings.drop_last());
}

/// Reads the arguments after the program's name. `readings[k]` is the budget
/// in nanoseconds that the value of `args[k]` denotes where that token is
/// `-t=<value>`, and `None` where the value is no duration; it is not looked
/// at for other tokens.
pub fn parse_args(args: &Vec<String>, readings: &Vec<Option<u128>>) -> (r: Invocation)
    requires
        readings.len() == args.len(),
    ensures
        args.len() == 0 ==> r is NoArgs,
        args.len() > 0 && asks_help(args@) ==> r is Help,
        args.len() > 0 && !asks_help(args@) ==> match r {
            Invocation::Run(s, ws) => s == settle(args@, readings@).0 && ws@ == settle(
                args@,
                readings@,
            ).1 && s.valid(),
            _ => false,
        },
{
    if args.len() == 0 {
        return Invocation::NoArgs;
    }
    let mut settings = Settings::default();
    let mut warnings: Vec<Warning> = Vec::new();
    let mut k: usize = 0;
    while k < args.len()
        invariant
            k <= args.len(),
            readings.len() == args.len(),
            forall|j: int| 0 <= j < k ==> !is_help(#[trigger] args@[j]@),
            (settings, warnings@) == settle(args@.subrange(0, k as int), readings@.subrange(
                0,
                k as int,
            )),
        decreases args.len() - k,
    {
        let arg = args[k].as_str();
        proof {
            let prefix = args@.subrange(0, k + 1);
            assert(prefix.drop_last() =~= args@.subrange(0, k as int));
            assert(readings@.subrange(0, k + 1).subrange(0, k as int) =~= readings@.subrange(
                0,
                k as int,
            ));
        }
        match classify_arg(arg) {
            Arg::Help => {
                assert(is_help(args@[k as int]@));
                return Invocation::Help;
            },
            Arg::Time(_) => {
                match readings[k] {
                    Some(ns) => {
                        if ns > 0 {
                            settings = Settings { budget_nanos: ns, ..settings };
                        } else {
                            warnings.push(Warning::BadTime(k));
                        }
                    },
                    None => {
                        warnings.push(Warning::BadTime(k));
                    },
                }
            },
            Arg::Threads(count) => {
                match count {
                    Some(c) => {
                        settings = Settings { threads: c, ..settings };
                    },
                    None => {
                        warnings.push(Warning::BadThreads(k));
                    },
                }
            },
            Arg::Unknown => {
                warnings.push(Warning::Unknown(k));
            },
        }
        k = k + 1;
    }
    assert(args@.subrange(0, k as int) =~= args@);
    assert(readings@.subrange(0, k as int) =~= readings@);
    proof {
        lemma_settle_valid(args@, readings@);
    }
    Invocation::Run(settings, warnings)
}

} // verus!

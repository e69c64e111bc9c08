//! The command-line configuration: field sizes and the tick interval,
//! read from flag/value argument pairs.
use vstd::prelude::*;
use vstd::string::*;
use crate::data_transfer::str_eq;

verus! {

/// What the process starts with: the field bounds and how many
/// milliseconds lie between two ticks.
#[derive(Clone, Copy, Debug, PartialEq, Eq, Structural)]
pub struct GameConfig {
    pub field_width: i8,
    pub field_height: i8,
    pub tick_interval_ms: u64,
}

/// Why no configuration came out of the arguments.
#[derive(Clone, Copy, Debug, PartialEq, Eq, Structural)]
pub enum CliError {
    /// `--help` was present: print usage and exit successfully.
    Help,
    /// An out-of-range value or an unknown flag.
    WrongInput,
}

/// A decimal digit character.
pub open spec fn is_digit(c: char) -> bool {
    48 <= c as int <= 57
}

/// The value of one digit character.
pub open spec fn digit_val(c: char) -> int {
    c as int - 48
}

/// Nonempty text made of digits alone.
pub open spec fn all_digits(s: Seq<char>) -> bool {
    s.len() >= 1 && forall|i: int| 0 <= i < s.len() ==> is_digit(#[trigger] s[i])
}

/// The number a run of digits denotes.
pub open spec fn digits_val(s: Seq<char>) -> int
    decreases s.len(),
{
    if s.len() == 0 {
        0
    } else {
        digits_val(s.drop_last()) * 10 + digit_val(s.last())
    }
}

/// What parsing text as a `u64` yields: an optional `+`, then digits,
/// denoting a number within the type's range.
pub open spec fn parse_u64_spec(s: Seq<char>) -> Option<u64> {
    let ds = if s.len() >= 1 && s[0] == '+' {
        s.skip(1)
    } else {
        s
    };
    if all_digits(ds) && digits_val(ds) <= u64::MAX {
        Some(digits_val(ds) as u64)
    } else {
        None
    }
}

/// What parsing text as an `i8` yields: an optional sign, then digits,
/// denoting a number within the type's range.
pub open spec fn parse_i8_spec(s: Seq<char>) -> Option<i8> {
    if s.len() >= 1 && (s[0] == '+' || s[0] == '-') {
        let ds = s.skip(1);
        if all_digits(ds) {
            if s[0] == '-' {
                if digits_val(ds) <= 128 {
                    Some((-digits_val(ds)) as i8)
                } else {
                    None
                }
            } else {
                if digits_val(ds) <= 127 {
                    Some(digits_val(ds) as i8)
                } else {
                    None
                }
            }
        } else {
            None
        }
    } else {
        if all_digits(s) && digits_val(s) <= 127 {
            Some(digits_val(s) as i8)
        } else {
            None
        }
    }
}

/// A run of digits denotes a nonnegative number.
proof fn lemma_digits_val_nonneg(s: Seq<char>)
    requires
        forall|i: int| 0 <= i < s.len() ==> is_digit(#[trigger] s[i]),
    ensures
        digits_val(s) >= 0,
    decreases s.len(),
{
    if s.len() > 0 {
        lemma_digits_val_nonneg(s.drop_last());
    }
}

/// Appending digits never shrinks the denoted number.
proof fn lemma_digits_val_extend(s: Seq<char>, i: int)
    requires
        forall|k: int| 0 <= k < s.len() ==> is_digit(#[trigger] s[k]),
        0 <= i <= s.len(),
    ensures
        digits_val(s) >= digits_val(s.take(i)),
    decreases s.len() - i,
{
    if i < s.len() {
        assert(s.take(i + 1).drop_last() =~= s.take(i));
        assert(s.take(i + 1).last() == s[i]);
        lemma_digits_val_nonneg(s.take(i));
        lemma_digits_val_extend(s, i + 1);
    } else {
        assert(s.take(i) =~= s);
    }
}

/// Reads a run of digits as a number, refusing any other character and
/// any value beyond `u64`.
fn parse_digits(d: &str) -> (r: Option<u64>)
    ensures
        (all_digits(d@) && digits_val(d@) <= u64::MAX) ==> r == Some(digits_val(d@) as u64),
        !(all_digits(d@) && digits_val(d@) <= u64::MAX) ==> r is None,
{
    let n = d.unicode_len();
    if n == 0 {
        return None;
    }
    let mut acc: u64 = 0;
    let mut i: usize = 0;
    while i < n
        invariant
            0 <= i <= n,
            n == d@.len(),
            forall|k: int| 0 <= k < i ==> is_digit(#[trigger] d@[k]),
            acc as int == digits_val(d@.take(i as int)),
        decreases n - i,
    {
        let c = d.get_char(i);
        let v = c as u32;
        if v < 48 || v > 57 {
            return None;
        }
        let dv = (v - 48) as u64;
        proof {
            assert(d@.take(i + 1).drop_last() =~= d@.take(i as int));
            assert(d@.take(i + 1).last() == d@[i as int]);
        }
        let next = match acc.checked_mul(10) {
            Some(m) => m.checked_add(dv),
            None => None,
        };
        match next {
            Some(m) => {
                acc = m;
            },
            None => {
                proof {
                    if all_digits(d@) {
                        assert(digits_val(d@.take(i + 1)) > u64::MAX);
                        lemma_digits_val_extend(d@, i + 1);
                    }
                }
                return None;
            },
        }
        i = i + 1;
    }
    proof {
        assert(d@.take(n as int) =~= d@);
    }
    Some(acc)
}

/// Reads text as a `u64`, as the configuration values are written.
pub fn parse_u64(v: &str) -> (r: Option<u64>)
    ensures
        r == parse_u64_spec(v@),
{
    let n = v.unicode_len();
    if n == 0 {
        proof {
            assert(!all_digits(v@));
        }
        return None;
    }
    let c0 = v.get_char(0);
    let ds = if c0 == '+' {
        v.substring_char(1, n)
    } else {
        v.substring_char(0, n)
    };
    proof {
        if c0 == '+' {
            assert(ds@ =~= v@.skip(1));
        } else {
            assert(ds@ =~= v@);
        }
    }
    parse_digits(ds)
}

/// Reads text as an `i8`, as the field sizes are written.
pub fn parse_i8(v: &str) -> (r: Option<i8>)
    ensures
        r == parse_i8_spec(v@),
{
    let n = v.unicode_len();
    if n == 0 {
        proof {
            assert(!all_digits(v@));
        }
        return None;
    }
    let c0 = v.get_char(0);
    let neg = c0 == '-';
    let signed = neg || c0 == '+';
    let ds = if signed {
        v.substring_char(1, n)
    } else {
        v.substring_char(0, n)
    };
    proof {
        if signed {
            assert(ds@ =~= v@.skip(1));
        } else {
            assert(ds@ =~= v@);
        }
    }
    match parse_digits(ds) {
        None => {
            proof {
                if all_digits(ds@) {
                    lemma_digits_val_nonneg(ds@);
                }
            }
            None
        },
        Some(val) => {
            proof {
                lemma_digits_val_nonneg(ds@);
            }
            if neg {
                if val <= 128 {
                    if val == 128 {
                        Some(-128)
                    } else {
                        Some(-(val as i8))
                    }
                } else {
                    None
                }
            } else {
                if val <= 127 {
                    Some(val as i8)
                } else {
                    None
                }
            }
        },
    }
}

/// One pass over the argument pairs, left to right, carrying the
/// settings read so far: a flag's value replaces the setting when it
/// parses and lies in range, is skipped when it does not parse, and
/// refuses the whole line when it parses out of range; an unknown flag
/// refuses the line; a flag with nothing after it is ignored.
pub open spec fn cfg_step(args: Seq<Seq<char>>, i: int, w: i8, h: i8, t: u64) -> Result<
    GameConfig,
    CliError,
>
    decreases args.len() - i + 1,
{
    if i < 0 || i >= args.len() {
        Ok(GameConfig { field_width: w, field_height: h, tick_interval_ms: t })
    } else if args[i] == "-h"@ {
        if i + 1 >= args.len() {
            cfg_step(args, i + 1, w, h, t)
        } else {
            match parse_i8_spec(args[i + 1]) {
                Some(v) => if 5 <= v <= 100 {
                    cfg_step(args, i + 2, w, v, t)
                } else {
                    Err(CliError::WrongInput)
                },
                None => cfg_step(args, i + 2, w, h, t),
            }
        }
    } else if args[i] == "-w"@ {
        if i + 1 >= args.len() {
            cfg_step(args, i + 1, w, h, t)
        } else {
            match parse_i8_spec(args[i + 1]) {
                Some(v) => if 5 <= v <= 100 {
                    cfg_step(args, i + 2, v, h, t)
                } else {
                    Err(CliError::WrongInput)
                },
                None => cfg_step(args, i + 2, w, h, t),
            }
        }
    } else if args[i] == "-s"@ {
        if i + 1 >= args.len() {
            cfg_step(args, i + 1, w, h, t)
        } else {
            match parse_i8_spec(args[i + 1]) {
                Some(v) => if 5 <= v <= 100 {
                    cfg_step(args, i + 2, v, v, t)
                } else {
                    Err(CliError::WrongInput)
                },
                None => cfg_step(args, i + 2, w, h, t),
            }
        }
    } else if args[i] == "-t"@ {
        if i + 1 >= args.len() {
            cfg_step(args, i + 1, w, h, t)
        } else {
            match parse_u64_spec(args[i + 1]) {
                Some(v) => if 100 <= v <= 10000 {
                    cfg_step(args, i + 2, w, h, v)
                } else {
                    Err(CliError::WrongInput)
                },
                None => cfg_step(args, i + 2, w, h, t),
            }
        }
    } else {
        Err(CliError::WrongInput)
    }
}

/// What the argument list configures: `--help` anywhere wins, else the
/// pass over the pairs starting from the defaults, a 20 by 20 field
/// and 500 ms ticks.
pub open spec fn config_spec(args: Seq<Seq<char>>) -> Result<GameConfig, CliError> {
    if exists|i: int| 0 <= i < args.len() && args[i] == "--help"@ {
        Err(CliError::Help)
    } else {
        cfg_step(args, 0, 20, 20, 500)
    }
}

/// Reads the configuration from the command-line arguments.
pub fn create_config_from_args(args: Vec<String>) -> (r: Result<GameConfig, CliError>)
    ensures
        r == config_spec(args@.map_values(|a: String| a@)),
{
    let ghost vargs = args@.map_values(|a: String| a@);
    let n = args.len();
    let mut i: usize = 0;
    while i < n
        invariant
            0 <= i <= n,
            n == args@.len(),
            vargs == args@.map_values(|a: String| a@),
            forall|k: int| 0 <= k < i ==> vargs[k] != "--help"@,
        decreases n - i,
    {
        if str_eq(args[i].as_str(), "--help") {
            proof {
                assert(vargs[i as int] == "--help"@);
            }
            return Err(CliError::Help);
        }
        i = i + 1;
    }
    let mut w: i8 = 20;
    let mut h: i8 = 20;
    let mut t: u64 = 500;
    let mut i: usize = 0;
    while i < n
        invariant
            0 <= i <= n,
            n == args@.len(),
            vargs == args@.map_values(|a: String| a@),
            forall|k: int| 0 <= k < n ==> vargs[k] != "--help"@,
            cfg_step(vargs, i as int, w, h, t) == cfg_step(vargs, 0, 20, 20, 500),
        decreases n - i,
    {
        proof {
            assert(vargs[i as int] == args@[i as int]@);
        }
        if str_eq(args[i].as_str(), "-h") {
            if i + 1 < n {
                match parse_i8(args[i + 1].as_str()) {
                    Some(v) => {
                        if 5 <= v && v <= 100 {
                            h = v;
                            i = i + 2;
                        } else {
                            return Err(CliError::WrongInput);
                        }
                    },
                    None => {
                        i = i + 2;
                    },
                }
            } else {
                i = i + 1;
            }
        } else if str_eq(args[i].as_str(), "-w") {
            if i + 1 < n {
                match parse_i8(args[i + 1].as_str()) {
                    Some(v) => {
                        if 5 <= v && v <= 100 {
                            w = v;
                            i = i + 2;
                        } else {
                            return Err(CliError::WrongInput);
                        }
                    },
                    None => {
                        i = i + 2;
                    },
                }
            } else {
                i = i + 1;
            }
        } else if str_eq(args[i].as_str(), "-s") {
            if i + 1 < n {
                match parse_i8(args[i + 1].as_str()) {
                    Some(v) => {
                        if 5 <= v && v <= 100 {
                            w = v;
                            h = v;
                            i = i + 2;
                        } else {
                            return Err(CliError::WrongInput);
                        }
                    },
                    None => {
                        i = i + 2;
                    },
                }
            } else {
                i = i + 1;
            }
        } else if str_eq(args[i].as_str(), "-t") {
            if i + 1 < n {
                match parse_u64(args[i + 1].as_str()) {
                    Some(v) => {
                        if 100 <= v && v <= 10000 {
                            t = v;
                            i = i + 2;
                        } else {
                            return Err(CliError::WrongInput);
                        }
                    },
                    None => {
                        i = i + 2;
                    },
                }
            } else {
                i = i + 1;
            }
        } else {
            return Err(CliError::WrongInput);
        }
    }
    Ok(GameConfig { field_width: w, field_height: h, tick_interval_ms: t })
}

} // verus!

//! The command line: a sequence of commands, each with `-name value` flags
//! and positional arguments.

use vstd::prelude::*;

use crate::error::ErrorKind;
use crate::names::{details_spec, guess_details, name_guess_of};
use crate::pattern::opt_view;
use crate::pipeline::{Command, CommandView, Operation, OperationView};
use crate::si::{
    bool_text, decimal_spec, parse_bool, parse_decimal, parse_si_decimal, parse_si_i64, parse_si_u64,
    parse_u64, plain_u64, si_decimal, si_i64, si_u64, Decimal,
};
use crate::text::{is_digit, str_eq};

verus! {

/// The characters of each argument.
pub open spec fn views(v: Seq<String>) -> Seq<Seq<char>> {
    v.map_values(|s: String| s@)
}

/// Flags as `(name, value)` pairs, in command-line order.
pub open spec fn pairs_view(v: Seq<(String, String)>) -> Seq<(Seq<char>, Seq<char>)> {
    v.map_values(|p: (String, String)| (p.0@, p.1@))
}

/// An argument that starts a flag: a `-` not followed by a number such as
/// `-1000` (a third character that is a digit).
pub open spec fn is_flag(s: Seq<char>) -> bool {
    s.len() > 0 && s[0] == '-' && !(s.len() > 2 && is_digit(s[2]))
}

/// The flags starting at `pos`, each followed by its non-empty value, and
/// the position after them.
pub open spec fn read_flags(args: Seq<Seq<char>>, pos: int) -> Result<(Seq<(Seq<char>, Seq<char>)>, int), ErrorKind>
    decreases args.len() - pos,
{
    if pos < 0 || pos >= args.len() || !is_flag(args[pos]) {
        Ok((Seq::empty(), pos))
    } else if pos + 1 >= args.len() || args[pos + 1].len() == 0 {
        Err(ErrorKind::MissingValue)
    } else {
        match read_flags(args, pos + 2) {
            Err(e) => Err(e),
            Ok((rest, end)) => Ok((seq![(args[pos].drop_first(), args[pos + 1])] + rest, end)),
        }
    }
}

pub proof fn lemma_read_flags_end(args: Seq<Seq<char>>, pos: int)
    ensures
        read_flags(args, pos) matches Ok((_f, end)) ==> end >= pos,
        read_flags(args, pos) matches Ok((_f, end)) ==> (pos <= args.len() ==> end <= args.len()),
    decreases args.len() - pos,
{
    if 0 <= pos < args.len() && is_flag(args[pos]) && pos + 1 < args.len() {
        lemma_read_flags_end(args, pos + 2);
    }
}

fn is_flag_exec(s: &str) -> (r: bool)
    ensures
        r == is_flag(s@),
{
    let n = s.unicode_len();
    if n == 0 || s.get_char(0) != '-' {
        return false;
    }
    if n > 2 {
        let c = s.get_char(2);
        if '0' <= c && c <= '9' {
            return false;
        }
    }
    true
}

/// Reads the flags that follow position `pos`: each argument that starts a
/// flag takes the next argument as its value.
pub fn read_just_args(args: &Vec<String>, pos: usize) -> (r: Result<(Vec<(String, String)>, usize), ErrorKind>)
    ensures
        match read_flags(views(args@), pos as int) {
            Err(e) => r == Err::<(Vec<(String, String)>, usize), ErrorKind>(e),
            Ok((f, end)) => r matches Ok((g, e2)) && pairs_view(g@) == f && e2 == end,
        },
{
    let ghost a = views(args@);
    let mut out: Vec<(String, String)> = Vec::new();
    let mut i = pos;
    while i < args.len() && is_flag_exec(args[i].as_str())
        invariant
            a == views(args@),
            pos <= i,
            read_flags(a, pos as int) == match read_flags(a, i as int) {
                Err(e) => Err(e),
                Ok((rest, end)) => Ok((pairs_view(out@) + rest, end)),
            },
        decreases args.len() - i,
    {
        if i + 1 >= args.len() || args[i + 1].unicode_len() == 0 {
            return Err(ErrorKind::MissingValue);
        }
        let name = args[i].as_str();
        let key = name.substring_char(1, name.unicode_len()).to_owned();
        let value = args[i + 1].clone();
        assert(key@ =~= a[i as int].drop_first());
        let ghost before = pairs_view(out@);
        out.push((key, value));
        assert(pairs_view(out@) =~= before + seq![(a[i as int].drop_first(), a[i + 1])]);
        proof {
            match read_flags(a, i + 2) {
                Err(e) => {},
                Ok((rest, end)) => {
                    assert(before + (seq![(a[i as int].drop_first(), a[i + 1])] + rest) =~= (before
                        + seq![(a[i as int].drop_first(), a[i + 1])]) + rest);
                },
            }
        }
        i = i + 2;
    }
    assert(pairs_view(out@) + Seq::empty() =~= pairs_view(out@));
    Ok((out, i))
}

/// The value of the first flag called `key`.
pub open spec fn lookup(flags: Seq<(Seq<char>, Seq<char>)>, key: Seq<char>) -> Option<Seq<char>>
    decreases flags.len(),
{
    if flags.len() == 0 {
        None
    } else if flags[0].0 == key {
        Some(flags[0].1)
    } else {
        lookup(flags.drop_first(), key)
    }
}

/// The values of every flag called `key`, in order.
pub open spec fn lookup_all(flags: Seq<(Seq<char>, Seq<char>)>, key: Seq<char>) -> Seq<Seq<char>>
    decreases flags.len(),
{
    if flags.len() == 0 {
        Seq::empty()
    } else {
        (if flags[0].0 == key { seq![flags[0].1] } else { Seq::empty() }) + lookup_all(flags.drop_first(), key)
    }
}

/// Every flag name is one of `allowed`.
pub open spec fn keys_within(flags: Seq<(Seq<char>, Seq<char>)>, allowed: Seq<Seq<char>>) -> bool {
    forall|i: int| 0 <= i < flags.len() ==> allowed.contains(#[trigger] flags[i].0)
}

/// No flag name occurs twice.
pub open spec fn distinct_keys(flags: Seq<(Seq<char>, Seq<char>)>) -> bool {
    forall|i: int, j: int| 0 <= i < j < flags.len() ==> flags[i].0 != flags[j].0
}

/// The value of the first flag called `key`.
pub fn flag(flags: &Vec<(String, String)>, key: &str) -> (r: Option<String>)
    ensures
        opt_view(r) == lookup(pairs_view(flags@), key@),
{
    let ghost f = pairs_view(flags@);
    let mut i: usize = 0;
    assert(f.skip(0) =~= f);
    while i < flags.len()
        invariant
            f == pairs_view(flags@),
            i <= flags@.len(),
            lookup(f, key@) == lookup(f.skip(i as int), key@),
        decreases flags.len() - i,
    {
        assert(f.skip(i as int).drop_first() =~= f.skip(i + 1));
        if str_eq(flags[i].0.as_str(), key) {
            return Some(flags[i].1.clone());
        }
        i = i + 1;
    }
    None
}

/// The values of every flag called `key`, in order.
pub fn flag_all(flags: &Vec<(String, String)>, key: &str) -> (r: Vec<String>)
    ensures
        views(r@) == lookup_all(pairs_view(flags@), key@),
{
    let ghost f = pairs_view(flags@);
    let mut out: Vec<String> = Vec::new();
    let mut i: usize = 0;
    assert(f.skip(0) =~= f);
    assert(views(out@) =~= Seq::<Seq<char>>::empty());
    assert(views(out@) + lookup_all(f, key@) =~= lookup_all(f, key@));
    while i < flags.len()
        invariant
            f == pairs_view(flags@),
            i <= flags@.len(),
            lookup_all(f, key@) == views(out@) + lookup_all(f.skip(i as int), key@),
        decreases flags.len() - i,
    {
        assert(f.skip(i as int).drop_first() =~= f.skip(i + 1));
        let ghost before = views(out@);
        if str_eq(flags[i].0.as_str(), key) {
            out.push(flags[i].1.clone());
            assert(views(out@) =~= before + seq![f[i as int].1]);
        } else {
            assert(views(out@) =~= before);
        }
        assert(lookup_all(f.skip(i as int), key@) == (if f[i as int].0 == key@ {
            seq![f[i as int].1]
        } else {
            Seq::empty()
        }) + lookup_all(f.skip(i + 1), key@));
        assert(views(out@) + lookup_all(f.skip(i + 1), key@) =~= before + lookup_all(
            f.skip(i as int),
            key@,
        ));
        i = i + 1;
    }
    assert(lookup_all(f.skip(i as int), key@) =~= Seq::<Seq<char>>::empty());
    assert(views(out@) + Seq::<Seq<char>>::empty() =~= views(out@));
    out
}

/// Whether every flag name is one of `allowed`.
pub fn only_flags(flags: &Vec<(String, String)>, allowed: &[&str]) -> (r: bool)
    ensures
        r == keys_within(pairs_view(flags@), allowed@.map_values(|s: &str| s@)),
{
    let ghost f = pairs_view(flags@);
    let ghost names = allowed@.map_values(|s: &str| s@);
    let mut i: usize = 0;
    while i < flags.len()
        invariant
            f == pairs_view(flags@),
            names == allowed@.map_values(|s: &str| s@),
            i <= flags@.len(),
            forall|k: int| 0 <= k < i ==> names.contains(#[trigger] f[k].0),
        decreases flags.len() - i,
    {
        let mut found = false;
        let mut j: usize = 0;
        while j < allowed.len()
            invariant
                f == pairs_view(flags@),
                names == allowed@.map_values(|s: &str| s@),
                i < flags@.len(),
                j <= allowed@.len(),
                found <==> exists|m: int| 0 <= m < j && names[m] == f[i as int].0,
            decreases allowed.len() - j,
        {
            assert(names[j as int] == allowed@[j as int]@);
            assert(f[i as int].0 == flags@[i as int].0@);
            if str_eq(flags[i].0.as_str(), allowed[j]) {
                found = true;
            }
            j = j + 1;
        }
        if !found {
            assert(!names.contains(f[i as int].0));
            return false;
        }
        i = i + 1;
    }
    true
}

/// Refuses flags given more than once, which only `gen` accepts.
pub fn no_duplicates(flags: Vec<(String, String)>) -> (r: Result<Vec<(String, String)>, ErrorKind>)
    ensures
        distinct_keys(pairs_view(flags@)) ==> (r matches Ok(g) && g@ == flags@),
        !distinct_keys(pairs_view(flags@)) ==> r == Err::<Vec<(String, String)>, ErrorKind>(
            ErrorKind::DuplicateFlag,
        ),
{
    let ghost f = pairs_view(flags@);
    let mut i: usize = 0;
    while i < flags.len()
        invariant
            f == pairs_view(flags@),
            i <= flags@.len(),
            forall|a: int, b: int| 0 <= a < b < flags@.len() && a < i ==> f[a].0 != f[b].0,
        decreases flags.len() - i,
    {
        let mut j: usize = i + 1;
        while j < flags.len()
            invariant
                f == pairs_view(flags@),
                i < j <= flags@.len(),
                forall|a: int, b: int| 0 <= a < b < flags@.len() && a < i ==> f[a].0 != f[b].0,
                forall|b: int| i < b < j ==> f[i as int].0 != f[b].0,
            decreases flags.len() - j,
        {
            assert(f[i as int].0 == flags@[i as int].0@);
            assert(f[j as int].0 == flags@[j as int].0@);
            if str_eq(flags[i].0.as_str(), flags[j].0.as_str()) {
                return Err(ErrorKind::DuplicateFlag);
            }
            j = j + 1;
        }
        i = i + 1;
    }
    Ok(flags)
}

/// The argument at `pos`, if there is one.
pub open spec fn arg(args: Seq<Seq<char>>, pos: int) -> Option<Seq<char>> {
    if 0 <= pos < args.len() { Some(args[pos]) } else { None }
}

/// A command and the position after it, or why it was refused.
pub open spec fn parsed_view(r: Result<(Command, usize), ErrorKind>) -> Result<(CommandView, int), ErrorKind> {
    match r {
        Ok((c, p)) => Ok((c@, p as int)),
        Err(e) => Err(e),
    }
}

fn arg_at(args: &Vec<String>, pos: usize) -> (r: Option<&String>)
    ensures
        match r {
            Some(s) => arg(views(args@), pos as int) == Some(s@),
            None => arg(views(args@), pos as int) is None,
        },
        r is Some ==> pos < args@.len() <= usize::MAX,
{
    let n = args.len();
    if pos < n {
        Some(&args[pos])
    } else {
        None
    }
}

/// `-width`: an unsigned number with unit, 128 by default.
pub open spec fn width_flag(f: Seq<(Seq<char>, Seq<char>)>) -> Result<usize, ErrorKind> {
    match lookup(f, "width"@) {
        None => Ok(128usize),
        Some(v) => match si_u64(v) {
            Err(e) => Err(e),
            Ok(x) => if x > usize::MAX { Err(ErrorKind::OutOfRange) } else { Ok(x as usize) },
        },
    }
}

/// `-stride`: an unsigned number with unit, the width by default.
pub open spec fn stride_flag(f: Seq<(Seq<char>, Seq<char>)>, width: usize) -> Result<u64, ErrorKind> {
    match lookup(f, "stride"@) {
        None => Ok(width as u64),
        Some(v) => si_u64(v),
    }
}

fn to_usize(x: u64) -> (r: Result<usize, ErrorKind>)
    ensures
        x <= usize::MAX ==> r == Ok::<usize, ErrorKind>(x as usize),
        x > usize::MAX ==> r == Err::<usize, ErrorKind>(ErrorKind::OutOfRange),
{
    if x > usize::MAX as u64 {
        Err(ErrorKind::OutOfRange)
    } else {
        Ok(x as usize)
    }
}

fn width_of(flags: &Vec<(String, String)>) -> (r: Result<usize, ErrorKind>)
    ensures
        r == width_flag(pairs_view(flags@)),
{
    match flag(flags, "width") {
        None => Ok(128),
        Some(v) => match parse_si_u64(v.as_str()) {
            Err(e) => Err(e),
            Ok(x) => to_usize(x),
        },
    }
}

fn stride_of(flags: &Vec<(String, String)>, width: usize) -> (r: Result<u64, ErrorKind>)
    ensures
        r == stride_flag(pairs_view(flags@), width),
{
    match flag(flags, "stride") {
        None => Ok(width as u64),
        Some(v) => parse_si_u64(v.as_str()),
    }
}

/// `from [-sr RATE] [-format EXT] FILENAME`.
pub open spec fn from_spec(args: Seq<Seq<char>>, p: int, f: Seq<(Seq<char>, Seq<char>)>) -> Result<(CommandView, int), ErrorKind> {
    match arg(args, p) {
        None => Err(ErrorKind::MissingArgument),
        Some(a) => if !keys_within(f, seq!["sr"@, "format"@]) {
            Err(ErrorKind::InvalidFlags)
        } else {
            match details_spec(name_guess_of(a), lookup(f, "sr"@), lookup(f, "format"@)) {
                Err(e) => Err(e),
                Ok(d) => Ok((CommandView::Octagon(OperationView::From { details: d, filename: a }), p + 1)),
            }
        },
    }
}

fn parse_from(args: &Vec<String>, p: usize, flags: &Vec<(String, String)>) -> (r: Result<(Command, usize), ErrorKind>)
    ensures
        parsed_view(r) == from_spec(views(args@), p as int, pairs_view(flags@)),
{
    let filename = match arg_at(args, p) {
        None => return Err(ErrorKind::MissingArgument),
        Some(a) => a,
    };
    proof {
        reveal_strlit("sr");
        reveal_strlit("format");
    }
    let allowed = ["sr", "format"];
    assert(allowed@.map_values(|s: &str| s@) =~= seq!["sr"@, "format"@]);
    if !only_flags(flags, &allowed) {
        return Err(ErrorKind::InvalidFlags);
    }
    let details = match guess_details(filename.as_str(), flag(flags, "sr"), flag(flags, "format")) {
        Err(e) => return Err(e),
        Ok(d) => d,
    };
    Ok((Command::Octagon(Operation::From { details, filename: filename.clone() }), p + 1))
}

/// `shift FREQUENCY`, with no flags.
pub open spec fn shift_spec(args: Seq<Seq<char>>, p: int, f: Seq<(Seq<char>, Seq<char>)>) -> Result<(CommandView, int), ErrorKind> {
    if f.len() > 0 {
        Err(ErrorKind::InvalidFlags)
    } else {
        match arg(args, p) {
            None => Err(ErrorKind::MissingArgument),
            Some(a) => match si_i64(a) {
                Err(e) => Err(e),
                Ok(v) => Ok((CommandView::Octagon(OperationView::Shift { frequency: v }), p + 1)),
            },
        }
    }
}

fn parse_shift(args: &Vec<String>, p: usize, flags: &Vec<(String, String)>) -> (r: Result<(Command, usize), ErrorKind>)
    ensures
        parsed_view(r) == shift_spec(views(args@), p as int, pairs_view(flags@)),
{
    if flags.len() > 0 {
        return Err(ErrorKind::InvalidFlags);
    }
    let a = match arg_at(args, p) {
        None => return Err(ErrorKind::MissingArgument),
        Some(a) => a,
    };
    match parse_si_i64(a.as_str()) {
        Err(e) => Err(e),
        Ok(v) => Ok((Command::Octagon(Operation::Shift { frequency: v }), p + 1)),
    }
}

/// `lowpass [-power N] [-decimate N] FREQUENCY`: the kernel has twice
/// `power` taps (40 by default); one sample in `decimate` (8) is kept.
pub open spec fn lowpass_spec(args: Seq<Seq<char>>, p: int, f: Seq<(Seq<char>, Seq<char>)>) -> Result<(CommandView, int), ErrorKind> {
    match arg(args, p) {
        None => Err(ErrorKind::MissingArgument),
        Some(a) => match si_u64(a) {
            Err(e) => Err(e),
            Ok(frequency) => {
                let size: Result<usize, ErrorKind> = match lookup(f, "power"@) {
                    None => Ok(40usize),
                    Some(v) => match si_u64(v) {
                        Err(e) => Err(e),
                        Ok(x) => if 2 * x > usize::MAX {
                            Err(ErrorKind::OutOfRange)
                        } else {
                            Ok((2 * x) as usize)
                        },
                    },
                };
                let decimate: Result<u64, ErrorKind> = match lookup(f, "decimate"@) {
                    None => Ok(8u64),
                    Some(v) => si_u64(v),
                };
                match size {
                    Err(e) => Err(e),
                    Ok(size) => match decimate {
                        Err(e) => Err(e),
                        Ok(decimate) => if !keys_within(f, seq!["power"@, "decimate"@]) {
                            Err(ErrorKind::InvalidFlags)
                        } else {
                            Ok((CommandView::Octagon(OperationView::LowPass { size, decimate, frequency }), p + 1))
                        },
                    },
                }
            },
        },
    }
}

fn parse_lowpass(args: &Vec<String>, p: usize, flags: &Vec<(String, String)>) -> (r: Result<(Command, usize), ErrorKind>)
    ensures
        parsed_view(r) == lowpass_spec(views(args@), p as int, pairs_view(flags@)),
{
    let a = match arg_at(args, p) {
        None => return Err(ErrorKind::MissingArgument),
        Some(a) => a,
    };
    let frequency = match parse_si_u64(a.as_str()) {
        Err(e) => return Err(e),
        Ok(v) => v,
    };
    let size: usize = match flag(flags, "power") {
        None => 40,
        Some(v) => match parse_si_u64(v.as_str()) {
            Err(e) => return Err(e),
            Ok(x) => match to_usize(x) {
                Err(e) => return Err(e),
                Ok(x) => match x.checked_mul(2) {
                    None => return Err(ErrorKind::OutOfRange),
                    Some(s) => s,
                },
            },
        },
    };
    let decimate: u64 = match flag(flags, "decimate") {
        None => 8,
        Some(v) => match parse_si_u64(v.as_str()) {
            Err(e) => return Err(e),
            Ok(x) => x,
        },
    };
    proof {
        reveal_strlit("power");
        reveal_strlit("decimate");
    }
    let allowed = ["power", "decimate"];
    assert(allowed@.map_values(|s: &str| s@) =~= seq!["power"@, "decimate"@]);
    if !only_flags(flags, &allowed) {
        return Err(ErrorKind::InvalidFlags);
    }
    Ok((Command::Octagon(Operation::LowPass { size, decimate, frequency }), p + 1))
}

/// Index of the first `:` in `s`.
pub open spec fn first_colon(s: Seq<char>) -> Option<int>
    decreases s.len(),
{
    if s.len() == 0 {
        None
    } else if s[0] == ':' {
        Some(0)
    } else {
        match first_colon(s.drop_first()) {
            Some(i) => Some(i + 1),
            None => None,
        }
    }
}

fn find_colon(s: &str) -> (r: Option<usize>)
    ensures
        match r {
            Some(i) => first_colon(s@) == Some(i as int) && i < s@.len(),
            None => first_colon(s@) is None,
        },
{
    let n = s.unicode_len();
    let mut i: usize = 0;
    assert(s@.skip(0) =~= s@);
    while i < n
        invariant
            n == s@.len(),
            i <= n,
            first_colon(s@) == match first_colon(s@.skip(i as int)) {
                Some(k) => Some(k + i),
                None => None,
            },
        decreases n - i,
    {
        assert(s@.skip(i as int).drop_first() =~= s@.skip(i + 1));
        if s.get_char(i) == ':' {
            return Some(i);
        }
        i = i + 1;
    }
    None
}

/// `-range LOW:HIGH`: two plain decimals.
pub open spec fn range_flag(f: Seq<(Seq<char>, Seq<char>)>) -> Result<(Option<Decimal>, Option<Decimal>), ErrorKind> {
    match lookup(f, "range"@) {
        None => Ok((None, None)),
        Some(v) => match first_colon(v) {
            None => Err(ErrorKind::InvalidNumber),
            Some(i) => match decimal_spec(v.take(i), 1) {
                Err(e) => Err(e),
                Ok(lo) => match decimal_spec(v.skip(i + 1), 1) {
                    Err(e) => Err(e),
                    Ok(hi) => Ok((Some(lo), Some(hi))),
                },
            },
        },
    }
}

/// `sparkfft [-width N] [-stride N] [-range LOW:HIGH]`.
pub open spec fn sparkfft_spec(args: Seq<Seq<char>>, p: int, f: Seq<(Seq<char>, Seq<char>)>) -> Result<(CommandView, int), ErrorKind> {
    match width_flag(f) {
        Err(e) => Err(e),
        Ok(width) => match stride_flag(f, width) {
            Err(e) => Err(e),
            Ok(stride) => match range_flag(f) {
                Err(e) => Err(e),
                Ok((min, max)) => if !keys_within(f, seq!["width"@, "stride"@, "range"@]) {
                    Err(ErrorKind::InvalidFlags)
                } else {
                    Ok((CommandView::Octagon(OperationView::SparkFft { width, stride, min, max }), p))
                },
            },
        },
    }
}

fn parse_sparkfft(args: &Vec<String>, p: usize, flags: &Vec<(String, String)>) -> (r: Result<(Command, usize), ErrorKind>)
    ensures
        parsed_view(r) == sparkfft_spec(views(args@), p as int, pairs_view(flags@)),
{
    let width = match width_of(flags) {
        Err(e) => return Err(e),
        Ok(w) => w,
    };
    let stride = match stride_of(flags, width) {
        Err(e) => return Err(e),
        Ok(s) => s,
    };
    let (min, max) = match flag(flags, "range") {
        None => (None, None),
        Some(v) => {
            let n = v.unicode_len();
            match find_colon(v.as_str()) {
                None => return Err(ErrorKind::InvalidNumber),
                Some(i) => {
                    let lo_text = v.as_str().substring_char(0, i);
                    let hi_text = v.as_str().substring_char(i + 1, n);
                    assert(lo_text@ =~= v@.take(i as int));
                    assert(hi_text@ =~= v@.skip(i + 1));
                    let lo = match parse_decimal(lo_text) {
                        Err(e) => return Err(e),
                        Ok(d) => d,
                    };
                    let hi = match parse_decimal(hi_text) {
                        Err(e) => return Err(e),
                        Ok(d) => d,
                    };
                    (Some(lo), Some(hi))
                },
            }
        },
    };
    proof {
        reveal_strlit("width");
        reveal_strlit("stride");
        reveal_strlit("range");
    }
    let allowed = ["width", "stride", "range"];
    assert(allowed@.map_values(|s: &str| s@) =~= seq!["width"@, "stride"@, "range"@]);
    if !only_flags(flags, &allowed) {
        return Err(ErrorKind::InvalidFlags);
    }
    Ok((Command::Octagon(Operation::SparkFft { width, stride, min, max }), p))
}

/// `bucket [-width N] [-stride N] -by freq COUNT`.
pub open spec fn bucket_spec(args: Seq<Seq<char>>, p: int, f: Seq<(Seq<char>, Seq<char>)>) -> Result<(CommandView, int), ErrorKind> {
    match arg(args, p) {
        None => Err(ErrorKind::MissingArgument),
        Some(a) => match plain_u64(a) {
            Err(e) => Err(e),
            Ok(x) => if x > usize::MAX {
                Err(ErrorKind::OutOfRange)
            } else {
                match width_flag(f) {
                    Err(e) => Err(e),
                    Ok(fft_width) => match stride_flag(f, fft_width) {
                        Err(e) => Err(e),
                        Ok(stride) => if lookup(f, "by"@) != Some("freq"@) {
                            Err(ErrorKind::InvalidFlags)
                        } else if !keys_within(f, seq!["width"@, "stride"@, "by"@]) {
                            Err(ErrorKind::InvalidFlags)
                        } else {
                            Ok((
                                CommandView::Octagon(
                                    OperationView::Bucket { fft_width, stride, levels: x as usize },
                                ),
                                p + 1,
                            ))
                        },
                    },
                }
            },
        },
    }
}

fn parse_bucket(args: &Vec<String>, p: usize, flags: &Vec<(String, String)>) -> (r: Result<(Command, usize), ErrorKind>)
    ensures
        parsed_view(r) == bucket_spec(views(args@), p as int, pairs_view(flags@)),
{
    let a = match arg_at(args, p) {
        None => return Err(ErrorKind::MissingArgument),
        Some(a) => a,
    };
    let levels = match parse_u64(a.as_str()) {
        Err(e) => return Err(e),
        Ok(x) => match to_usize(x) {
            Err(e) => return Err(e),
            Ok(l) => l,
        },
    };
    let fft_width = match width_of(flags) {
        Err(e) => return Err(e),
        Ok(w) => w,
    };
    let stride = match stride_of(flags, fft_width) {
        Err(e) => return Err(e),
        Ok(s) => s,
    };
    match flag(flags, "by") {
        Some(b) => {
            if !str_eq(b.as_str(), "freq") {
                return Err(ErrorKind::InvalidFlags);
            }
        },
        None => {
            return Err(ErrorKind::InvalidFlags);
        },
    }
    proof {
        reveal_strlit("width");
        reveal_strlit("stride");
        reveal_strlit("by");
    }
    let allowed = ["width", "stride", "by"];
    assert(allowed@.map_values(|s: &str| s@) =~= seq!["width"@, "stride"@, "by"@]);
    if !only_flags(flags, &allowed) {
        return Err(ErrorKind::InvalidFlags);
    }
    Ok((Command::Octagon(Operation::Bucket { fft_width, stride, levels }), p + 1))
}

/// `write [-overwrite BOOL] PREFIX`.
pub open spec fn write_spec(args: Seq<Seq<char>>, p: int, f: Seq<(Seq<char>, Seq<char>)>) -> Result<(CommandView, int), ErrorKind> {
    let overwrite: Result<bool, ErrorKind> = match lookup(f, "overwrite"@) {
        None => Ok(false),
        Some(v) => match bool_text(v) {
            Some(b) => Ok(b),
            None => Err(ErrorKind::InvalidBool),
        },
    };
    match overwrite {
        Err(e) => Err(e),
        Ok(overwrite) => if !keys_within(f, seq!["overwrite"@]) {
            Err(ErrorKind::InvalidFlags)
        } else {
            match arg(args, p) {
                None => Err(ErrorKind::MissingArgument),
                Some(a) => Ok((CommandView::Octagon(OperationView::Write { overwrite, prefix: a }), p + 1)),
            }
        },
    }
}

fn parse_write(args: &Vec<String>, p: usize, flags: &Vec<(String, String)>) -> (r: Result<(Command, usize), ErrorKind>)
    ensures
        parsed_view(r) == write_spec(views(args@), p as int, pairs_view(flags@)),
{
    let overwrite = match flag(flags, "overwrite") {
        None => false,
        Some(v) => match parse_bool(v.as_str()) {
            Err(e) => return Err(e),
            Ok(b) => b,
        },
    };
    proof {
        reveal_strlit("overwrite");
    }
    let allowed = ["overwrite"];
    assert(allowed@.map_values(|s: &str| s@) =~= seq!["overwrite"@]);
    if !only_flags(flags, &allowed) {
        return Err(ErrorKind::InvalidFlags);
    }
    match arg_at(args, p) {
        None => Err(ErrorKind::MissingArgument),
        Some(a) => Ok((Command::Octagon(Operation::Write { overwrite, prefix: a.clone() }), p + 1)),
    }
}

/// Each text read as a signed number with unit; the first failure wins.
pub open spec fn all_i64(ts: Seq<Seq<char>>) -> Result<Seq<i64>, ErrorKind>
    decreases ts.len(),
{
    if ts.len() == 0 {
        Ok(Seq::empty())
    } else {
        match si_i64(ts[0]) {
            Err(e) => Err(e),
            Ok(v) => match all_i64(ts.drop_first()) {
                Err(e) => Err(e),
                Ok(rest) => Ok(seq![v] + rest),
            },
        }
    }
}

/// `-len`: one second by default, or a single decimal with unit.
pub open spec fn len_flag(f: Seq<(Seq<char>, Seq<char>)>) -> Result<Decimal, ErrorKind> {
    let ls = lookup_all(f, "len"@);
    if ls.len() == 0 {
        Ok(Decimal { negative: false, mantissa: 1, scale: 0 })
    } else if ls.len() == 1 {
        si_decimal(ls[0])
    } else {
        Err(ErrorKind::DuplicateFlag)
    }
}

/// `gen -cos FREQUENCY [-cos FREQUENCY]... [-len SECONDS] SAMPLE_RATE`.
pub open spec fn gen_spec(args: Seq<Seq<char>>, p: int, f: Seq<(Seq<char>, Seq<char>)>) -> Result<(CommandView, int), ErrorKind> {
    let cs = lookup_all(f, "cos"@);
    if cs.len() == 0 {
        Err(ErrorKind::MissingArgument)
    } else {
        match all_i64(cs) {
            Err(e) => Err(e),
            Ok(cos) => match len_flag(f) {
                Err(e) => Err(e),
                Ok(seconds) => if !keys_within(f, seq!["cos"@, "len"@]) {
                    Err(ErrorKind::InvalidFlags)
                } else {
                    match arg(args, p) {
                        None => Err(ErrorKind::MissingArgument),
                        Some(a) => match si_u64(a) {
                            Err(e) => Err(e),
                            Ok(sample_rate) => Ok((
                                CommandView::Octagon(OperationView::Gen { seconds, sample_rate, cos }),
                                p + 1,
                            )),
                        },
                    }
                },
            },
        }
    }
}

fn parse_all_i64(ts: &Vec<String>) -> (r: Result<Vec<i64>, ErrorKind>)
    ensures
        match all_i64(views(ts@)) {
            Err(e) => r == Err::<Vec<i64>, ErrorKind>(e),
            Ok(vs) => r matches Ok(v) && v@ == vs,
        },
{
    let ghost t = views(ts@);
    let mut out: Vec<i64> = Vec::new();
    let mut i: usize = 0;
    assert(t.skip(0) =~= t);
    while i < ts.len()
        invariant
            t == views(ts@),
            i <= ts@.len(),
            all_i64(t) == match all_i64(t.skip(i as int)) {
                Err(e) => Err(e),
                Ok(rest) => Ok(out@ + rest),
            },
        decreases ts.len() - i,
    {
        assert(t.skip(i as int).drop_first() =~= t.skip(i + 1));
        assert(t.skip(i as int)[0] == ts@[i as int]@);
        let v = match parse_si_i64(ts[i].as_str()) {
            Err(e) => return Err(e),
            Ok(v) => v,
        };
        let ghost before = out@;
        out.push(v);
        proof {
            match all_i64(t.skip(i + 1)) {
                Err(e) => {},
                Ok(rest) => {
                    assert(before + (seq![v] + rest) =~= out@ + rest);
                },
            }
        }
        i = i + 1;
    }
    assert(t.skip(i as int) =~= Seq::<Seq<char>>::empty());
    assert(out@ + Seq::<i64>::empty() =~= out@);
    Ok(out)
}

fn parse_gen(args: &Vec<String>, p: usize, flags: &Vec<(String, String)>) -> (r: Result<(Command, usize), ErrorKind>)
    ensures
        parsed_view(r) == gen_spec(views(args@), p as int, pairs_view(flags@)),
{
    let cos_texts = flag_all(flags, "cos");
    if cos_texts.len() == 0 {
        return Err(ErrorKind::MissingArgument);
    }
    let cos = match parse_all_i64(&cos_texts) {
        Err(e) => return Err(e),
        Ok(c) => c,
    };
    let len_texts = flag_all(flags, "len");
    let seconds = if len_texts.len() == 0 {
        Decimal { negative: false, mantissa: 1, scale: 0 }
    } else if len_texts.len() == 1 {
        assert(views(len_texts@)[0] == len_texts@[0]@);
        match parse_si_decimal(len_texts[0].as_str()) {
            Err(e) => return Err(e),
            Ok(d) => d,
        }
    } else {
        return Err(ErrorKind::DuplicateFlag);
    };
    proof {
        reveal_strlit("cos");
        reveal_strlit("len");
    }
    let allowed = ["cos", "len"];
    assert(allowed@.map_values(|s: &str| s@) =~= seq!["cos"@, "len"@]);
    if !only_flags(flags, &allowed) {
        return Err(ErrorKind::InvalidFlags);
    }
    let a = match arg_at(args, p) {
        None => return Err(ErrorKind::MissingArgument),
        Some(a) => a,
    };
    match parse_si_u64(a.as_str()) {
        Err(e) => Err(e),
        Ok(sample_rate) => Ok((Command::Octagon(Operation::Gen { seconds, sample_rate, cos }), p + 1)),
    }
}

/// `ui`, with no flags.
pub open spec fn ui_spec(p: int, f: Seq<(Seq<char>, Seq<char>)>) -> Result<(CommandView, int), ErrorKind> {
    if f.len() > 0 { Err(ErrorKind::InvalidFlags) } else { Ok((CommandView::Ui, p)) }
}

/// `eui [FILENAME]`; flags are ignored.
pub open spec fn eui_spec(args: Seq<Seq<char>>, p: int) -> Result<(CommandView, int), ErrorKind> {
    match arg(args, p) {
        None => Ok((CommandView::Eui { filename: None }, p)),
        Some(a) => Ok((CommandView::Eui { filename: Some(a) }, p + 1)),
    }
}

/// The names of the commands that take each flag at most once.
pub open spec fn single_flag_command(name: Seq<char>) -> bool {
    name == "from"@ || name == "shift"@ || name == "lowpass"@ || name == "sparkfft"@ || name == "bucket"@
        || name == "write"@ || name == "ui"@ || name == "eui"@
}

/// The command whose name is at `pos`, with its flags and arguments, and
/// the position after it.
pub open spec fn command_spec(args: Seq<Seq<char>>, pos: int) -> Result<(CommandView, int), ErrorKind> {
    let name = args[pos];
    match read_flags(args, pos + 1) {
        Err(e) => Err(e),
        Ok((f, p)) => if name == "gen"@ {
            gen_spec(args, p, f)
        } else if !single_flag_command(name) {
            Err(ErrorKind::UnknownCommand)
        } else if !distinct_keys(f) {
            Err(ErrorKind::DuplicateFlag)
        } else if name == "from"@ {
            from_spec(args, p, f)
        } else if name == "shift"@ {
            shift_spec(args, p, f)
        } else if name == "lowpass"@ {
            lowpass_spec(args, p, f)
        } else if name == "sparkfft"@ {
            sparkfft_spec(args, p, f)
        } else if name == "bucket"@ {
            bucket_spec(args, p, f)
        } else if name == "write"@ {
            write_spec(args, p, f)
        } else if name == "ui"@ {
            ui_spec(p, f)
        } else {
            eui_spec(args, p)
        },
    }
}

pub proof fn lemma_command_advances(args: Seq<Seq<char>>, pos: int)
    requires
        0 <= pos < args.len(),
    ensures
        command_spec(args, pos) matches Ok((_c, next)) ==> pos < next <= args.len(),
{
    lemma_read_flags_end(args, pos + 1);
}

/// The commands from position `pos` on.
pub open spec fn parse_spec(args: Seq<Seq<char>>, pos: int) -> Result<Seq<CommandView>, ErrorKind>
    decreases args.len() - pos,
{
    if pos < 0 || pos >= args.len() {
        Ok(Seq::empty())
    } else {
        match command_spec(args, pos) {
            Err(e) => Err(e),
            Ok((c, next)) => {
                proof {
                    lemma_command_advances(args, pos);
                }
                match parse_spec(args, next) {
                    Err(e) => Err(e),
                    Ok(rest) => Ok(seq![c] + rest),
                }
            },
        }
    }
}

pub open spec fn commands_view(v: Seq<Command>) -> Seq<CommandView> {
    v.map_values(|c: Command| c@)
}

fn parse_command(args: &Vec<String>, pos: usize) -> (r: Result<(Command, usize), ErrorKind>)
    requires
        pos < args@.len(),
    ensures
        parsed_view(r) == command_spec(views(args@), pos as int),
{
    let n = args.len();
    let name = args[pos].as_str();
    let (flags, p) = match read_just_args(args, pos + 1) {
        Err(e) => return Err(e),
        Ok(x) => x,
    };
    if str_eq(name, "gen") {
        return parse_gen(args, p, &flags);
    }
    let known = str_eq(name, "from") || str_eq(name, "shift") || str_eq(name, "lowpass") || str_eq(
        name,
        "sparkfft",
    ) || str_eq(name, "bucket") || str_eq(name, "write") || str_eq(name, "ui") || str_eq(name, "eui");
    if !known {
        return Err(ErrorKind::UnknownCommand);
    }
    let flags = match no_duplicates(flags) {
        Err(e) => return Err(e),
        Ok(f) => f,
    };
    if str_eq(name, "from") {
        parse_from(args, p, &flags)
    } else if str_eq(name, "shift") {
        parse_shift(args, p, &flags)
    } else if str_eq(name, "lowpass") {
        parse_lowpass(args, p, &flags)
    } else if str_eq(name, "sparkfft") {
        parse_sparkfft(args, p, &flags)
    } else if str_eq(name, "bucket") {
        parse_bucket(args, p, &flags)
    } else if str_eq(name, "write") {
        parse_write(args, p, &flags)
    } else if str_eq(name, "ui") {
        if flags.len() > 0 {
            Err(ErrorKind::InvalidFlags)
        } else {
            Ok((Command::Ui, p))
        }
    } else {
        match arg_at(args, p) {
            None => Ok((Command::Eui { filename: None }, p)),
            Some(a) => Ok((Command::Eui { filename: Some(a.clone()) }, p + 1)),
        }
    }
}

/// Reads the whole command line (without the program name) into commands.
pub fn parse(args: &Vec<String>) -> (r: Result<Vec<Command>, ErrorKind>)
    ensures
        match parse_spec(views(args@), 0) {
            Err(e) => r == Err::<Vec<Command>, ErrorKind>(e),
            Ok(cs) => r matches Ok(v) && commands_view(v@) == cs,
        },
{
    let ghost a = views(args@);
    let mut out: Vec<Command> = Vec::new();
    let mut pos: usize = 0;
    while pos < args.len()
        invariant
            a == views(args@),
            parse_spec(a, 0) == match parse_spec(a, pos as int) {
                Err(e) => Err(e),
                Ok(rest) => Ok(commands_view(out@) + rest),
            },
        decreases args.len() - pos,
    {
        let (c, next) = match parse_command(args, pos) {
            Err(e) => return Err(e),
            Ok(x) => x,
        };
        proof {
            lemma_command_advances(a, pos as int);
            assert(parsed_view(Ok::<(Command, usize), ErrorKind>((c, next))) == command_spec(a, pos as int));
            assert(next > pos);
        }
        let ghost before = commands_view(out@);
        out.push(c);
        proof {
            assert(commands_view(out@) =~= before + seq![c@]);
            match parse_spec(a, next as int) {
                Err(e) => {},
                Ok(rest) => {
                    assert(before + (seq![c@] + rest) =~= commands_view(out@) + rest);
                },
            }
        }
        pos = next;
    }
    assert(commands_view(out@) + Seq::<CommandView>::empty() =~= commands_view(out@));
    Ok(out)
}

} // verus!

//! Screensaver command line: `/s` runs full screen, `/p <hwnd>` previews
//! inside a window, `/c` (or anything unknown, or nothing) configures,
//! `--version` / `-V` prints the version.

use vstd::prelude::*;
use vstd::string::*;
use crate::text::{chars_of, parse_i64, parse_i64_range, trim, trim_range};

verus! {

#[derive(Debug, Clone, Copy, PartialEq, Eq, Structural)]
pub enum Mode {
    Screensaver,
    Config,
    Preview(Option<isize>),
    Version,
}

/// Bytes of `c` in UTF-8.
pub open spec fn utf8_width(c: char) -> int {
    let u = c as u32;
    if u < 0x80 {
        1
    } else if u < 0x800 {
        2
    } else if u < 0x10000 {
        3
    } else {
        4
    }
}

/// Bytes of `s` in UTF-8 (`str::len`).
pub open spec fn byte_len(s: Seq<char>) -> int
    decreases s.len(),
{
    if s.len() == 0 {
        0
    } else {
        utf8_width(s[0]) + byte_len(s.drop_first())
    }
}

/// Byte offset `n` of `s` falls between two characters.
pub open spec fn char_boundary(s: Seq<char>, n: int) -> bool
    decreases s.len(),
{
    if n == 0 {
        true
    } else if s.len() == 0 || n < 0 {
        false
    } else {
        char_boundary(s.drop_first(), n - utf8_width(s[0]))
    }
}

/// The characters in the first `n` bytes of `s` (`&s[..n]` at a boundary).
pub open spec fn take_bytes(s: Seq<char>, n: int) -> Seq<char>
    decreases s.len(),
{
    if n <= 0 || s.len() == 0 {
        Seq::empty()
    } else {
        seq![s[0]] + take_bytes(s.drop_first(), n - utf8_width(s[0]))
    }
}

/// The characters after the first `n` bytes of `s` (`&s[n..]` at a boundary).
pub open spec fn skip_bytes(s: Seq<char>, n: int) -> Seq<char>
    decreases s.len(),
{
    if n <= 0 || s.len() == 0 {
        s
    } else {
        skip_bytes(s.drop_first(), n - utf8_width(s[0]))
    }
}

/// `str::to_lowercase`: the full Unicode lower-case mapping of `s`.
pub uninterp spec fn unicode_lower(s: Seq<char>) -> Seq<char>;

/// Calls `str::to_lowercase`; the result is named `unicode_lower` of the
/// argument, and nothing more is stated of it.
#[verifier::external_body]
fn to_lowercase(s: &str) -> (r: String)
    ensures
        r@ == unicode_lower(s@),
{
    s.to_lowercase()
}

pub open spec fn args_view(args: Seq<String>) -> Seq<Seq<char>> {
    args.map_values(|s: String| s@)
}

/// The first argument, lower-cased and trimmed.
pub open spec fn switch_of(args: Seq<Seq<char>>) -> Seq<char> {
    trim(unicode_lower(args[0]))
}

/// The mode that `args` select, given the lower-cased first argument.
pub open spec fn mode_of(args: Seq<Seq<char>>, lowered: Seq<char>) -> Mode {
    if args.len() == 0 {
        Mode::Config
    } else if args[0] == "--version"@ || args[0] == "-V"@ {
        Mode::Version
    } else {
        let l = trim(lowered);
        let long = byte_len(l) > 2;
        // a switch cut inside a multi-byte character is an unknown switch
        let cut_ok = !long || (char_boundary(l, 2) && char_boundary(l, 3));
        // the two-byte switch, and what follows it: after the separator
        // byte when glued (`/p:1234`), else the next argument
        let first = if long {
            take_bytes(l, 2)
        } else {
            l
        };
        let second: Option<Seq<char>> = if long {
            Some(trim(skip_bytes(l, 3)))
        } else if args.len() > 1 {
            Some(args[1])
        } else {
            None
        };
        if !cut_ok {
            Mode::Config
        } else if first == "/s"@ {
            Mode::Screensaver
        } else if first == "/p"@ {
            Mode::Preview(
                match second {
                    Some(s) => match parse_i64(s) {
                        Some(v) => Some(v as isize),
                        None => None,
                    },
                    None => None,
                },
            )
        } else {
            Mode::Config
        }
    }
}

fn utf8_width_exec(c: char) -> (w: usize)
    ensures
        w == utf8_width(c),
{
    let u = c as u32;
    if u < 0x80 {
        1
    } else if u < 0x800 {
        2
    } else if u < 0x10000 {
        3
    } else {
        4
    }
}

proof fn lemma_byte_len_pos(s: Seq<char>)
    ensures
        byte_len(s) >= s.len(),
    decreases s.len(),
{
    if s.len() > 0 {
        lemma_byte_len_pos(s.drop_first());
    }
}

/// Walks the first `n` bytes of `v[lo..hi]`: returns the index `k` where
/// they end, whether byte `n` is a boundary, and whether the text is
/// longer than `n` bytes.
fn walk_bytes(v: &Vec<char>, lo: usize, hi: usize, n: usize) -> (r: (usize, bool, bool))
    requires
        lo <= hi <= v.len(),
        n <= 8,
    ensures
        lo <= r.0 <= hi,
        v@.subrange(lo as int, r.0 as int) == take_bytes(v@.subrange(lo as int, hi as int), n as int),
        v@.subrange(r.0 as int, hi as int) == skip_bytes(v@.subrange(lo as int, hi as int), n as int),
        r.1 == char_boundary(v@.subrange(lo as int, hi as int), n as int),
        r.2 == (byte_len(v@.subrange(lo as int, hi as int)) > n),
{
    let ghost s = v@.subrange(lo as int, hi as int);
    let mut k = lo;
    let mut acc: usize = 0;
    while k < hi && acc < n
        invariant
            lo <= k <= hi <= v.len(),
            acc <= n + 4,
            n <= 8,
            s == v@.subrange(lo as int, hi as int),
            take_bytes(s, n as int) == v@.subrange(lo as int, k as int) + take_bytes(
                v@.subrange(k as int, hi as int),
                n - acc,
            ),
            skip_bytes(s, n as int) == skip_bytes(v@.subrange(k as int, hi as int), n - acc),
            char_boundary(s, n as int) == char_boundary(v@.subrange(k as int, hi as int), n - acc),
            byte_len(s) == acc + byte_len(v@.subrange(k as int, hi as int)),
        decreases hi - k,
    {
        let ghost t = v@.subrange(k as int, hi as int);
        assert(t.drop_first() =~= v@.subrange(k + 1, hi as int));
        assert(t[0] == v@[k as int]);
        let w = utf8_width_exec(v[k]);
        assert(v@.subrange(lo as int, k + 1) =~= v@.subrange(lo as int, k as int) + seq![v@[k as int]]);
        acc = acc + w;
        k = k + 1;
    }
    let ghost t = v@.subrange(k as int, hi as int);
    proof {
        lemma_byte_len_pos(t);
        assert(take_bytes(t, n - acc) =~= Seq::<char>::empty());
        if k == hi {
            assert(t =~= Seq::<char>::empty());
        }
        assert(v@.subrange(lo as int, k as int) + take_bytes(t, n - acc) =~= v@.subrange(lo as int, k as int));
    }
    (k, acc == n, acc > n || (acc == n && k < hi))
}

fn eq_lit(v: &Vec<char>, lo: usize, hi: usize, lit: &str) -> (r: bool)
    requires
        lo <= hi <= v.len(),
    ensures
        r == (v@.subrange(lo as int, hi as int) == lit@),
{
    let l = chars_of(lit);
    if hi - lo != l.len() {
        return false;
    }
    let mut i: usize = 0;
    while i < l.len()
        invariant
            lo <= hi <= v.len(),
            hi - lo == l.len(),
            l@ == lit@,
            i <= l.len(),
            forall|k: int| 0 <= k < i ==> v@[lo + k] == l@[k],
        decreases l.len() - i,
    {
        if v[lo + i] != l[i] {
            assert(v@.subrange(lo as int, hi as int)[i as int] != lit@[i as int]);
            return false;
        }
        i = i + 1;
    }
    assert(v@.subrange(lo as int, hi as int) =~= lit@);
    true
}

/// `parse_args` on a lower-cased first argument.
pub fn parse_args_lowered(args: &[String], lowered: &str) -> (r: Mode)
    ensures
        r == mode_of(args_view(args@), lowered@),
{
    if args.len() == 0 {
        return Mode::Config;
    }
    let a0 = chars_of(args[0].as_str());
    let n0 = a0.len();
    if eq_lit(&a0, 0, n0, "--version") || eq_lit(&a0, 0, n0, "-V") {
        assert(a0@.subrange(0, n0 as int) =~= a0@);
        return Mode::Version;
    }
    assert(a0@.subrange(0, n0 as int) =~= a0@);
    let low = chars_of(lowered);
    let (a, b) = trim_range(&low, 0, low.len());
    assert(low@.subrange(0, low.len() as int) =~= low@);
    let ghost l = low@.subrange(a as int, b as int);
    let (k2, ok2, long) = walk_bytes(&low, a, b, 2);
    if long {
        let (_, ok3, _) = walk_bytes(&low, a, b, 3);
        if !(ok2 && ok3) {
            return Mode::Config;
        }
    }
    let is_s;
    let is_p;
    let mut second: Option<Option<i64>> = None;
    if long {
        let (k3, _, _) = walk_bytes(&low, a, b, 3);
        is_s = eq_lit(&low, a, k2, "/s");
        is_p = eq_lit(&low, a, k2, "/p");
        let (p, q) = trim_range(&low, k3, b);
        second = Some(parse_i64_range(&low, p, q));
    } else {
        is_s = eq_lit(&low, a, b, "/s");
        is_p = eq_lit(&low, a, b, "/p");
        if args.len() > 1 {
            let a1 = chars_of(args[1].as_str());
            let n1 = a1.len();
            assert(a1@.subrange(0, n1 as int) =~= a1@);
            second = Some(parse_i64_range(&a1, 0, n1));
        }
    }
    if is_s {
        Mode::Screensaver
    } else if is_p {
        Mode::Preview(
            match second {
                Some(Some(v)) => Some(v as isize),
                _ => None,
            },
        )
    } else {
        Mode::Config
    }
}

/// Selects the mode from the command-line arguments (program name
/// excluded). The switch is matched case-insensitively; a glued value
/// (`/p:1234`, any separator byte) or the next argument is the window
/// handle of `/p`. A switch that would be cut inside a multi-byte
/// character is an unknown switch, so it opens the settings.
pub fn parse_args(args: &[String]) -> (r: Mode)
    ensures
        r == mode_of(args_view(args@), if args@.len() > 0 {
            unicode_lower(args@[0]@)
        } else {
            Seq::empty()
        }),
{
    if args.len() == 0 {
        return Mode::Config;
    }
    let lowered = to_lowercase(args[0].as_str());
    parse_args_lowered(args, lowered.as_str())
}

} // verus!

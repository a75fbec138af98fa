use vstd::prelude::*;

verus! {

pub const RESET: &'static str = "\x1b[0m";

pub const BLACK: &'static str = "\x1b[30m";
pub const RED: &'static str = "\x1b[31m";
pub const GREEN: &'static str = "\x1b[32m";
pub const YELLOW: &'static str = "\x1b[33m";
pub const BLUE: &'static str = "\x1b[34m";
pub const MAGENTA: &'static str = "\x1b[35m";
pub const CYAN: &'static str = "\x1b[36m";
pub const WHITE: &'static str = "\x1b[37m";

pub const BRIGHT_BLACK: &'static str = "\x1b[90m";
pub const BRIGHT_RED: &'static str = "\x1b[91m";
pub const BRIGHT_GREEN: &'static str = "\x1b[92m";
pub const BRIGHT_YELLOW: &'static str = "\x1b[93m";
pub const BRIGHT_BLUE: &'static str = "\x1b[94m";
pub const BRIGHT_MAGENTA: &'static str = "\x1b[95m";
pub const BRIGHT_CYAN: &'static str = "\x1b[96m";
pub const BRIGHT_WHITE: &'static str = "\x1b[97m";

pub const BG_BLACK: &'static str = "\x1b[40m";
pub const BG_RED: &'static str = "\x1b[41m";
pub const BG_GREEN: &'static str = "\x1b[42m";
pub const BG_YELLOW: &'static str = "\x1b[43m";
pub const BG_BLUE: &'static str = "\x1b[44m";
pub const BG_MAGENTA: &'static str = "\x1b[45m";
pub const BG_CYAN: &'static str = "\x1b[46m";
pub const BG_WHITE: &'static str = "\x1b[47m";

pub const BG_BRIGHT_BLACK: &'static str = "\x1b[100m";
pub const BG_BRIGHT_RED: &'static str = "\x1b[101m";
pub const BG_BRIGHT_GREEN: &'static str = "\x1b[102m";
pub const BG_BRIGHT_YELLOW: &'static str = "\x1b[103m";
pub const BG_BRIGHT_BLUE: &'static str = "\x1b[104m";
pub const BG_BRIGHT_MAGENTA: &'static str = "\x1b[105m";
pub const BG_BRIGHT_CYAN: &'static str = "\x1b[106m";
pub const BG_BRIGHT_WHITE: &'static str = "\x1b[107m";

pub const BOLD: &'static str = "\x1b[1m";
pub const DIM: &'static str = "\x1b[2m";
pub const ITALIC: &'static str = "\x1b[3m";
pub const UNDERLINE: &'static str = "\x1b[4m";
pub const BLINK: &'static str = "\x1b[5m";
pub const REVERSE: &'static str = "\x1b[7m";
pub const HIDDEN: &'static str = "\x1b[8m";
pub const STRIKETHROUGH: &'static str = "\x1b[9m";

/// Every escape sequence that is recognised when measuring the visible length of text.
pub open spec fn catalogue() -> Seq<Seq<char>> {
    seq![
        RESET@,
        BLACK@,
        RED@,
        GREEN@,
        YELLOW@,
        BLUE@,
        MAGENTA@,
        CYAN@,
        WHITE@,
        BRIGHT_BLACK@,
        BRIGHT_RED@,
        BRIGHT_GREEN@,
        BRIGHT_YELLOW@,
        BRIGHT_BLUE@,
        BRIGHT_MAGENTA@,
        BRIGHT_CYAN@,
        BRIGHT_WHITE@,
        BG_BLACK@,
        BG_RED@,
        BG_GREEN@,
        BG_YELLOW@,
        BG_BLUE@,
        BG_MAGENTA@,
        BG_CYAN@,
        BG_WHITE@,
        BG_BRIGHT_BLACK@,
        BG_BRIGHT_RED@,
        BG_BRIGHT_GREEN@,
        BG_BRIGHT_YELLOW@,
        BG_BRIGHT_BLUE@,
        BG_BRIGHT_MAGENTA@,
        BG_BRIGHT_CYAN@,
        BG_BRIGHT_WHITE@,
        BOLD@,
        DIM@,
        ITALIC@,
        UNDERLINE@,
        BLINK@,
        REVERSE@,
        HIDDEN@,
        STRIKETHROUGH@,
    ]
}

fn catalogue_strs() -> (r: Vec<&'static str>)
    ensures
        r@.len() == catalogue().len(),
        forall|i: int| 0 <= i < r@.len() ==> (#[trigger] r@[i])@ == catalogue()[i],
{
    let r = vec![
        RESET,
        BLACK,
        RED,
        GREEN,
        YELLOW,
        BLUE,
        MAGENTA,
        CYAN,
        WHITE,
        BRIGHT_BLACK,
        BRIGHT_RED,
        BRIGHT_GREEN,
        BRIGHT_YELLOW,
        BRIGHT_BLUE,
        BRIGHT_MAGENTA,
        BRIGHT_CYAN,
        BRIGHT_WHITE,
        BG_BLACK,
        BG_RED,
        BG_GREEN,
        BG_YELLOW,
        BG_BLUE,
        BG_MAGENTA,
        BG_CYAN,
        BG_WHITE,
        BG_BRIGHT_BLACK,
        BG_BRIGHT_RED,
        BG_BRIGHT_GREEN,
        BG_BRIGHT_YELLOW,
        BG_BRIGHT_BLUE,
        BG_BRIGHT_MAGENTA,
        BG_BRIGHT_CYAN,
        BG_BRIGHT_WHITE,
        BOLD,
        DIM,
        ITALIC,
        UNDERLINE,
        BLINK,
        REVERSE,
        HIDDEN,
        STRIKETHROUGH,
    ];
    r
}

/// Whether `pat` occurs in `s` at position `k`.
pub open spec fn matches_at(s: Seq<char>, pat: Seq<char>, k: int) -> bool {
    0 <= k && k + pat.len() <= s.len() && s.subrange(k, k + pat.len()) == pat
}

/// The number of positions below `k` at which `pat` occurs in `s`.
pub open spec fn count_before(s: Seq<char>, pat: Seq<char>, k: int) -> int
    decreases k,
{
    if k <= 0 {
        0
    } else {
        count_before(s, pat, k - 1) + if matches_at(s, pat, k - 1) { 1int } else { 0 }
    }
}

/// The number of times a non-empty `pat` occurs in `s`; an empty one counts for nothing.
pub open spec fn occurrences(s: Seq<char>, pat: Seq<char>) -> int {
    if pat.len() == 0 || pat.len() > s.len() {
        0
    } else {
        count_before(s, pat, s.len() - pat.len() + 1)
    }
}

/// The summed length of every occurrence in `s` of the sequences of `codes`.
pub open spec fn weight_of(s: Seq<char>, codes: Seq<Seq<char>>) -> int
    decreases codes.len(),
{
    if codes.len() == 0 {
        0
    } else {
        weight_of(s, codes.drop_last()) + occurrences(s, codes.last()) * codes.last().len()
    }
}

pub open spec fn color_weight(s: Seq<char>) -> int {
    weight_of(s, catalogue())
}

pub open spec fn at_least_zero(v: int) -> int {
    if v < 0 { 0 } else { v }
}

/// `len` less the length of every occurrence of a catalogued sequence in `s`, and zero where
/// that would be negative.
pub open spec fn without_colors(len: int, s: Seq<char>) -> int {
    at_least_zero(len - color_weight(s))
}

/// The number of cells that text takes on screen.
pub open spec fn visible_length(s: Seq<char>) -> int {
    without_colors(s.len() as int, s)
}

fn occurs_at(s: &str, pat: &str, k: usize, n: usize, m: usize) -> (r: bool)
    requires
        n == s@.len(),
        m == pat@.len(),
        k + m <= n,
    ensures
        r == matches_at(s@, pat@, k as int),
{
    let mut j: usize = 0;
    while j < m
        invariant
            n == s@.len(),
            m == pat@.len(),
            k + m <= n,
            j <= m,
            forall|t: int| 0 <= t < j ==> s@[k + t] == pat@[t],
        decreases m - j,
    {
        if s.get_char(k + j) != pat.get_char(j) {
            assert(s@.subrange(k as int, k + m)[j as int] != pat@[j as int]);
            return false;
        }
        j += 1;
    }
    assert(s@.subrange(k as int, k + m) =~= pat@);
    true
}

/// Takes from `len` the length of each occurrence in `string` of a recognised escape sequence,
/// stopping at zero.
pub fn remove_colors_from_len(len: usize, string: &str) -> (r: usize)
    ensures
        r == without_colors(len as int, string@),
{
    let codes = catalogue_strs();
    let n = string.unicode_len();
    let mut remaining: usize = len;
    let mut i: usize = 0;
    while i < codes.len()
        invariant
            i <= codes@.len(),
            n == string@.len(),
            codes@.len() == catalogue().len(),
            forall|j: int| 0 <= j < codes@.len() ==> (#[trigger] codes@[j])@ == catalogue()[j],
            remaining == at_least_zero(len - weight_of(string@, catalogue().subrange(0, i as int))),
        decreases codes@.len() - i,
    {
        let code = codes[i];
        let m = code.unicode_len();
        let ghost before = weight_of(string@, catalogue().subrange(0, i as int));
        proof {
            assert(codes@[i as int]@ == catalogue()[i as int]);
        }
        if m >= 1 && m <= n {
            let mut k: usize = 0;
            while k <= n - m
                invariant
                    n == string@.len(),
                    m == code@.len(),
                    1 <= m <= n,
                    k <= n - m + 1,
                    remaining == at_least_zero(len - (before + count_before(string@, code@, k as int) * m)),
                decreases n - m + 1 - k,
            {
                let hit = occurs_at(string, code, k, n, m);
                let ghost c = count_before(string@, code@, k as int);
                assert((c + 1) * m == c * m + m) by (nonlinear_arith);
                if hit {
                    remaining = if remaining >= m { remaining - m } else { 0 };
                }
                k += 1;
            }
        }
        proof {
            let next = catalogue().subrange(0, i + 1);
            assert(next.drop_last() == catalogue().subrange(0, i as int));
            assert(next.last() == code@);
        }
        i += 1;
    }
    assert(catalogue().subrange(0, catalogue().len() as int) == catalogue());
    remaining
}

/// The visible length of text: its characters less the recognised escape sequences.
pub fn visible_len(s: &str) -> (r: usize)
    ensures
        r == visible_length(s@),
{
    remove_colors_from_len(s.unicode_len(), s)
}

} // verus!

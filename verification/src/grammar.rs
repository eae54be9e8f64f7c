//! The command grammar.
//!
//! One input line is either a command or whitespace only. The grammar, with
//! `WS` one of space, tab, carriage return and newline:
//!
//! ```text
//! line      := command | WS*
//! command   := set_cmd | del_cmd | get_cmd | exit_cmd | help_cmd
//! set_cmd   := "set" WS+ metric WS* "=" WS* number
//! del_cmd   := "del" WS+ metric
//! get_cmd   := "get" WS+ metric
//! exit_cmd  := "exit" | "quit"
//! help_cmd  := "help"
//! metric    := name ("[" tags "]")?
//! tags      := key WS* "=" WS* string ("," key WS* "=" WS* string)*
//! ```
//!
//! Alternatives are tried in that order; the first one that matches a prefix
//! wins and must then consume the whole line. Names and keys are alphabetic;
//! tag values are quoted strings in which `\"` and `\\` are the only escapes;
//! numbers are ordinary floating-point literals, carried as their text. The
//! spec functions below are the grammar's meaning; `parse_command` is proved
//! against them.

use vstd::prelude::*;
use vstd::string::StrSliceExecFns;
use vstd::string::StringExecFns;

use crate::metric::{is_alpha_char, pairs_view, wf_ident, Metric, MetricV};

verus! {

/// The whitespace characters of the grammar.
pub open spec fn is_ws_char(c: char) -> bool {
    c == ' ' || c == '\t' || c == '\r' || c == '\n'
}

/// An ASCII digit.
pub open spec fn is_digit_char(c: char) -> bool {
    '0' <= c && c <= '9'
}

/// The first position at or after `i` that does not hold whitespace.
pub open spec fn skip_ws(s: Seq<char>, i: int) -> int
    decreases s.len() - i,
{
    if 0 <= i < s.len() && is_ws_char(s[i]) {
        skip_ws(s, i + 1)
    } else {
        i
    }
}

/// The end of the run of letters starting at `i`.
pub open spec fn alpha_end(s: Seq<char>, i: int) -> int
    decreases s.len() - i,
{
    if 0 <= i < s.len() && is_alpha_char(s[i]) {
        alpha_end(s, i + 1)
    } else {
        i
    }
}

/// The end of the run of digits starting at `i`.
pub open spec fn digits_end(s: Seq<char>, i: int) -> int
    decreases s.len() - i,
{
    if 0 <= i < s.len() && is_digit_char(s[i]) {
        digits_end(s, i + 1)
    } else {
        i
    }
}

/// The position of the closing quote of string content starting at `j`, or
/// `None` on an unterminated string or an unrecognized escape.
pub open spec fn str_content_end(s: Seq<char>, j: int) -> Option<int>
    decreases s.len() - j,
{
    if j < 0 || j >= s.len() {
        None
    } else if s[j] == '"' {
        Some(j)
    } else if s[j] == '\\' {
        if j + 1 < s.len() && (s[j + 1] == '"' || s[j + 1] == '\\') {
            str_content_end(s, j + 2)
        } else {
            None
        }
    } else {
        str_content_end(s, j + 1)
    }
}

/// The decoded form of the string content `s[a..b)`: each `\"` and `\\`
/// stands for its second character.
pub open spec fn unescape(s: Seq<char>, a: int, b: int) -> Seq<char>
    decreases b - a,
{
    if a < 0 || a >= b {
        Seq::empty()
    } else if s[a] == '\\' && a + 1 < b {
        seq![s[a + 1]] + unescape(s, a + 2, b)
    } else {
        seq![s[a]] + unescape(s, a + 1, b)
    }
}

/// A quoted string at `i`: the position after the closing quote, and the
/// decoded value.
pub open spec fn parse_qstring(s: Seq<char>, i: int) -> Option<(int, Seq<char>)> {
    if 0 <= i < s.len() && s[i] == '"' {
        match str_content_end(s, i + 1) {
            Some(q) => Some((q + 1, unescape(s, i + 1, q))),
            None => None,
        }
    } else {
        None
    }
}

/// The end of an optional exponent part at `d`.
pub open spec fn exponent_end(s: Seq<char>, d: int) -> int {
    if 0 <= d < s.len() && (s[d] == 'e' || s[d] == 'E') {
        let e1 = if d + 1 < s.len() && (s[d + 1] == '+' || s[d + 1] == '-') {
            d + 2
        } else {
            d + 1
        };
        if e1 < s.len() && is_digit_char(s[e1]) {
            digits_end(s, e1)
        } else {
            d
        }
    } else {
        d
    }
}

/// The end of a floating-point literal at `i`: optional sign, then digits
/// with an optional fraction or a fraction alone, then an optional exponent.
pub open spec fn number_end(s: Seq<char>, i: int) -> Option<int> {
    if i < 0 {
        None
    } else {
        let i1 = if i < s.len() && (s[i] == '+' || s[i] == '-') {
            i + 1
        } else {
            i
        };
        if i1 < s.len() && is_digit_char(s[i1]) {
            let d = digits_end(s, i1);
            if d < s.len() && s[d] == '.' {
                Some(exponent_end(s, digits_end(s, d + 1)))
            } else {
                Some(exponent_end(s, d))
            }
        } else if i1 < s.len() && s[i1] == '.' && i1 + 1 < s.len() && is_digit_char(s[i1 + 1]) {
            Some(exponent_end(s, digits_end(s, i1 + 1)))
        } else {
            None
        }
    }
}

/// One `key = "value"` pair at `i`: the end position, the key and the
/// decoded value.
pub open spec fn parse_pair(s: Seq<char>, i: int) -> Option<(int, (Seq<char>, Seq<char>))> {
    if i < 0 {
        None
    } else {
        let k = alpha_end(s, i);
        if k == i {
            None
        } else {
            let e = skip_ws(s, k);
            if e < s.len() && s[e] == '=' {
                let v = skip_ws(s, e + 1);
                match parse_qstring(s, v) {
                    Some((end, val)) => Some((end, (s.subrange(i, k), val))),
                    None => None,
                }
            } else {
                None
            }
        }
    }
}

/// `skip_ws` stays within bounds and skips exactly the whitespace run.
pub proof fn lemma_skip_ws(s: Seq<char>, i: int)
    requires
        0 <= i <= s.len(),
    ensures
        i <= skip_ws(s, i) <= s.len(),
        forall|j: int| i <= j < skip_ws(s, i) ==> is_ws_char(s[j]),
        skip_ws(s, i) < s.len() ==> !is_ws_char(s[skip_ws(s, i)]),
    decreases s.len() - i,
{
    if i < s.len() && is_ws_char(s[i]) {
        lemma_skip_ws(s, i + 1);
    }
}

/// `alpha_end` stays within bounds and takes exactly the letter run.
pub proof fn lemma_alpha_end(s: Seq<char>, i: int)
    requires
        0 <= i <= s.len(),
    ensures
        i <= alpha_end(s, i) <= s.len(),
        forall|j: int| i <= j < alpha_end(s, i) ==> is_alpha_char(s[j]),
        alpha_end(s, i) < s.len() ==> !is_alpha_char(s[alpha_end(s, i)]),
    decreases s.len() - i,
{
    if i < s.len() && is_alpha_char(s[i]) {
        lemma_alpha_end(s, i + 1);
    }
}

/// `digits_end` stays within bounds.
pub proof fn lemma_digits_end(s: Seq<char>, i: int)
    requires
        0 <= i <= s.len(),
    ensures
        i <= digits_end(s, i) <= s.len(),
    decreases s.len() - i,
{
    if i < s.len() && is_digit_char(s[i]) {
        lemma_digits_end(s, i + 1);
    }
}

/// A found closing quote lies within the input.
pub proof fn lemma_content_end(s: Seq<char>, j: int)
    requires
        0 <= j <= s.len(),
    ensures
        str_content_end(s, j) matches Some(q) ==> j <= q < s.len(),
    decreases s.len() - j,
{
    if j < s.len() && s[j] != '"' {
        if s[j] == '\\' {
            if j + 1 < s.len() && (s[j + 1] == '"' || s[j + 1] == '\\') {
                lemma_content_end(s, j + 2);
            }
        } else {
            lemma_content_end(s, j + 1);
        }
    }
}

/// A parsed number ends after at least one character, within the input.
pub proof fn lemma_number_end_bounds(s: Seq<char>, i: int)
    requires
        0 <= i <= s.len(),
    ensures
        number_end(s, i) matches Some(e) ==> i < e <= s.len(),
{
    let i1 = if i < s.len() && (s[i] == '+' || s[i] == '-') {
        i + 1
    } else {
        i
    };
    if i1 < s.len() && is_digit_char(s[i1]) {
        lemma_digits_end(s, i1);
        lemma_digits_end(s, i1 + 1);
        let d = digits_end(s, i1);
        assert(d > i1);
        if d < s.len() && s[d] == '.' {
            lemma_digits_end(s, d + 1);
            lemma_exponent_end_bounds(s, digits_end(s, d + 1));
        } else {
            lemma_exponent_end_bounds(s, d);
        }
    } else if i1 < s.len() && s[i1] == '.' && i1 + 1 < s.len() && is_digit_char(s[i1 + 1]) {
        lemma_digits_end(s, i1 + 1);
        lemma_exponent_end_bounds(s, digits_end(s, i1 + 1));
    }
}

/// An exponent never moves backwards nor past the input.
pub proof fn lemma_exponent_end_bounds(s: Seq<char>, d: int)
    requires
        0 <= d <= s.len(),
    ensures
        d <= exponent_end(s, d) <= s.len(),
{
    if d < s.len() && (s[d] == 'e' || s[d] == 'E') {
        let e1 = if d + 1 < s.len() && (s[d + 1] == '+' || s[d + 1] == '-') {
            d + 2
        } else {
            d + 1
        };
        if e1 < s.len() && is_digit_char(s[e1]) {
            lemma_digits_end(s, e1);
        }
    }
}

/// A parsed pair ends after its first character, within the input, and
/// carries a well-formed key.
pub proof fn lemma_parse_pair_bounds(s: Seq<char>, i: int)
    requires
        0 <= i <= s.len(),
    ensures
        parse_pair(s, i) matches Some(r) ==> i < r.0 <= s.len() && wf_ident(r.1.0),
{
    lemma_alpha_end(s, i);
    let k = alpha_end(s, i);
    if k != i {
        lemma_skip_ws(s, k);
        let e = skip_ws(s, k);
        if e < s.len() && s[e] == '=' {
            lemma_skip_ws(s, e + 1);
            let v = skip_ws(s, e + 1);
            if 0 <= v < s.len() && s[v] == '"' {
                lemma_content_end(s, v + 1);
            }
        }
    }
}

/// One or more comma-separated pairs at `i`: the end position and the pairs
/// in order.
pub open spec fn parse_pairs(s: Seq<char>, i: int) -> Option<(int, Seq<(Seq<char>, Seq<char>)>)>
    decreases s.len() - i,
    via parse_pairs_decreases
{
    if i < 0 {
        None
    } else {
        match parse_pair(s, i) {
            None => None,
            Some((j, p)) => if j < s.len() && s[j] == ',' {
                match parse_pairs(s, j + 1) {
                    Some((end, rest)) => Some((end, seq![p] + rest)),
                    None => None,
                }
            } else {
                Some((j, seq![p]))
            },
        }
    }
}

#[via_fn]
proof fn parse_pairs_decreases(s: Seq<char>, i: int) {
    if 0 <= i <= s.len() {
        lemma_parse_pair_bounds(s, i);
    } else if i > s.len() {
        lemma_alpha_end_oob(s, i);
    }
}

/// Past the input, a letter run is empty.
pub proof fn lemma_alpha_end_oob(s: Seq<char>, i: int)
    requires
        i > s.len(),
    ensures
        alpha_end(s, i) == i,
{
}

/// A parsed pair list ends after its first character, within the input, and
/// carries well-formed keys.
pub proof fn lemma_parse_pairs_bounds(s: Seq<char>, i: int)
    requires
        0 <= i <= s.len(),
    ensures
        parse_pairs(s, i) matches Some(r) ==> i < r.0 <= s.len() && forall|q: int|
            0 <= q < r.1.len() ==> wf_ident(#[trigger] r.1[q].0),
    decreases s.len() - i,
{
    lemma_parse_pair_bounds(s, i);
    match parse_pair(s, i) {
        None => {},
        Some((j, p)) => {
            if j < s.len() && s[j] == ',' {
                lemma_parse_pairs_bounds(s, j + 1);
            }
        },
    }
}

/// A metric at `i`: its name and its tag pairs, which are empty when no
/// bracket group follows the name.
pub open spec fn parse_metric(s: Seq<char>, i: int) -> Option<(int, MetricV)> {
    if i < 0 {
        None
    } else {
        let k = alpha_end(s, i);
        if k == i {
            None
        } else {
            let name = s.subrange(i, k);
            if k < s.len() && s[k] == '[' {
                match parse_pairs(s, k + 1) {
                    Some((j, ps)) => if j < s.len() && s[j] == ']' {
                        Some((j + 1, MetricV { name, pairs: ps }))
                    } else {
                        None
                    },
                    None => None,
                }
            } else {
                Some((k, MetricV { name, pairs: Seq::empty() }))
            }
        }
    }
}

/// A parsed metric ends after its first character, within the input, and is
/// well-formed.
pub proof fn lemma_parse_metric_bounds(s: Seq<char>, i: int)
    requires
        0 <= i <= s.len(),
    ensures
        parse_metric(s, i) matches Some(r) ==> i < r.0 <= s.len() && r.1.wf(),
{
    lemma_alpha_end(s, i);
    let k = alpha_end(s, i);
    if k != i && k < s.len() && s[k] == '[' {
        lemma_parse_pairs_bounds(s, k + 1);
    }
}

/// Does the line start with this keyword?
pub open spec fn match_kw(s: Seq<char>, kw: Seq<char>) -> bool {
    kw.len() <= s.len() && s.subrange(0, kw.len() as int) == kw
}

/// One parsed line, at the mathematical level. A `Set` carries the value
/// literal's characters.
pub enum LineV {
    Empty,
    SetCmd(MetricV, Seq<char>),
    DelCmd(MetricV),
    GetCmd(MetricV),
    ExitCmd,
    HelpCmd,
}

/// A `set` command prefix: keyword, metric, `=`, number.
pub open spec fn parse_set(s: Seq<char>) -> Option<(int, LineV)> {
    if match_kw(s, seq!['s', 'e', 't']) {
        let w = skip_ws(s, 3);
        if w > 3 {
            match parse_metric(s, w) {
                Some((j, m)) => {
                    let e = skip_ws(s, j);
                    if e < s.len() && s[e] == '=' {
                        let v = skip_ws(s, e + 1);
                        match number_end(s, v) {
                            Some(end) => Some((end, LineV::SetCmd(m, s.subrange(v, end)))),
                            None => None,
                        }
                    } else {
                        None
                    }
                },
                None => None,
            }
        } else {
            None
        }
    } else {
        None
    }
}

/// A `del` command prefix.
pub open spec fn parse_del(s: Seq<char>) -> Option<(int, LineV)> {
    if match_kw(s, seq!['d', 'e', 'l']) {
        let w = skip_ws(s, 3);
        if w > 3 {
            match parse_metric(s, w) {
                Some((j, m)) => Some((j, LineV::DelCmd(m))),
                None => None,
            }
        } else {
            None
        }
    } else {
        None
    }
}

/// A `get` command prefix.
pub open spec fn parse_get(s: Seq<char>) -> Option<(int, LineV)> {
    if match_kw(s, seq!['g', 'e', 't']) {
        let w = skip_ws(s, 3);
        if w > 3 {
            match parse_metric(s, w) {
                Some((j, m)) => Some((j, LineV::GetCmd(m))),
                None => None,
            }
        } else {
            None
        }
    } else {
        None
    }
}

/// An `exit` or `quit` command prefix.
pub open spec fn parse_exit(s: Seq<char>) -> Option<(int, LineV)> {
    if match_kw(s, seq!['e', 'x', 'i', 't']) || match_kw(s, seq!['q', 'u', 'i', 't']) {
        Some((4, LineV::ExitCmd))
    } else {
        None
    }
}

/// A `help` command prefix.
pub open spec fn parse_help(s: Seq<char>) -> Option<(int, LineV)> {
    if match_kw(s, seq!['h', 'e', 'l', 'p']) {
        Some((4, LineV::HelpCmd))
    } else {
        None
    }
}

/// The first command alternative whose prefix matches, in the fixed order
/// set, del, get, exit, help.
pub open spec fn first_cmd(s: Seq<char>) -> Option<(int, LineV)> {
    if parse_set(s) is Some {
        parse_set(s)
    } else if parse_del(s) is Some {
        parse_del(s)
    } else if parse_get(s) is Some {
        parse_get(s)
    } else if parse_exit(s) is Some {
        parse_exit(s)
    } else {
        parse_help(s)
    }
}

/// One whole line: the command whose prefix matched first, required to have
/// consumed everything; a whitespace-only line is `Empty`; anything else
/// fails.
pub open spec fn parse_line(s: Seq<char>) -> Option<LineV> {
    match first_cmd(s) {
        Some((end, c)) => if end == s.len() {
            Some(c)
        } else {
            None
        },
        None => if skip_ws(s, 0) == s.len() {
            Some(LineV::Empty)
        } else {
            None
        },
    }
}

/// One parsed command; a `set` carries its value literal's text.
pub enum Command {
    SetCmd { metric: Metric, value: String },
    DelCmd { metric: Metric },
    GetCmd { metric: Metric },
    ExitCmd,
    HelpCmd,
}

impl View for Command {
    type V = LineV;

    open spec fn view(&self) -> LineV {
        match self {
            Command::SetCmd { metric, value } => LineV::SetCmd(metric@, value@),
            Command::DelCmd { metric } => LineV::DelCmd(metric@),
            Command::GetCmd { metric } => LineV::GetCmd(metric@),
            Command::ExitCmd => LineV::ExitCmd,
            Command::HelpCmd => LineV::HelpCmd,
        }
    }
}

impl Command {
    /// The carried metric identity, if any, is well-formed.
    pub open spec fn wf(&self) -> bool {
        match self {
            Command::SetCmd { metric, value } => metric@.wf(),
            Command::DelCmd { metric } => metric@.wf(),
            Command::GetCmd { metric } => metric@.wf(),
            Command::ExitCmd => true,
            Command::HelpCmd => true,
        }
    }
}

/// A line that no grammar alternative accepts whole.
#[derive(Clone, Copy, Debug, PartialEq, Eq, Structural)]
pub struct ParseError;

fn is_ws_exec(c: char) -> (r: bool)
    ensures
        r == is_ws_char(c),
{
    c == ' ' || c == '\t' || c == '\r' || c == '\n'
}

fn is_alpha_exec(c: char) -> (r: bool)
    ensures
        r == is_alpha_char(c),
{
    ('a' <= c && c <= 'z') || ('A' <= c && c <= 'Z')
}

fn is_digit_exec(c: char) -> (r: bool)
    ensures
        r == is_digit_char(c),
{
    '0' <= c && c <= '9'
}

fn scan_ws(s: &str, n: usize, i: usize) -> (j: usize)
    requires
        n == s@.len(),
        i <= n,
    ensures
        j as int == skip_ws(s@, i as int),
        i <= j <= n,
    decreases n - i,
{
    if i < n {
        if is_ws_exec(s.get_char(i)) {
            return scan_ws(s, n, i + 1);
        }
    }
    i
}

fn scan_alpha(s: &str, n: usize, i: usize) -> (j: usize)
    requires
        n == s@.len(),
        i <= n,
    ensures
        j as int == alpha_end(s@, i as int),
        i <= j <= n,
    decreases n - i,
{
    if i < n {
        if is_alpha_exec(s.get_char(i)) {
            return scan_alpha(s, n, i + 1);
        }
    }
    i
}

fn scan_digits(s: &str, n: usize, i: usize) -> (j: usize)
    requires
        n == s@.len(),
        i <= n,
    ensures
        j as int == digits_end(s@, i as int),
        i <= j <= n,
    decreases n - i,
{
    if i < n {
        if is_digit_exec(s.get_char(i)) {
            return scan_digits(s, n, i + 1);
        }
    }
    i
}

fn scan_content_end(s: &str, n: usize, j: usize) -> (r: Option<usize>)
    requires
        n == s@.len(),
        j <= n,
    ensures
        match r {
            Some(q) => str_content_end(s@, j as int) == Some(q as int) && j <= q < n,
            None => str_content_end(s@, j as int) is None,
        },
    decreases n - j,
{
    if j >= n {
        return None;
    }
    let c = s.get_char(j);
    if c == '"' {
        Some(j)
    } else if c == '\\' {
        if j + 1 < n {
            let c2 = s.get_char(j + 1);
            if c2 == '"' || c2 == '\\' {
                scan_content_end(s, n, j + 2)
            } else {
                None
            }
        } else {
            None
        }
    } else {
        scan_content_end(s, n, j + 1)
    }
}

fn unescape_exec(s: &str, n: usize, a: usize, b: usize) -> (v: String)
    requires
        n == s@.len(),
        a <= b,
        b <= n,
    ensures
        v@ == unescape(s@, a as int, b as int),
    decreases b - a,
{
    if a >= b {
        return String::new();
    }
    let c = s.get_char(a);
    if c == '\\' && a + 1 < b {
        let mut piece = s.substring_char(a + 1, a + 2).to_owned();
        let rest = unescape_exec(s, n, a + 2, b);
        piece.append(rest.as_str());
        proof {
            assert(s@.subrange(a as int + 1, a as int + 2) =~= seq![s@[a as int + 1]]);
        }
        piece
    } else {
        let mut piece = s.substring_char(a, a + 1).to_owned();
        let rest = unescape_exec(s, n, a + 1, b);
        piece.append(rest.as_str());
        proof {
            assert(s@.subrange(a as int, a as int + 1) =~= seq![s@[a as int]]);
        }
        piece
    }
}

fn scan_qstring(s: &str, n: usize, i: usize) -> (r: Option<(usize, String)>)
    requires
        n == s@.len(),
        i <= n,
    ensures
        match r {
            Some(p) => parse_qstring(s@, i as int) == Some((p.0 as int, p.1@)) && i < p.0 <= n,
            None => parse_qstring(s@, i as int) is None,
        },
{
    if i < n {
        if s.get_char(i) == '"' {
            match scan_content_end(s, n, i + 1) {
                Some(q) => {
                    let v = unescape_exec(s, n, i + 1, q);
                    return Some((q + 1, v));
                },
                None => {
                    return None;
                },
            }
        }
    }
    None
}

fn scan_exponent(s: &str, n: usize, d: usize) -> (e: usize)
    requires
        n == s@.len(),
        d <= n,
    ensures
        e as int == exponent_end(s@, d as int),
        d <= e <= n,
{
    if d < n {
        let c = s.get_char(d);
        if c == 'e' || c == 'E' {
            let e1 = if d + 1 < n && (s.get_char(d + 1) == '+' || s.get_char(d + 1) == '-') {
                d + 2
            } else {
                d + 1
            };
            if e1 < n && is_digit_exec(s.get_char(e1)) {
                return scan_digits(s, n, e1);
            }
        }
    }
    d
}

fn scan_number(s: &str, n: usize, i: usize) -> (r: Option<usize>)
    requires
        n == s@.len(),
        i <= n,
    ensures
        match r {
            Some(e) => number_end(s@, i as int) == Some(e as int) && i < e <= n,
            None => number_end(s@, i as int) is None,
        },
{
    proof {
        lemma_number_end_bounds(s@, i as int);
    }
    let i1 = if i < n && (s.get_char(i) == '+' || s.get_char(i) == '-') {
        i + 1
    } else {
        i
    };
    if i1 < n && is_digit_exec(s.get_char(i1)) {
        let d = scan_digits(s, n, i1);
        let d2 = if d < n && s.get_char(d) == '.' {
            scan_digits(s, n, d + 1)
        } else {
            d
        };
        Some(scan_exponent(s, n, d2))
    } else if i1 < n && s.get_char(i1) == '.' && i1 + 1 < n && is_digit_exec(s.get_char(i1 + 1)) {
        let d2 = scan_digits(s, n, i1 + 1);
        Some(scan_exponent(s, n, d2))
    } else {
        None
    }
}

fn scan_pair(s: &str, n: usize, i: usize) -> (r: Option<(usize, (String, String))>)
    requires
        n == s@.len(),
        i <= n,
    ensures
        match r {
            Some(p) => parse_pair(s@, i as int) == Some((p.0 as int, ((p.1).0@, (p.1).1@)))
                && i < p.0 <= n,
            None => parse_pair(s@, i as int) is None,
        },
{
    let k = scan_alpha(s, n, i);
    if k == i {
        return None;
    }
    let e = scan_ws(s, n, k);
    if e < n && s.get_char(e) == '=' {
        let v = scan_ws(s, n, e + 1);
        match scan_qstring(s, n, v) {
            Some((end, val)) => {
                let key = s.substring_char(i, k).to_owned();
                Some((end, (key, val)))
            },
            None => None,
        }
    } else {
        None
    }
}

fn scan_pairs(s: &str, n: usize, i: usize) -> (r: Option<(usize, Vec<(String, String)>)>)
    requires
        n == s@.len(),
        i <= n,
    ensures
        match r {
            Some(p) => parse_pairs(s@, i as int) == Some((p.0 as int, pairs_view(p.1@))) && i
                < p.0 <= n,
            None => parse_pairs(s@, i as int) is None,
        },
    decreases n - i,
{
    match scan_pair(s, n, i) {
        None => None,
        Some((j, kv)) => {
            let ghost pv = (kv.0@, kv.1@);
            if j < n && s.get_char(j) == ',' {
                match scan_pairs(s, n, j + 1) {
                    Some((end, mut rest)) => {
                        let ghost restv = pairs_view(rest@);
                        rest.insert(0, kv);
                        proof {
                            assert(pairs_view(rest@) =~= seq![pv] + restv);
                        }
                        Some((end, rest))
                    },
                    None => None,
                }
            } else {
                let mut v: Vec<(String, String)> = Vec::new();
                v.push(kv);
                proof {
                    assert(pairs_view(v@) =~= seq![pv]);
                }
                Some((j, v))
            }
        },
    }
}

fn scan_metric(s: &str, n: usize, i: usize) -> (r: Option<(usize, Metric)>)
    requires
        n == s@.len(),
        i <= n,
    ensures
        match r {
            Some(p) => parse_metric(s@, i as int) == Some((p.0 as int, p.1@)) && i < p.0 <= n
                && p.1@.wf(),
            None => parse_metric(s@, i as int) is None,
        },
{
    proof {
        lemma_parse_metric_bounds(s@, i as int);
    }
    let k = scan_alpha(s, n, i);
    if k == i {
        return None;
    }
    let name = s.substring_char(i, k).to_owned();
    if k < n && s.get_char(k) == '[' {
        match scan_pairs(s, n, k + 1) {
            Some((j, tags)) => {
                if j < n && s.get_char(j) == ']' {
                    Some((j + 1, Metric { name, tags }))
                } else {
                    None
                }
            },
            None => None,
        }
    } else {
        let m = Metric { name, tags: Vec::new() };
        proof {
            assert(pairs_view(m.tags@) =~= Seq::<(Seq<char>, Seq<char>)>::empty());
        }
        Some((k, m))
    }
}

fn kw3(s: &str, n: usize, c0: char, c1: char, c2: char) -> (b: bool)
    requires
        n == s@.len(),
    ensures
        b == match_kw(s@, seq![c0, c1, c2]),
{
    if n >= 3 {
        let b = s.get_char(0) == c0 && s.get_char(1) == c1 && s.get_char(2) == c2;
        proof {
            let sub = s@.subrange(0, 3);
            assert(sub[0] == s@[0] && sub[1] == s@[1] && sub[2] == s@[2]);
            if b {
                assert(sub =~= seq![c0, c1, c2]);
            }
        }
        b
    } else {
        false
    }
}

fn kw4(s: &str, n: usize, c0: char, c1: char, c2: char, c3: char) -> (b: bool)
    requires
        n == s@.len(),
    ensures
        b == match_kw(s@, seq![c0, c1, c2, c3]),
{
    if n >= 4 {
        let b = s.get_char(0) == c0 && s.get_char(1) == c1 && s.get_char(2) == c2 && s.get_char(3)
            == c3;
        proof {
            let sub = s@.subrange(0, 4);
            assert(sub[0] == s@[0] && sub[1] == s@[1] && sub[2] == s@[2] && sub[3] == s@[3]);
            if b {
                assert(sub =~= seq![c0, c1, c2, c3]);
            }
        }
        b
    } else {
        false
    }
}

fn try_set(s: &str, n: usize) -> (r: Option<(usize, Command)>)
    requires
        n == s@.len(),
    ensures
        match r {
            Some(p) => parse_set(s@) == Some((p.0 as int, p.1@)) && p.0 <= n && p.1.wf(),
            None => parse_set(s@) is None,
        },
{
    if !kw3(s, n, 's', 'e', 't') {
        return None;
    }
    let w = scan_ws(s, n, 3);
    if w == 3 {
        return None;
    }
    match scan_metric(s, n, w) {
        None => None,
        Some((j, m)) => {
            let e = scan_ws(s, n, j);
            if e < n && s.get_char(e) == '=' {
                let v = scan_ws(s, n, e + 1);
                match scan_number(s, n, v) {
                    Some(end) => {
                        let value = s.substring_char(v, end).to_owned();
                        Some((end, Command::SetCmd { metric: m, value }))
                    },
                    None => None,
                }
            } else {
                None
            }
        },
    }
}

fn try_del(s: &str, n: usize) -> (r: Option<(usize, Command)>)
    requires
        n == s@.len(),
    ensures
        match r {
            Some(p) => parse_del(s@) == Some((p.0 as int, p.1@)) && p.0 <= n && p.1.wf(),
            None => parse_del(s@) is None,
        },
{
    if !kw3(s, n, 'd', 'e', 'l') {
        return None;
    }
    let w = scan_ws(s, n, 3);
    if w == 3 {
        return None;
    }
    match scan_metric(s, n, w) {
        None => None,
        Some((j, m)) => Some((j, Command::DelCmd { metric: m })),
    }
}

fn try_get(s: &str, n: usize) -> (r: Option<(usize, Command)>)
    requires
        n == s@.len(),
    ensures
        match r {
            Some(p) => parse_get(s@) == Some((p.0 as int, p.1@)) && p.0 <= n && p.1.wf(),
            None => parse_get(s@) is None,
        },
{
    if !kw3(s, n, 'g', 'e', 't') {
        return None;
    }
    let w = scan_ws(s, n, 3);
    if w == 3 {
        return None;
    }
    match scan_metric(s, n, w) {
        None => None,
        Some((j, m)) => Some((j, Command::GetCmd { metric: m })),
    }
}

fn try_exit(s: &str, n: usize) -> (r: Option<(usize, Command)>)
    requires
        n == s@.len(),
    ensures
        match r {
            Some(p) => parse_exit(s@) == Some((p.0 as int, p.1@)) && p.0 <= n && p.1.wf(),
            None => parse_exit(s@) is None,
        },
{
    if kw4(s, n, 'e', 'x', 'i', 't') || kw4(s, n, 'q', 'u', 'i', 't') {
        Some((4, Command::ExitCmd))
    } else {
        None
    }
}

fn try_help(s: &str, n: usize) -> (r: Option<(usize, Command)>)
    requires
        n == s@.len(),
    ensures
        match r {
            Some(p) => parse_help(s@) == Some((p.0 as int, p.1@)) && p.0 <= n && p.1.wf(),
            None => parse_help(s@) is None,
        },
{
    if kw4(s, n, 'h', 'e', 'l', 'p') {
        Some((4, Command::HelpCmd))
    } else {
        None
    }
}

/// Parses one input line. `Ok(None)` is the whitespace-only line; `Ok(Some)`
/// is the one command that the grammar accepts for this line; `Err` says the
/// line matches no alternative whole.
pub fn parse_command(s: &str) -> (r: Result<Option<Command>, ParseError>)
    ensures
        match r {
            Ok(o) => match o {
                None => parse_line(s@) == Some(LineV::Empty),
                Some(c) => parse_line(s@) == Some(c@) && c.wf() && !(c@ is Empty),
            },
            Err(_) => parse_line(s@) is None,
        },
{
    let n = s.unicode_len();
    let first = match try_set(s, n) {
        Some(x) => Some(x),
        None => match try_del(s, n) {
            Some(x) => Some(x),
            None => match try_get(s, n) {
                Some(x) => Some(x),
                None => match try_exit(s, n) {
                    Some(x) => Some(x),
                    None => try_help(s, n),
                },
            },
        },
    };
    match first {
        Some((end, cmd)) => if end == n {
            Ok(Some(cmd))
        } else {
            Err(ParseError)
        },
        None => {
            let w = scan_ws(s, n, 0);
            if w == n {
                Ok(None)
            } else {
                Err(ParseError)
            }
        },
    }
}

} // verus!

//! Reading the display report into a topology.
//!
//! The report is line oriented: a summary line that starts with `Screen `,
//! then for each output a line that names it, followed by indented lines
//! that list its modes, the preferred one first.

use vstd::prelude::*;
use crate::text::{is_ws, is_ws_char, tokens, lines, chars_of, range_is, token_ranges, line_ranges};
use crate::topology::{Monitor, MonitorView, Topology, opt_text};

verus! {

broadcast use vstd::string::group_string_axioms;

/// Why a report could not be read.
#[derive(Debug, Clone, Copy, PartialEq, Eq, Structural)]
pub enum ParseError {
    /// An output line is missing its name, its connection word or its
    /// on/off indicator, or a mode line holds no mode.
    Malformed,
}

pub open spec fn starts_with(s: Seq<char>, p: Seq<char>) -> bool {
    p.len() <= s.len() && s.subrange(0, p.len() as int) == p
}

/// A line that lists a mode of the output above it.
pub open spec fn is_mode_line(l: Seq<char>) -> bool {
    l.len() > 0 && is_ws(l[0])
}

/// The summary line of the whole screen.
pub open spec fn is_screen_line(l: Seq<char>) -> bool {
    starts_with(l, "Screen "@)
}

/// An on/off indicator in parentheses means that the output is off.
pub open spec fn indicator_is_off(tok: Seq<char>) -> bool {
    tok.len() > 0 && tok[0] == '('
}

/// Where the on/off indicator stands among the words of an output line.
pub open spec fn indicator_index(t: Seq<Seq<char>>) -> int {
    if t[2] == "primary"@ {
        3
    } else {
        2
    }
}

/// The output that an output line describes, given the preferred mode
/// that was found for it.
pub open spec fn monitor_of(line: Seq<char>, res: Option<Seq<char>>) -> Result<
    MonitorView,
    ParseError,
> {
    let t = tokens(line);
    if t.len() < 3 || indicator_index(t) >= t.len() {
        Err(ParseError::Malformed)
    } else {
        Ok(
            MonitorView {
                name: t[0],
                connected: t[1] == "connected"@,
                primary: t[2] == "primary"@,
                on: !indicator_is_off(t[indicator_index(t)]),
                highest_res: res,
            },
        )
    }
}

/// One step of the reading, which goes from the last line to the first:
/// `m` holds the outputs read so far and `res` the preferred mode that is
/// waiting for its output line. With `carry` a mode stays waiting after its
/// output line has taken it, so an output line without mode lines of its
/// own takes the mode last seen below it; without `carry` it takes none.
pub open spec fn step(
    line: Seq<char>,
    m: Map<Seq<char>, MonitorView>,
    res: Option<Seq<char>>,
    carry: bool,
) -> Result<(Map<Seq<char>, MonitorView>, Option<Seq<char>>), ParseError> {
    if is_mode_line(line) {
        let t = tokens(line);
        if t.len() == 0 {
            Err(ParseError::Malformed)
        } else {
            Ok((m, Some(t[0])))
        }
    } else if is_screen_line(line) {
        Ok((m, res))
    } else {
        match monitor_of(line, res) {
            Err(e) => Err(e),
            Ok(mv) => Ok(
                (
                    m.insert(mv.name, mv),
                    if carry {
                        res
                    } else {
                        None
                    },
                ),
            ),
        }
    }
}

/// The state after reading the lines `ls[k..]`, last line first.
pub open spec fn parse_from(ls: Seq<Seq<char>>, k: nat, carry: bool) -> Result<
    (Map<Seq<char>, MonitorView>, Option<Seq<char>>),
    ParseError,
>
    decreases ls.len() - k,
{
    if k >= ls.len() {
        Ok((Map::empty(), None))
    } else {
        match parse_from(ls, k + 1, carry) {
            Err(e) => Err(e),
            Ok(st) => step(ls[k as int], st.0, st.1, carry),
        }
    }
}

/// The topology that a report describes.
pub open spec fn parse_spec(text: Seq<char>, carry: bool) -> Result<
    Map<Seq<char>, MonitorView>,
    ParseError,
> {
    match parse_from(lines(text), 0, carry) {
        Err(e) => Err(e),
        Ok(st) => Ok(st.0),
    }
}

/// Once a step fails, reading the lines above it fails too.
pub proof fn lemma_error_spreads(ls: Seq<Seq<char>>, j: nat, i: nat, carry: bool)
    requires
        j <= i,
        parse_from(ls, i, carry) is Err,
    ensures
        parse_from(ls, j, carry) is Err,
    decreases i - j,
{
    if j < i {
        lemma_error_spreads(ls, j + 1, i, carry);
    }
}

/// The output described by the line `v[a..b]` of `text`.
fn monitor_at(text: &str, v: &Vec<char>, a: usize, b: usize, max_res: Option<String>) -> (r: Result<
    Monitor,
    ParseError,
>)
    requires
        v@ == text@,
        a <= b <= v.len(),
    ensures
        r is Ok == monitor_of(v@.subrange(a as int, b as int), opt_text(max_res)) is Ok,
        r is Ok ==> r->Ok_0@ == monitor_of(v@.subrange(a as int, b as int), opt_text(max_res))->Ok_0,
{
    let ghost t = tokens(v@.subrange(a as int, b as int));
    let toks = token_ranges(v, a, b);
    if toks.len() < 3 {
        return Err(ParseError::Malformed);
    }
    let primary = range_is(v, toks[2].0, toks[2].1, "primary");
    let at: usize = if primary {
        3
    } else {
        2
    };
    assert(at == indicator_index(t));
    if at >= toks.len() {
        return Err(ParseError::Malformed);
    }
    let name = text.substring_char(toks[0].0, toks[0].1).to_owned();
    let connected = range_is(v, toks[1].0, toks[1].1, "connected");
    let on = !(v[toks[at].0] == '(');
    assert(t[at as int][0] == v@[toks[at as int].0 as int]);
    Ok(Monitor { name, connected, primary, on, highest_res: max_res })
}

/// Reads one output line; `max_res` is the preferred mode found for it.
pub fn parse_monitor(line: &str, max_res: Option<String>) -> (r: Result<Monitor, ParseError>)
    ensures
        r is Ok == monitor_of(line@, opt_text(max_res)) is Ok,
        r is Ok ==> r->Ok_0@ == monitor_of(line@, opt_text(max_res))->Ok_0,
{
    let v = chars_of(line);
    assert(v@.subrange(0, v.len() as int) =~= line@);
    monitor_at(line, &v, 0, v.len(), max_res)
}

/// Reads a whole report. With `carry_over` an output line without mode
/// lines of its own takes the preferred mode last seen below it, as older
/// configurations expect; without it such an output has no preferred mode.
pub fn parse_report(text: &str, carry_over: bool) -> (r: Result<Topology, ParseError>)
    ensures
        r is Ok == parse_spec(text@, carry_over) is Ok,
        r is Ok ==> r->Ok_0@ == parse_spec(text@, carry_over)->Ok_0,
{
    let v = chars_of(text);
    let ls = line_ranges(&v);
    let ghost lns = lines(v@);
    let screen = "Screen ";
    let screen_len = screen.unicode_len();
    let mut mons = Topology::new();
    let mut res: Option<String> = None;
    let mut i: usize = ls.len();
    while i > 0
        invariant
            i <= ls.len(),
            v@ == text@,
            lns == lines(v@),
            ls.len() == lns.len(),
            screen@ == "Screen "@,
            screen_len == screen@.len(),
            forall|k: int|
                0 <= k < ls.len() ==> #[trigger] ls[k].0 <= ls[k].1 <= v.len() && v@.subrange(
                    ls[k].0 as int,
                    ls[k].1 as int,
                ) == lns[k],
            parse_from(lns, i as nat, carry_over) == Ok::<_, ParseError>((mons@, opt_text(res))),
        decreases i,
    {
        i = i - 1;
        let (a, b) = ls[i];
        let ghost line = lns[i as int];
        assert(v@.subrange(a as int, b as int) == line);
        if a < b && is_ws_char(v[a]) {
            let toks = token_ranges(&v, a, b);
            if toks.len() == 0 {
                proof {
                    lemma_error_spreads(lns, 0, i as nat, carry_over);
                }
                return Err(ParseError::Malformed);
            }
            res = Some(text.substring_char(toks[0].0, toks[0].1).to_owned());
        } else if b - a >= screen_len && range_is(&v, a, a + screen_len, screen) {
            assert(v@.subrange(a as int, a + screen_len) == line.subrange(0, screen_len as int));
        } else {
            assert(!is_screen_line(line)) by {
                if b - a >= screen_len {
                    assert(v@.subrange(a as int, a + screen_len) == line.subrange(
                        0,
                        screen_len as int,
                    ));
                }
            }
            let found = if carry_over {
                res.clone()
            } else {
                res.take()
            };
            match monitor_at(text, &v, a, b, found) {
                Err(e) => {
                    proof {
                        lemma_error_spreads(lns, 0, i as nat, carry_over);
                    }
                    return Err(e);
                },
                Ok(m) => {
                    mons.insert(m);
                },
            }
        }
    }
    Ok(mons)
}

/// Reads a whole report the way older configurations expect: an output
/// line without mode lines of its own takes the preferred mode last seen
/// below it.
pub fn parse_xrandr(text: &str) -> (r: Result<Topology, ParseError>)
    ensures
        r is Ok == parse_spec(text@, true) is Ok,
        r is Ok ==> r->Ok_0@ == parse_spec(text@, true)->Ok_0,
{
    parse_report(text, true)
}

/// When the third word of an output line is `primary`, the output is
/// primary and its on/off indicator is the fourth word.
pub proof fn lemma_primary_offset(line: Seq<char>, res: Option<Seq<char>>)
    requires
        tokens(line).len() >= 4,
        tokens(line)[2] == "primary"@,
    ensures
        monitor_of(line, res) is Ok,
        monitor_of(line, res)->Ok_0.primary,
        monitor_of(line, res)->Ok_0.on == !indicator_is_off(tokens(line)[3]),
{
}

/// An output is off exactly when its on/off indicator starts with `(`.
pub proof fn lemma_off_detection(line: Seq<char>, res: Option<Seq<char>>)
    requires
        monitor_of(line, res) is Ok,
    ensures
        !monitor_of(line, res)->Ok_0.on <==> tokens(line)[indicator_index(tokens(line))][0]
            == '(',
{
    lemma_tokens_nonempty(line);
}

/// No word is empty.
pub proof fn lemma_tokens_nonempty(s: Seq<char>)
    ensures
        forall|i: int| 0 <= i < tokens(s).len() ==> #[trigger] tokens(s)[i].len() > 0,
        s.len() > 0 && !is_ws(s.last()) ==> tokens(s).len() > 0,
    decreases s.len(),
{
    if s.len() > 0 {
        let prev = tokens(s.drop_last());
        lemma_tokens_nonempty(s.drop_last());
        if s.len() >= 2 {
            assert(s.drop_last().last() == s[s.len() - 2]);
        }
        assert forall|i: int| 0 <= i < tokens(s).len() implies #[trigger] tokens(s)[i].len() > 0 by {
            if i < prev.len() - 1 {
                assert(tokens(s)[i] == prev[i]);
            } else if i == prev.len() - 1 && !(s.len() >= 2 && !is_ws(s[s.len() - 2]) && !is_ws(s.last())) {
                assert(tokens(s)[i] == prev[i]);
            }
        }
    }
}

/// A report with an output line of fewer than three words cannot be read.
pub proof fn lemma_short_line_rejected(text: Seq<char>, carry: bool, k: int)
    requires
        0 <= k < lines(text).len(),
        !is_mode_line(lines(text)[k]),
        !is_screen_line(lines(text)[k]),
        tokens(lines(text)[k]).len() < 3,
    ensures
        parse_spec(text, carry) is Err,
{
    lemma_error_spreads(lines(text), 0, k as nat, carry);
}

} // verus!

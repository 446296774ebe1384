//! Splitting text into lines and whitespace-separated words.

use vstd::prelude::*;
use vstd::std_specs::iter::IteratorSpec;

verus! {

broadcast use vstd::string::group_string_axioms;

/// ASCII whitespace: space, tab, line feed, form feed and carriage return.
pub open spec fn is_ws(c: char) -> bool {
    c == ' ' || c == '\t' || c == '\n' || c == '\x0C' || c == '\r'
}

/// Whether `c` is ASCII whitespace.
pub fn is_ws_char(c: char) -> (r: bool)
    ensures
        r == is_ws(c),
{
    c == ' ' || c == '\t' || c == '\n' || c == '\x0C' || c == '\r'
}

/// The maximal runs of non-whitespace characters of `s`, in order.
pub open spec fn tokens(s: Seq<char>) -> Seq<Seq<char>>
    decreases s.len(),
{
    if s.len() == 0 {
        seq![]
    } else {
        let prev = tokens(s.drop_last());
        let c = s.last();
        if is_ws(c) {
            prev
        } else if s.len() >= 2 && !is_ws(s[s.len() - 2]) {
            prev.update(prev.len() - 1, prev.last().push(c))
        } else {
            prev.push(seq![c])
        }
    }
}

/// The pieces of `s` between line feeds; there is always at least one piece.
pub open spec fn segments(s: Seq<char>) -> Seq<Seq<char>>
    decreases s.len(),
{
    if s.len() == 0 {
        seq![seq![]]
    } else {
        let prev = segments(s.drop_last());
        if s.last() == '\n' {
            prev.push(seq![])
        } else {
            prev.update(prev.len() - 1, prev.last().push(s.last()))
        }
    }
}

/// The lines of `s`: its pieces between line feeds, without an empty
/// piece after a final line feed.
pub open spec fn lines(s: Seq<char>) -> Seq<Seq<char>> {
    let g = segments(s);
    if g.last().len() == 0 {
        g.drop_last()
    } else {
        g
    }
}

/// The characters of `s`, in order.
pub fn chars_of(s: &str) -> (r: Vec<char>)
    ensures
        r@ == s@,
{
    let mut out: Vec<char> = Vec::new();
    for c in it: s.chars()
        invariant
            out@ == it.seq().take(it.index() as int),
            it.seq() == s@,
    {
        out.push(c);
    }
    out
}

/// Whether the characters `v[a..b]` spell `w`.
pub fn range_is(v: &Vec<char>, a: usize, b: usize, w: &str) -> (r: bool)
    requires
        a <= b <= v.len(),
    ensures
        r == (v@.subrange(a as int, b as int) == w@),
{
    let n = w.unicode_len();
    if b - a != n {
        return false;
    }
    let mut j: usize = 0;
    while j < n
        invariant
            j <= n,
            n == w@.len(),
            b - a == n,
            a <= b <= v.len(),
            forall|k: int| 0 <= k < j ==> v@[a + k] == w@[k],
        decreases n - j,
    {
        if v[a + j] != w.get_char(j) {
            assert(v@.subrange(a as int, b as int)[j as int] != w@[j as int]);
            return false;
        }
        j = j + 1;
    }
    assert(v@.subrange(a as int, b as int) =~= w@);
    true
}

/// The positions of the words of `v[a..b]`: each pair is the start and the
/// end of one word.
pub fn token_ranges(v: &Vec<char>, a: usize, b: usize) -> (r: Vec<(usize, usize)>)
    requires
        a <= b <= v.len(),
    ensures
        r.len() == tokens(v@.subrange(a as int, b as int)).len(),
        forall|k: int|
            0 <= k < r.len() ==> a <= #[trigger] r[k].0 < r[k].1 <= b && v@.subrange(
                r[k].0 as int,
                r[k].1 as int,
            ) == tokens(v@.subrange(a as int, b as int))[k],
{
    let mut toks: Vec<(usize, usize)> = Vec::new();
    let mut i: usize = a;
    while i < b
        invariant
            a <= i <= b <= v.len(),
            toks.len() == tokens(v@.subrange(a as int, i as int)).len(),
            forall|k: int|
                0 <= k < toks.len() ==> a <= #[trigger] toks[k].0 < toks[k].1 <= i
                    && v@.subrange(toks[k].0 as int, toks[k].1 as int) == tokens(
                    v@.subrange(a as int, i as int),
                )[k],
            i > a && !is_ws(v@[i - 1]) ==> toks.len() > 0 && toks[toks.len() - 1].1 == i,
        decreases b - i,
    {
        let ghost before = v@.subrange(a as int, i as int);
        let ghost after = v@.subrange(a as int, i + 1);
        assert(after.drop_last() =~= before);
        assert(after.last() == v@[i as int]);
        let c = v[i];
        if is_ws_char(c) {
        } else if i > a && !is_ws_char(v[i - 1]) {
            assert(after[after.len() - 2] == v@[i - 1]);
            let last = toks.len() - 1;
            let start = toks[last].0;
            assert(v@.subrange(start as int, i + 1) =~= v@.subrange(start as int, i as int).push(
                c,
            ));
            toks.set(last, (start, i + 1));
        } else {
            assert(i > a ==> after[after.len() - 2] == v@[i - 1]);
            assert(v@.subrange(i as int, i + 1) =~= seq![c]);
            toks.push((i, i + 1));
        }
        i = i + 1;
    }
    toks
}

/// The positions of the lines of `v`: each pair is the start and the end
/// of one line, line feeds left out.
pub fn line_ranges(v: &Vec<char>) -> (r: Vec<(usize, usize)>)
    ensures
        r.len() == lines(v@).len(),
        forall|k: int|
            0 <= k < r.len() ==> #[trigger] r[k].0 <= r[k].1 <= v.len() && v@.subrange(
                r[k].0 as int,
                r[k].1 as int,
            ) == lines(v@)[k],
{
    let mut segs: Vec<(usize, usize)> = Vec::new();
    segs.push((0, 0));
    let mut i: usize = 0;
    assert(v@.subrange(0, 0) =~= Seq::<char>::empty());
    while i < v.len()
        invariant
            i <= v.len(),
            segs.len() >= 1,
            segs.len() == segments(v@.subrange(0, i as int)).len(),
            segs[segs.len() - 1].1 == i,
            forall|k: int|
                0 <= k < segs.len() ==> #[trigger] segs[k].0 <= segs[k].1 <= i && v@.subrange(
                    segs[k].0 as int,
                    segs[k].1 as int,
                ) == segments(v@.subrange(0, i as int))[k],
        decreases v.len() - i,
    {
        let ghost before = v@.subrange(0, i as int);
        let ghost after = v@.subrange(0, i + 1);
        assert(after.drop_last() =~= before);
        assert(after.last() == v@[i as int]);
        if v[i] == '\n' {
            assert(v@.subrange(i + 1, i + 1) =~= Seq::<char>::empty());
            segs.push((i + 1, i + 1));
        } else {
            let last = segs.len() - 1;
            let start = segs[last].0;
            assert(v@.subrange(start as int, i + 1) =~= v@.subrange(start as int, i as int).push(
                v@[i as int],
            ));
            segs.set(last, (start, i + 1));
        }
        i = i + 1;
    }
    assert(v@.subrange(0, v.len() as int) =~= v@);
    let last = segs.len() - 1;
    if segs[last].0 == segs[last].1 {
        segs.pop();
    }
    segs
}

/// The whitespace-separated words of `s`, in order.
pub fn split_words(s: &str) -> (r: Vec<String>)
    ensures
        r.len() == tokens(s@).len(),
        forall|k: int| 0 <= k < r.len() ==> #[trigger] r[k]@ == tokens(s@)[k],
{
    let v = chars_of(s);
    assert(v@.subrange(0, v.len() as int) =~= s@);
    let ranges = token_ranges(&v, 0, v.len());
    let mut out: Vec<String> = Vec::new();
    let mut k: usize = 0;
    while k < ranges.len()
        invariant
            k <= ranges.len(),
            v@ == s@,
            ranges.len() == tokens(s@).len(),
            forall|j: int|
                0 <= j < ranges.len() ==> #[trigger] ranges[j].0 < ranges[j].1 <= v.len()
                    && v@.subrange(ranges[j].0 as int, ranges[j].1 as int) == tokens(s@)[j],
            out.len() == k,
            forall|j: int| 0 <= j < k ==> #[trigger] out[j]@ == tokens(s@)[j],
        decreases ranges.len() - k,
    {
        let (from, to) = ranges[k];
        out.push(s.substring_char(from, to).to_owned());
        k = k + 1;
    }
    out
}

} // verus!

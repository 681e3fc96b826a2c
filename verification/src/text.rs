//! Character-level helpers shared by the other modules: whitespace,
//! trimming, prefixes, splitting into lines and decimal numbers.
use vstd::prelude::*;

verus! {

/// Calls `String::push`; claimed: afterwards the string holds its old
/// characters followed by `c`.
#[verifier::external_body]
pub(crate) fn push_char(s: &mut String, c: char)
    ensures
        final(s)@ == old(s)@.push(c),
{
    s.push(c);
}

/// A string holding `s`.
pub fn owned(s: &str) -> (r: String)
    ensures
        r@ == s@,
{
    String::from_str(s)
}

/// The characters of `s`, in order.
pub fn chars_of(s: &str) -> (r: Vec<char>)
    ensures
        r@ == s@,
{
    let mut r: Vec<char> = Vec::new();
    for c in it: s.chars()
        invariant
            r@ == it.seq().take(it.index() as int),
            it.seq() == s@,
    {
        r.push(c);
    }
    r
}

/// The string made of `v[lo..hi]`.
pub fn string_of(v: &Vec<char>, lo: usize, hi: usize) -> (r: String)
    requires
        lo <= hi <= v.len(),
    ensures
        r@ == v@.subrange(lo as int, hi as int),
{
    let mut r = String::new();
    let mut i = lo;
    while i < hi
        invariant
            lo <= i <= hi <= v.len(),
            r@ == v@.subrange(lo as int, i as int),
        decreases hi - i,
    {
        push_char(&mut r, v[i]);
        assert(v@.subrange(lo as int, i + 1) =~= v@.subrange(lo as int, i as int).push(v@[i as int]));
        i = i + 1;
    }
    r
}

/// Appends `v[lo..hi]` to `s`.
pub fn push_range(s: &mut String, v: &Vec<char>, lo: usize, hi: usize)
    requires
        lo <= hi <= v.len(),
    ensures
        final(s)@ == old(s)@ + v@.subrange(lo as int, hi as int),
{
    let piece = string_of(v, lo, hi);
    s.append(piece.as_str());
}

/// Unicode `White_Space`, the property that `char::is_whitespace` and
/// `str::trim` go by.
pub open spec fn is_white_space(c: char) -> bool {
    let n = c as u32;
    ||| 0x09 <= n <= 0x0D
    ||| n == 0x20
    ||| n == 0x85
    ||| n == 0xA0
    ||| n == 0x1680
    ||| 0x2000 <= n <= 0x200A
    ||| n == 0x2028
    ||| n == 0x2029
    ||| n == 0x202F
    ||| n == 0x205F
    ||| n == 0x3000
}

/// Whether `c` is Unicode whitespace.
pub fn white_space(c: char) -> (r: bool)
    ensures
        r == is_white_space(c),
{
    let n = c as u32;
    (0x09 <= n && n <= 0x0D) || n == 0x20 || n == 0x85 || n == 0xA0 || n == 0x1680 || (0x2000
        <= n && n <= 0x200A) || n == 0x2028 || n == 0x2029 || n == 0x202F || n == 0x205F || n
        == 0x3000
}

/// Every character of `s` is whitespace (so `s.trim()` is empty).
pub open spec fn is_blank(s: Seq<char>) -> bool {
    forall|i: int| 0 <= i < s.len() ==> is_white_space(#[trigger] s[i])
}

/// Number of leading whitespace characters.
pub open spec fn leading_ws(s: Seq<char>) -> nat
    decreases s.len(),
{
    if s.len() > 0 && is_white_space(s[0]) {
        1 + leading_ws(s.drop_first())
    } else {
        0
    }
}

/// Number of trailing whitespace characters.
pub open spec fn trailing_ws(s: Seq<char>) -> nat
    decreases s.len(),
{
    if s.len() > 0 && is_white_space(s.last()) {
        1 + trailing_ws(s.drop_last())
    } else {
        0
    }
}

/// `str::trim_start`.
pub open spec fn trim_start(s: Seq<char>) -> Seq<char> {
    s.skip(leading_ws(s) as int)
}

/// `str::trim_end`.
pub open spec fn trim_end(s: Seq<char>) -> Seq<char> {
    s.take(s.len() - trailing_ws(s))
}

/// `str::trim`.
pub open spec fn trim(s: Seq<char>) -> Seq<char> {
    trim_end(trim_start(s))
}

pub(crate) proof fn lemma_leading_ws(s: Seq<char>)
    ensures
        leading_ws(s) <= s.len(),
        forall|j: int| 0 <= j < leading_ws(s) ==> is_white_space(#[trigger] s[j]),
        leading_ws(s) < s.len() ==> !is_white_space(s[leading_ws(s) as int]),
    decreases s.len(),
{
    if s.len() > 0 && is_white_space(s[0]) {
        lemma_leading_ws(s.drop_first());
        assert forall|j: int| 0 <= j < leading_ws(s) implies is_white_space(#[trigger] s[j]) by {
            if j > 0 {
                assert(s[j] == s.drop_first()[j - 1]);
            }
        }
    }
}

/// A sequence of whitespace followed by a non-whitespace character (or the
/// end) has exactly that many leading whitespace characters.
proof fn lemma_leading_ws_exact(s: Seq<char>, k: int)
    requires
        0 <= k <= s.len(),
        forall|j: int| 0 <= j < k ==> is_white_space(#[trigger] s[j]),
        k < s.len() ==> !is_white_space(s[k]),
    ensures
        leading_ws(s) == k,
    decreases k,
{
    if k > 0 {
        let t = s.drop_first();
        assert forall|j: int| 0 <= j < k - 1 implies is_white_space(#[trigger] t[j]) by {
            assert(t[j] == s[j + 1]);
        }
        if k - 1 < t.len() {
            assert(t[k - 1] == s[k]);
        }
        lemma_leading_ws_exact(t, k - 1);
    }
}

/// The mirror image of `lemma_leading_ws_exact`.
proof fn lemma_trailing_ws_exact(s: Seq<char>, k: int)
    requires
        0 <= k <= s.len(),
        forall|j: int| s.len() - k <= j < s.len() ==> is_white_space(#[trigger] s[j]),
        k < s.len() ==> !is_white_space(s[s.len() - k - 1]),
    ensures
        trailing_ws(s) == k,
    decreases k,
{
    if k > 0 {
        let t = s.drop_last();
        assert forall|j: int| t.len() - (k - 1) <= j < t.len() implies is_white_space(
            #[trigger] t[j],
        ) by {
            assert(t[j] == s[j]);
        }
        if k - 1 < t.len() {
            assert(t[t.len() - (k - 1) - 1] == s[s.len() - k - 1]);
        }
        lemma_trailing_ws_exact(t, k - 1);
    }
}

/// Index of the first character of `v[lo..hi]` that is not whitespace, or
/// `hi`.
pub fn skip_white_space(v: &Vec<char>, lo: usize, hi: usize) -> (r: usize)
    requires
        lo <= hi <= v.len(),
    ensures
        lo <= r <= hi,
        r - lo == leading_ws(v@.subrange(lo as int, hi as int)),
{
    let mut i = lo;
    while i < hi && white_space(v[i])
        invariant
            lo <= i <= hi <= v.len(),
            forall|j: int| lo <= j < i ==> is_white_space(#[trigger] v@[j]),
        decreases hi - i,
    {
        i = i + 1;
    }
    let ghost s = v@.subrange(lo as int, hi as int);
    proof {
        assert forall|j: int| 0 <= j < i - lo implies is_white_space(#[trigger] s[j]) by {
            assert(s[j] == v@[lo + j]);
        }
        if i < hi {
            assert(s[i - lo] == v@[i as int]);
        }
        lemma_leading_ws_exact(s, i - lo);
    }
    i
}

/// Index just past the last character of `v[lo..hi]` that is not
/// whitespace, or `lo`.
pub fn skip_white_space_back(v: &Vec<char>, lo: usize, hi: usize) -> (r: usize)
    requires
        lo <= hi <= v.len(),
    ensures
        lo <= r <= hi,
        hi - r == trailing_ws(v@.subrange(lo as int, hi as int)),
{
    let mut i = hi;
    while i > lo && white_space(v[i - 1])
        invariant
            lo <= i <= hi <= v.len(),
            forall|j: int| i <= j < hi ==> is_white_space(#[trigger] v@[j]),
        decreases i - lo,
    {
        i = i - 1;
    }
    let ghost s = v@.subrange(lo as int, hi as int);
    proof {
        assert forall|j: int| s.len() - (hi - i) <= j < s.len() implies is_white_space(
            #[trigger] s[j],
        ) by {
            assert(s[j] == v@[lo + j]);
        }
        if i > lo {
            assert(s[s.len() - (hi - i) - 1] == v@[i - 1]);
        }
        lemma_trailing_ws_exact(s, (hi - i) as int);
    }
    i
}

/// Whether every character of `v[lo..hi]` is whitespace.
pub fn blank(v: &Vec<char>, lo: usize, hi: usize) -> (r: bool)
    requires
        lo <= hi <= v.len(),
    ensures
        r == is_blank(v@.subrange(lo as int, hi as int)),
{
    let k = skip_white_space(v, lo, hi);
    let ghost s = v@.subrange(lo as int, hi as int);
    proof {
        lemma_leading_ws(s);
        if k < hi {
            assert(!is_white_space(s[k - lo]));
        }
    }
    k == hi
}

/// `str::trim`: `s` without leading and trailing whitespace.
pub fn trimmed(s: &str) -> (r: String)
    ensures
        r@ == trim(s@),
{
    let v = chars_of(s);
    let lo = skip_white_space(&v, 0, v.len());
    let hi = skip_white_space_back(&v, lo, v.len());
    proof {
        assert(v@.subrange(0, v@.len() as int) =~= v@);
        assert(v@.subrange(lo as int, v@.len() as int) =~= trim_start(s@));
        assert(v@.subrange(lo as int, hi as int) =~= trim(s@));
    }
    string_of(&v, lo, hi)
}

/// `p` is a prefix of `s`.
pub open spec fn has_prefix(s: Seq<char>, p: Seq<char>) -> bool {
    p.len() <= s.len() && s.take(p.len() as int) == p
}

/// Whether `v[lo..hi]` starts with `p`.
pub fn range_has_prefix(v: &Vec<char>, lo: usize, hi: usize, p: &str) -> (r: bool)
    requires
        lo <= hi <= v.len(),
    ensures
        r == has_prefix(v@.subrange(lo as int, hi as int), p@),
{
    let w = chars_of(p);
    if w.len() > hi - lo {
        return false;
    }
    let mut i: usize = 0;
    while i < w.len()
        invariant
            lo <= hi <= v.len(),
            w@ == p@,
            w.len() <= hi - lo,
            i <= w.len(),
            forall|j: int| 0 <= j < i ==> v@[lo + j] == w@[j],
        decreases w.len() - i,
    {
        if v[lo + i] != w[i] {
            proof {
                assert(v@.subrange(lo as int, hi as int).take(w.len() as int)[i as int] == v@[lo
                    + i]);
            }
            return false;
        }
        i = i + 1;
    }
    assert(v@.subrange(lo as int, hi as int).take(w.len() as int) =~= w@);
    true
}

/// Whether `v[lo..hi]` equals `p`.
pub fn range_equals(v: &Vec<char>, lo: usize, hi: usize, p: &str) -> (r: bool)
    requires
        lo <= hi <= v.len(),
    ensures
        r == (v@.subrange(lo as int, hi as int) == p@),
{
    let pre = range_has_prefix(v, lo, hi, p);
    let n = p.unicode_len();
    proof {
        let s = v@.subrange(lo as int, hi as int);
        if s == p@ {
            assert(s.take(p@.len() as int) =~= s);
        }
        if pre && n == hi - lo {
            assert(v@.subrange(lo as int, hi as int).take(n as int) =~= v@.subrange(
                lo as int,
                hi as int,
            ));
        }
    }
    pre && n == hi - lo
}

/// Whether the string `s` equals `p`.
pub fn str_equals(s: &str, p: &str) -> (r: bool)
    ensures
        r == (s@ == p@),
{
    let v = chars_of(s);
    assert(v@.subrange(0, v.len() as int) =~= v@);
    range_equals(&v, 0, v.len(), p)
}

/// Index of the first `c` in `s`, or `s.len()` when there is none.
pub open spec fn find_char(s: Seq<char>, c: char) -> int
    decreases s.len(),
{
    if s.len() == 0 {
        0
    } else if s[0] == c {
        0
    } else {
        1 + find_char(s.drop_first(), c)
    }
}

/// `find_char` is the position of the first occurrence.
pub proof fn lemma_find_char_exact(s: Seq<char>, c: char, k: int)
    requires
        0 <= k <= s.len(),
        forall|j: int| 0 <= j < k ==> s[j] != c,
        k < s.len() ==> s[k] == c,
    ensures
        find_char(s, c) == k,
    decreases k,
{
    if k > 0 {
        let t = s.drop_first();
        assert forall|j: int| 0 <= j < k - 1 implies t[j] != c by {
            assert(t[j] == s[j + 1]);
        }
        if k - 1 < t.len() {
            assert(t[k - 1] == s[k]);
        }
        lemma_find_char_exact(t, c, k - 1);
    }
}

/// Index of the first `c` in `v[lo..hi]`, or `hi`.
pub fn find_in_range(v: &Vec<char>, lo: usize, hi: usize, c: char) -> (r: usize)
    requires
        lo <= hi <= v.len(),
    ensures
        lo <= r <= hi,
        r - lo == find_char(v@.subrange(lo as int, hi as int), c),
{
    let mut i = lo;
    while i < hi && v[i] != c
        invariant
            lo <= i <= hi <= v.len(),
            forall|j: int| lo <= j < i ==> v@[j] != c,
        decreases hi - i,
    {
        i = i + 1;
    }
    let ghost s = v@.subrange(lo as int, hi as int);
    proof {
        assert forall|j: int| 0 <= j < i - lo implies s[j] != c by {
            assert(s[j] == v@[lo + j]);
        }
        lemma_find_char_exact(s, c, i - lo);
    }
    i
}

/// A line without the `'\r'` of a `"\r\n"` ending.
pub open spec fn strip_cr(line: Seq<char>) -> Seq<char> {
    if line.len() > 0 && line.last() == '\r' {
        line.drop_last()
    } else {
        line
    }
}

/// `str::lines`: split at `'\n'`; a `'\r'` just before a `'\n'` is dropped,
/// and a final line ending adds no empty line.
pub open spec fn lines(s: Seq<char>) -> Seq<Seq<char>>
    decreases s.len(),
{
    if s.len() == 0 {
        seq![]
    } else {
        let i = find_char(s, '\n');
        if 0 <= i < s.len() {
            seq![strip_cr(s.take(i))] + lines(s.skip(i + 1))
        } else {
            seq![s]
        }
    }
}

/// A line that keeps its text through `lines`: no line feed, and no
/// carriage return at its end.
pub open spec fn single_line(s: Seq<char>) -> bool {
    &&& forall|i: int| 0 <= i < s.len() ==> s[i] != '\n'
    &&& !(s.len() > 0 && s.last() == '\r')
}

/// Lines written one after another, each followed by a line feed.
pub open spec fn unlines(ls: Seq<Seq<char>>) -> Seq<char>
    decreases ls.len(),
{
    if ls.len() == 0 {
        seq![]
    } else {
        unlines(ls.drop_last()) + ls.last() + seq!['\n']
    }
}

/// `find_char` finds the first occurrence, or gives the length.
pub proof fn lemma_find_char(s: Seq<char>, c: char)
    ensures
        0 <= find_char(s, c) <= s.len(),
        forall|j: int| 0 <= j < find_char(s, c) ==> s[j] != c,
        find_char(s, c) < s.len() ==> s[find_char(s, c)] == c,
    decreases s.len(),
{
    if s.len() > 0 && s[0] != c {
        let t = s.drop_first();
        lemma_find_char(t, c);
        assert forall|j: int| 0 <= j < find_char(s, c) implies s[j] != c by {
            if j > 0 {
                assert(s[j] == t[j - 1]);
            }
        }
    }
}

/// A line and its line feed come out of `lines` first.
pub proof fn lemma_first_line(line: Seq<char>, rest: Seq<char>)
    requires
        forall|i: int| 0 <= i < line.len() ==> line[i] != '\n',
    ensures
        lines(line + seq!['\n'] + rest) == seq![strip_cr(line)] + lines(rest),
{
    let s = line + seq!['\n'] + rest;
    lemma_find_char_exact(s, '\n', line.len() as int);
    assert(s.take(line.len() as int) =~= line);
    assert(s.skip(line.len() as int + 1) =~= rest);
}

/// Text that ends a line splits apart from what follows it.
pub(crate) proof fn lemma_lines_append(a: Seq<char>, b: Seq<char>)
    requires
        a.len() == 0 || a.last() == '\n',
    ensures
        lines(a + b) == lines(a) + lines(b),
    decreases a.len(),
{
    if a.len() == 0 {
        assert(a + b =~= b);
        assert(lines(a) =~= Seq::<Seq<char>>::empty());
        assert(lines(a) + lines(b) =~= lines(b));
    } else {
        lemma_find_char(a, '\n');
        let i = find_char(a, '\n');
        assert(i < a.len()) by {
            if i == a.len() {
                assert(a[a.len() - 1] != '\n');
            }
        }
        let s = a + b;
        assert forall|j: int| 0 <= j < i implies s[j] != '\n' by {
            assert(s[j] == a[j]);
        }
        lemma_find_char_exact(s, '\n', i);
        assert(s.take(i) =~= a.take(i));
        let rest = a.skip(i + 1);
        assert(s.skip(i + 1) =~= rest + b);
        if rest.len() > 0 {
            assert(rest.last() == a.last());
        }
        lemma_lines_append(rest, b);
        assert(lines(a) == seq![strip_cr(a.take(i))] + lines(rest));
        assert(lines(s) == seq![strip_cr(a.take(i))] + lines(rest + b));
        assert(lines(s) =~= lines(a) + lines(b));
    }
}

/// A single line and its line feed split into that one line.
pub(crate) proof fn lemma_line_alone(x: Seq<char>)
    requires
        single_line(x),
    ensures
        lines(x + seq!['\n']) == seq![x],
{
    lemma_first_line(x, seq![]);
    assert(x + seq!['\n'] + Seq::<char>::empty() =~= x + seq!['\n']);
    assert(lines(Seq::<char>::empty()) =~= Seq::<Seq<char>>::empty());
    assert(seq![strip_cr(x)] + Seq::<Seq<char>>::empty() =~= seq![x]);
}

/// Joined lines are empty or end with a line feed.
proof fn lemma_unlines_ends(ls: Seq<Seq<char>>)
    ensures
        unlines(ls).len() == 0 || unlines(ls).last() == '\n',
{
    if ls.len() > 0 {
        let t = unlines(ls.drop_last()) + ls.last() + seq!['\n'];
        assert(t.last() == '\n');
    }
}

/// Splitting joined single lines gives them back.
#[verifier::spinoff_prover]
pub proof fn lemma_lines_of_unlines(ls: Seq<Seq<char>>)
    requires
        forall|i: int| 0 <= i < ls.len() ==> single_line(#[trigger] ls[i]),
    ensures
        lines(unlines(ls)) == ls,
    decreases ls.len(),
{
    if ls.len() > 0 {
        let init = ls.drop_last();
        let x = ls.last();
        assert forall|i: int| 0 <= i < init.len() implies single_line(#[trigger] init[i]) by {
            assert(init[i] == ls[i]);
        }
        lemma_lines_of_unlines(init);
        let a = unlines(init);
        let b = x + seq!['\n'];
        lemma_unlines_ends(init);
        assert(single_line(ls[ls.len() - 1]));
        lemma_line_alone(x);
        lemma_lines_append(a, b);
        assert(unlines(ls) == a + x + seq!['\n']);
        assert(a + x + seq!['\n'] =~= a + b);
        assert(lines(a) + lines(b) =~= init.push(x));
        assert(init.push(x) =~= ls);
    }
}

/// Without carriage returns, each line of `s` is a single line.
pub proof fn lemma_lines_are_single(s: Seq<char>)
    requires
        forall|i: int| 0 <= i < s.len() ==> s[i] != '\r',
    ensures
        forall|k: int| 0 <= k < lines(s).len() ==> single_line(#[trigger] lines(s)[k]),
    decreases s.len(),
{
    if s.len() > 0 {
        lemma_find_char(s, '\n');
        let i = find_char(s, '\n');
        if i < s.len() {
            let rest = s.skip(i + 1);
            assert forall|j: int| 0 <= j < rest.len() implies rest[j] != '\r' by {
                assert(rest[j] == s[i + 1 + j]);
            }
            lemma_lines_are_single(rest);
            let t = s.take(i);
            if t.len() > 0 {
                assert(t.last() == s[i - 1]);
            }
            assert(strip_cr(t) == t);
            assert(single_line(t));
            assert(lines(s) == seq![t] + lines(rest));
            assert forall|k: int| 0 <= k < lines(s).len() implies single_line(
                #[trigger] lines(s)[k],
            ) by {
                if k > 0 {
                    assert(lines(s)[k] == lines(rest)[k - 1]);
                }
            }
        } else {
            assert(lines(s) == seq![s]);
            assert(single_line(s));
        }
    }
}

/// The text of a span `(lo, hi)` of `v`.
pub open spec fn span_text(v: Seq<char>, p: (usize, usize)) -> Seq<char> {
    v.subrange(p.0 as int, p.1 as int)
}

/// The lines of `v@`, as spans `(start, end)` into `v`.
pub fn line_spans(v: &Vec<char>) -> (r: Vec<(usize, usize)>)
    ensures
        r@.len() == lines(v@).len(),
        forall|k: int|
            0 <= k < r@.len() ==> r@[k].0 <= r@[k].1 <= v.len() && span_text(v@, #[trigger] r@[k])
                == lines(v@)[k],
{
    let n = v.len();
    let mut r: Vec<(usize, usize)> = Vec::new();
    let mut start: usize = 0;
    let ghost done: Seq<Seq<char>> = seq![];
    assert(v@.skip(0) =~= v@);
    while start < n
        invariant
            n == v.len(),
            start <= n,
            done.len() == r@.len(),
            done + lines(v@.skip(start as int)) == lines(v@),
            forall|k: int|
                0 <= k < r@.len() ==> r@[k].0 <= r@[k].1 <= n && span_text(v@, #[trigger] r@[k])
                    == done[k],
        decreases n - start,
    {
        let end = find_in_range(v, start, n, '\n');
        let ghost rest = v@.skip(start as int);
        assert(v@.subrange(start as int, n as int) =~= rest);
        if end < n {
            let line_end = if end > start && v[end - 1] == '\r' {
                end - 1
            } else {
                end
            };
            proof {
                assert(rest.take(end - start) =~= v@.subrange(start as int, end as int));
                assert(strip_cr(rest.take(end - start)) =~= v@.subrange(
                    start as int,
                    line_end as int,
                ));
                assert(rest.skip(end - start + 1) =~= v@.skip(end + 1));
                assert(lines(rest) == seq![strip_cr(rest.take(end - start))] + lines(
                    rest.skip(end - start + 1),
                ));
                done = done.push(v@.subrange(start as int, line_end as int));
                assert(done + lines(v@.skip(end + 1)) =~= (done.drop_last() + lines(rest)));
            }
            r.push((start, line_end));
            start = end + 1;
        } else {
            proof {
                assert(lines(rest) == seq![rest]);
                done = done.push(rest);
                assert(v@.skip(n as int) =~= Seq::<char>::empty());
                assert(done + lines(v@.skip(n as int)) =~= done);
            }
            r.push((start, n));
            start = n;
        }
    }
    assert(v@.skip(n as int) =~= Seq::<char>::empty());
    assert(done =~= lines(v@));
    r
}

/// The decimal digit for `d < 10`.
pub open spec fn digit(d: nat) -> char {
    ((48 + d) as u32) as char
}

/// Decimal notation of `n`, as `{}` prints an unsigned integer.
pub open spec fn decimal(n: nat) -> Seq<char>
    decreases n,
{
    if n < 10 {
        seq![digit(n)]
    } else {
        decimal(n / 10).push(digit(n % 10))
    }
}

/// The character for a digit below 16, in lower case.
pub open spec fn hex_digit(d: nat) -> char {
    if d < 10 {
        digit(d)
    } else {
        ((87 + d) as u32) as char
    }
}

/// Lower-case hexadecimal notation of `n`, without leading zeros.
pub open spec fn hex(n: nat) -> Seq<char>
    decreases n,
{
    if n < 16 {
        seq![hex_digit(n)]
    } else {
        hex(n / 16).push(hex_digit(n % 16))
    }
}

fn digit_char(d: u32) -> (c: char)
    requires
        d < 16,
    ensures
        c == hex_digit(d as nat),
{
    let code: u32 = if d < 10 {
        48 + d
    } else {
        87 + d
    };
    let c = char_from_code(code);
    c
}

/// The character whose code is `code` (an ASCII code here).
fn char_from_code(code: u32) -> (c: char)
    requires
        code < 128,
    ensures
        c == (code as char),
{
    let b: u8 = code as u8;
    b as char
}

/// Appends the decimal notation of `n` to `s`.
pub fn push_decimal(s: &mut String, n: u64)
    ensures
        final(s)@ == old(s)@ + decimal(n as nat),
    decreases n,
{
    if n >= 10 {
        push_decimal(s, n / 10);
    }
    let d = (n % 10) as u32;
    push_char(s, digit_char(d));
    proof {
        if n < 10 {
            assert(decimal(n as nat) == seq![digit(n as nat)]);
        }
    }
    assert(s@ =~= old(s)@ + decimal(n as nat));
}

/// Appends the lower-case hexadecimal notation of `n` to `s`.
pub fn push_hex(s: &mut String, n: u32)
    ensures
        final(s)@ == old(s)@ + hex(n as nat),
    decreases n,
{
    if n >= 16 {
        push_hex(s, n / 16);
    }
    push_char(s, digit_char(n % 16));
    assert(s@ =~= old(s)@ + hex(n as nat));
}

/// `PathBuf::join` with a relative component, on Unix: a `/` goes between
/// unless `base` is empty or already ends with one.
pub open spec fn path_join(base: Seq<char>, part: Seq<char>) -> Seq<char> {
    if base.len() > 0 && base.last() != '/' {
        base + seq!['/'] + part
    } else {
        base + part
    }
}

/// `Path::join` with a relative component, for paths held as text.
pub fn join_path(base: &str, part: &str) -> (r: String)
    ensures
        r@ == path_join(base@, part@),
{
    let v = chars_of(base);
    let mut s = owned(base);
    if v.len() > 0 && v[v.len() - 1] != '/' {
        push_char(&mut s, '/');
    }
    s.append(part);
    s
}

/// The pieces joined with `sep` between them.
pub open spec fn joined(words: Seq<Seq<char>>, sep: char) -> Seq<char>
    decreases words.len(),
{
    if words.len() == 0 {
        seq![]
    } else if words.len() == 1 {
        words[0]
    } else {
        joined(words.drop_last(), sep) + seq![sep] + words.last()
    }
}

/// The strings of `v` joined with `sep` between them.
pub fn join_with(v: &Vec<String>, sep: char) -> (r: String)
    ensures
        r@ == joined(v@.map_values(|s: String| s@), sep),
{
    let ghost words = v@.map_values(|s: String| s@);
    let mut s = String::new();
    assert(words.take(0) =~= Seq::<Seq<char>>::empty());
    for i in 0..v.len()
        invariant
            words == v@.map_values(|s: String| s@),
            s@ == joined(words.take(i as int), sep),
    {
        if i > 0 {
            push_char(&mut s, sep);
        }
        s.append(v[i].as_str());
        proof {
            assert(words.take(i + 1).drop_last() =~= words.take(i as int));
            assert(words.take(i + 1).last() == v@[i as int]@);
            if i == 0 {
                assert(words.take(1) =~= seq![v@[0]@]);
            }
        }
    }
    assert(words.take(v.len() as int) =~= words);
    s
}

} // verus!

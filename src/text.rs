use vstd::prelude::*;
use vstd::std_specs::iter::IteratorSpec;

verus! {

broadcast use vstd::string::group_string_axioms;

/// Unicode `White_Space`, the set that `str::trim` strips.
pub open spec fn is_ws(c: char) -> bool {
    ||| '\u{9}' <= c <= '\u{d}'
    ||| c == ' '
    ||| c == '\u{85}'
    ||| c == '\u{a0}'
    ||| c == '\u{1680}'
    ||| '\u{2000}' <= c <= '\u{200a}'
    ||| c == '\u{2028}'
    ||| c == '\u{2029}'
    ||| c == '\u{202f}'
    ||| c == '\u{205f}'
    ||| c == '\u{3000}'
}

pub fn is_ws_exec(c: char) -> (b: bool)
    ensures
        b == is_ws(c),
{
    ('\u{9}' <= c && c <= '\u{d}') || c == ' ' || c == '\u{85}' || c == '\u{a0}' || c == '\u{1680}'
        || ('\u{2000}' <= c && c <= '\u{200a}') || c == '\u{2028}' || c == '\u{2029}' || c
        == '\u{202f}' || c == '\u{205f}' || c == '\u{3000}'
}

/// `s` without its leading white space.
pub open spec fn trim_start(s: Seq<char>) -> Seq<char>
    decreases s.len(),
{
    if s.len() > 0 && is_ws(s[0]) {
        trim_start(s.drop_first())
    } else {
        s
    }
}

/// `s` without its trailing white space.
pub open spec fn trim_end(s: Seq<char>) -> Seq<char>
    decreases s.len(),
{
    if s.len() > 0 && is_ws(s.last()) {
        trim_end(s.drop_last())
    } else {
        s
    }
}

/// `s` without leading and trailing white space.
pub open spec fn trim(s: Seq<char>) -> Seq<char> {
    trim_end(trim_start(s))
}

/// `s` begins with `p`.
pub open spec fn starts_with(s: Seq<char>, p: Seq<char>) -> bool {
    p.len() <= s.len() && s.subrange(0, p.len() as int) == p
}

/// `s` ends with `p`.
pub open spec fn ends_with(s: Seq<char>, p: Seq<char>) -> bool {
    p.len() <= s.len() && s.subrange(s.len() - p.len(), s.len() as int) == p
}

/// First position at or after `i` where `p` occurs in `s`.
pub open spec fn find_from(s: Seq<char>, p: Seq<char>, i: int) -> Option<int>
    decreases s.len() + 1 - i,
{
    if i < 0 || i + p.len() > s.len() {
        None
    } else if s.subrange(i, i + p.len()) == p {
        Some(i)
    } else {
        find_from(s, p, i + 1)
    }
}

/// First position where `p` occurs in `s`.
pub open spec fn find(s: Seq<char>, p: Seq<char>) -> Option<int> {
    find_from(s, p, 0)
}

/// End of the line that starts at `i`: the next newline, or the end of `s`.
pub open spec fn line_end(s: Seq<char>, i: int) -> int
    decreases s.len() - i,
{
    if i >= s.len() || i < 0 {
        s.len() as int
    } else if s[i] == '\n' {
        i
    } else {
        line_end(s, i + 1)
    }
}

/// The lines of `s` from position `i` on, split at newlines, without the
/// newlines; a newline at the very end starts no further line. A carriage
/// return before a newline stays in its line: every use here trims lines,
/// which removes it.
pub open spec fn lines_from(s: Seq<char>, i: int) -> Seq<Seq<char>>
    decreases s.len() + 1 - i,
{
    if i >= s.len() || i < 0 {
        Seq::empty()
    } else {
        let j = line_end(s, i);
        if j < i || j > s.len() {
            Seq::empty()
        } else {
            seq![s.subrange(i, j)] + lines_from(s, j + 1)
        }
    }
}

/// The lines of `s`.
pub open spec fn lines(s: Seq<char>) -> Seq<Seq<char>> {
    lines_from(s, 0)
}

/// End of the word that starts at `i`: the next white space, or the end.
pub open spec fn word_end(s: Seq<char>, i: int) -> int
    decreases s.len() - i,
{
    if i >= s.len() || i < 0 {
        s.len() as int
    } else if is_ws(s[i]) {
        i
    } else {
        word_end(s, i + 1)
    }
}

/// The first white-space separated word of `s`, if any.
pub open spec fn first_word(s: Seq<char>) -> Option<Seq<char>> {
    let t = trim_start(s);
    if t.len() == 0 {
        None
    } else {
        Some(t.subrange(0, word_end(t, 0)))
    }
}

/// `s` with every leading repetition of the non-empty `p` removed.
pub open spec fn strip_all(s: Seq<char>, p: Seq<char>) -> Seq<char>
    decreases s.len(),
{
    if p.len() > 0 && starts_with(s, p) {
        strip_all(s.subrange(p.len() as int, s.len() as int), p)
    } else {
        s
    }
}

/// The views of a list of strings.
pub open spec fn views(v: Seq<String>) -> Seq<Seq<char>> {
    v.map_values(|s: String| s@)
}

proof fn lemma_trim_start_at(s: Seq<char>, a: int)
    requires
        0 <= a <= s.len(),
        forall|i: int| 0 <= i < a ==> is_ws(#[trigger] s[i]),
        a == s.len() || !is_ws(s[a]),
    ensures
        trim_start(s) == s.subrange(a, s.len() as int),
    decreases a,
{
    if a == 0 {
        assert(s.subrange(0, s.len() as int) =~= s);
    } else {
        let t = s.drop_first();
        assert forall|i: int| 0 <= i < a - 1 implies is_ws(#[trigger] t[i]) by {
            assert(t[i] == s[i + 1]);
        }
        if a - 1 < t.len() {
            assert(t[a - 1] == s[a]);
        }
        lemma_trim_start_at(t, a - 1);
        assert(t.subrange(a - 1, t.len() as int) =~= s.subrange(a, s.len() as int));
    }
}

proof fn lemma_trim_end_at(s: Seq<char>, b: int)
    requires
        0 <= b <= s.len(),
        forall|i: int| b <= i < s.len() ==> is_ws(#[trigger] s[i]),
        b == 0 || !is_ws(s[b - 1]),
    ensures
        trim_end(s) == s.subrange(0, b),
    decreases s.len() - b,
{
    if b == s.len() {
        assert(s.subrange(0, b) =~= s);
    } else {
        let t = s.drop_last();
        assert forall|i: int| b <= i < t.len() implies is_ws(#[trigger] t[i]) by {
            assert(t[i] == s[i]);
        }
        if b > 0 {
            assert(t[b - 1] == s[b - 1]);
        }
        lemma_trim_end_at(t, b);
        assert(t.subrange(0, b) =~= s.subrange(0, b));
    }
}

/// Bounds of the trimmed part of `c[from..to]`.
pub fn trim_bounds(c: &Vec<char>, from: usize, to: usize) -> (r: (usize, usize))
    requires
        from <= to <= c@.len(),
    ensures
        from <= r.0 <= r.1 <= to,
        c@.subrange(r.0 as int, r.1 as int) == trim(c@.subrange(from as int, to as int)),
{
    let ghost s = c@.subrange(from as int, to as int);
    let mut a: usize = from;
    while a < to && is_ws_exec(c[a])
        invariant
            from <= a <= to <= c@.len(),
            forall|i: int| from <= i < a ==> is_ws(#[trigger] c@[i]),
        decreases to - a,
    {
        a = a + 1;
    }
    proof {
        assert forall|i: int| 0 <= i < a - from implies is_ws(#[trigger] s[i]) by {
            assert(s[i] == c@[from + i]);
        }
        if a < to {
            assert(s[a - from] == c@[a as int]);
        }
        lemma_trim_start_at(s, a - from);
    }
    let ghost t = s.subrange(a - from, s.len() as int);
    assert(t =~= c@.subrange(a as int, to as int));
    let mut b: usize = to;
    while b > a && is_ws_exec(c[b - 1])
        invariant
            from <= a <= b <= to <= c@.len(),
            forall|i: int| b <= i < to ==> is_ws(#[trigger] c@[i]),
        decreases b - a,
    {
        b = b - 1;
    }
    proof {
        assert forall|i: int| b - a <= i < t.len() implies is_ws(#[trigger] t[i]) by {
            assert(t[i] == c@[a + i]);
        }
        if b > a {
            assert(t[b - a - 1] == c@[b - 1]);
        }
        lemma_trim_end_at(t, b - a);
        assert(t.subrange(0, b - a) =~= c@.subrange(a as int, b as int));
    }
    (a, b)
}

/// Whether `c[from..to]` begins with `p`.
pub fn starts_with_at(c: &Vec<char>, from: usize, to: usize, p: &Vec<char>) -> (b: bool)
    requires
        from <= to <= c@.len(),
    ensures
        b == starts_with(c@.subrange(from as int, to as int), p@),
{
    let ghost s = c@.subrange(from as int, to as int);
    if p.len() > to - from {
        return false;
    }
    let mut k: usize = 0;
    while k < p.len()
        invariant
            s == c@.subrange(from as int, to as int),
            p@.len() <= to - from,
            from <= to <= c@.len(),
            k <= p@.len(),
            forall|i: int| 0 <= i < k ==> c@[from + i] == p@[i],
        decreases p@.len() - k,
    {
        if c[from + k] != p[k] {
            assert(s.subrange(0, p@.len() as int)[k as int] != p@[k as int]);
            return false;
        }
        k = k + 1;
    }
    assert(s.subrange(0, p@.len() as int) =~= p@);
    true
}

/// Whether `c[from..to]` ends with `p`.
pub fn ends_with_at(c: &Vec<char>, from: usize, to: usize, p: &Vec<char>) -> (b: bool)
    requires
        from <= to <= c@.len(),
    ensures
        b == ends_with(c@.subrange(from as int, to as int), p@),
{
    let ghost s = c@.subrange(from as int, to as int);
    if p.len() > to - from {
        return false;
    }
    let start = to - p.len();
    let mut k: usize = 0;
    while k < p.len()
        invariant
            s == c@.subrange(from as int, to as int),
            p@.len() <= to - from,
            start == to - p@.len(),
            from <= to <= c@.len(),
            k <= p@.len(),
            forall|i: int| 0 <= i < k ==> c@[start + i] == p@[i],
        decreases p@.len() - k,
    {
        if c[start + k] != p[k] {
            assert(s.subrange(s.len() - p@.len(), s.len() as int)[k as int] != p@[k as int]);
            return false;
        }
        k = k + 1;
    }
    assert(s.subrange(s.len() - p@.len(), s.len() as int) =~= p@);
    true
}

/// First position of `p` in `c[from..to]`, counted from `from`.
pub fn find_at(c: &Vec<char>, from: usize, to: usize, p: &Vec<char>) -> (r: Option<usize>)
    requires
        from <= to <= c@.len(),
    ensures
        r matches Some(k) ==> find(c@.subrange(from as int, to as int), p@) == Some(k as int),
        r is None ==> find(c@.subrange(from as int, to as int), p@) is None,
{
    let ghost s = c@.subrange(from as int, to as int);
    let mut i: usize = from;
    while i <= to
        invariant
            s == c@.subrange(from as int, to as int),
            from <= i,
            from <= to <= c@.len(),
            i <= to + 1,
            find(s, p@) == find_from(s, p@, i - from),
        decreases to + 1 - i,
    {
        if p.len() > to - i {
            return None;
        }
        let m = starts_with_at(c, i, to, p);
        proof {
            assert(c@.subrange(i as int, to as int).subrange(0, p@.len() as int) =~= s.subrange(
                i - from,
                i - from + p@.len(),
            ));
        }
        if m {
            return Some(i - from);
        }
        proof {
            if p@.len() == 0 {
                assert(c@.subrange(i as int, to as int).subrange(0, 0) =~= p@);
            }
        }
        i = i + 1;
    }
    None
}

/// A position that `find_from` reports is where the pattern occurs.
pub proof fn lemma_find_from_bounds(s: Seq<char>, p: Seq<char>, i: int)
    requires
        find_from(s, p, i) is Some,
    ensures
        i <= find_from(s, p, i).unwrap(),
        find_from(s, p, i).unwrap() + p.len() <= s.len(),
        s.subrange(find_from(s, p, i).unwrap(), find_from(s, p, i).unwrap() + p.len()) == p,
    decreases s.len() + 1 - i,
{
    if i < 0 || i + p.len() > s.len() {
    } else if s.subrange(i, i + p.len()) == p {
    } else {
        lemma_find_from_bounds(s, p, i + 1);
    }
}

/// Bounds of the first word of `c[from..to]`, if it has one.
pub fn first_word_bounds(c: &Vec<char>, from: usize, to: usize) -> (r: Option<(usize, usize)>)
    requires
        from <= to <= c@.len(),
    ensures
        r is None <==> first_word(c@.subrange(from as int, to as int)) is None,
        r matches Some(w) ==> from <= w.0 <= w.1 <= to && Some(c@.subrange(w.0 as int, w.1 as int))
            == first_word(c@.subrange(from as int, to as int)),
{
    let ghost s = c@.subrange(from as int, to as int);
    let mut a: usize = from;
    while a < to && is_ws_exec(c[a])
        invariant
            from <= a <= to <= c@.len(),
            forall|i: int| from <= i < a ==> is_ws(#[trigger] c@[i]),
        decreases to - a,
    {
        a = a + 1;
    }
    proof {
        assert forall|i: int| 0 <= i < a - from implies is_ws(#[trigger] s[i]) by {
            assert(s[i] == c@[from + i]);
        }
        if a < to {
            assert(s[a - from] == c@[a as int]);
        }
        lemma_trim_start_at(s, a - from);
    }
    let ghost t = c@.subrange(a as int, to as int);
    assert(trim_start(s) =~= t);
    if a == to {
        return None;
    }
    let mut b: usize = a;
    while b < to && !is_ws_exec(c[b])
        invariant
            a <= b <= to <= c@.len(),
            t == c@.subrange(a as int, to as int),
            word_end(t, 0) == word_end(t, b - a),
        decreases to - b,
    {
        assert(t[b - a] == c@[b as int]);
        b = b + 1;
    }
    proof {
        if b < to {
            assert(t[b - a] == c@[b as int]);
        }
        assert(t.subrange(0, b - a) =~= c@.subrange(a as int, b as int));
    }
    Some((a, b))
}

/// `c[from..to]` with every leading repetition of `p` removed: its start.
pub fn strip_all_from(c: &Vec<char>, from: usize, to: usize, p: &Vec<char>) -> (a: usize)
    requires
        from <= to <= c@.len(),
    ensures
        from <= a <= to,
        c@.subrange(a as int, to as int) == strip_all(c@.subrange(from as int, to as int), p@),
{
    let mut a: usize = from;
    if p.len() == 0 {
        return a;
    }
    while starts_with_at(c, a, to, p)
        invariant
            from <= a <= to <= c@.len(),
            p@.len() > 0,
            strip_all(c@.subrange(from as int, to as int), p@) == strip_all(c@.subrange(a as int, to as int), p@),
        decreases to - a,
    {
        let ghost s = c@.subrange(a as int, to as int);
        assert(s.subrange(p@.len() as int, s.len() as int) =~= c@.subrange(a + p@.len(), to as int));
        a = a + p.len();
    }
    a
}

/// Bounds of each line of `c`, in order.
pub fn line_bounds(c: &Vec<char>) -> (r: Vec<(usize, usize)>)
    ensures
        r@.len() == lines(c@).len(),
        forall|k: int|
            0 <= k < r@.len() ==> (#[trigger] r@[k]).0 <= r@[k].1 <= c@.len() && c@.subrange(
                r@[k].0 as int,
                r@[k].1 as int,
            ) == lines(c@)[k],
{
    let ghost all = lines(c@);
    let n = c.len();
    let mut out: Vec<(usize, usize)> = Vec::new();
    let mut i: usize = 0;
    while i < n
        invariant
            all == lines(c@),
            n == c@.len(),
            i <= n,
            out@.len() <= all.len(),
            all.subrange(out@.len() as int, all.len() as int) == lines_from(c@, i as int),
            forall|k: int|
                0 <= k < out@.len() ==> (#[trigger] out@[k]).0 <= out@[k].1 <= c@.len()
                    && c@.subrange(out@[k].0 as int, out@[k].1 as int) == all[k],
        decreases n - i,
    {
        let mut j: usize = i;
        while j < n && c[j] != '\n'
            invariant
                i <= j <= n,
                n == c@.len(),
                line_end(c@, i as int) == line_end(c@, j as int),
            decreases n - j,
        {
            j = j + 1;
        }
        let ghost m: int = out@.len() as int;
        let ghost rest = lines_from(c@, j + 1);
        assert(lines_from(c@, i as int) == seq![c@.subrange(i as int, j as int)] + rest);
        let ghost tail = all.subrange(m as int, all.len() as int);
        assert(tail.len() > 0);
        assert(all[m as int] == tail[0]);
        assert(all.subrange(m + 1 as int, all.len() as int) =~= tail.drop_first());
        assert(tail.drop_first() =~= rest);
        out.push((i, j));
        if j < n {
            i = j + 1;
        } else {
            i = n;
            assert(lines_from(c@, n as int) == lines_from(c@, n + 1));
        }
    }
    assert(lines_from(c@, i as int) =~= Seq::<Seq<char>>::empty());
    out
}

/// The characters of a string.
pub fn to_chars(s: &str) -> (v: Vec<char>)
    ensures
        v@ == s@,
{
    let mut v: Vec<char> = Vec::new();
    let mut it = s.chars();
    loop
        invariant
            v@ + it.remaining() == s@,
            it.decrease() is Some,
            it.obeys_prophetic_iter_laws(),
        ensures
            v@ == s@,
        decreases it.decrease()->0,
    {
        match it.next() {
            Some(c) => {
                v.push(c);
            },
            None => {
                assert(v@ + it.remaining() == s@);
                assert(it.remaining().len() == 0);
                assert(v@ =~= s@);
                break;
            },
        }
    }
    v
}

} // verus!

//! Character-level text primitives: substring containment, first-occurrence
//! and every-occurrence replacement, and splitting to / joining from lines.

use vstd::prelude::*;
use vstd::string::StrSliceExecFns;
use vstd::string::StringExecFns;

verus! {

/// `key` occurs in `hay` starting exactly at position `p`.
pub open spec fn substr_at(hay: Seq<char>, key: Seq<char>, p: int) -> bool {
    &&& 0 <= p
    &&& p + key.len() <= hay.len()
    &&& hay.subrange(p, p + key.len() as int) == key
}

/// `hay` contains `key` as a contiguous substring.
pub open spec fn has_substr(hay: Seq<char>, key: Seq<char>) -> bool {
    exists|p: int| substr_at(hay, key, p)
}

/// Decides whether `key` occurs in `s` at position `p` exactly.
pub fn check_at(s: &str, key: &str, p: usize) -> (b: bool)
    requires
        p + key@.len() <= s@.len(),
    ensures
        b == substr_at(s@, key@, p as int),
{
    let n = s.unicode_len();
    let m = key.unicode_len();
    let mut j: usize = 0;
    while j < m
        invariant
            n == s@.len(),
            m == key@.len(),
            p + m <= n,
            j <= m,
            forall|q: int| 0 <= q < j ==> s@[p + q] == key@[q],
        decreases m - j,
    {
        if s.get_char(p + j) != key.get_char(j) {
            proof {
                if substr_at(s@, key@, p as int) {
                    assert(s@.subrange(p as int, p + m as int)[j as int] == key@[j as int]);
                }
            }
            return false;
        }
        j += 1;
    }
    proof {
        assert(s@.subrange(p as int, p + m as int) =~= key@);
    }
    true
}

/// Finds the smallest position at which `key` occurs in `s`, if any.
pub fn find_first(s: &str, key: &str) -> (r: Option<usize>)
    ensures
        match r {
            Some(p) => substr_at(s@, key@, p as int) && forall|q: int|
                0 <= q < p ==> !substr_at(s@, key@, q),
            None => !has_substr(s@, key@),
        },
{
    let n = s.unicode_len();
    let m = key.unicode_len();
    if m > n {
        proof {
            assert forall|p: int| !substr_at(s@, key@, p) by {}
        }
        return None;
    }
    if m == 0 {
        proof {
            assert(s@.subrange(0, 0) =~= key@);
        }
        return Some(0);
    }
    let mut p: usize = 0;
    while p <= n - m
        invariant
            n == s@.len(),
            m == key@.len(),
            1 <= m <= n,
            p <= n - m + 1,
            forall|q: int| 0 <= q < p ==> !substr_at(s@, key@, q),
        decreases n - m + 1 - p,
    {
        if check_at(s, key, p) {
            return Some(p);
        }
        p += 1;
    }
    proof {
        assert forall|q: int| !substr_at(s@, key@, q) by {
            if q >= p {
                assert(q + m > n);
            }
        }
    }
    None
}

/// Decides substring containment.
pub fn contains_str(s: &str, key: &str) -> (b: bool)
    ensures
        b == has_substr(s@, key@),
{
    match find_first(s, key) {
        Some(p) => {
            proof {
                assert(substr_at(s@, key@, p as int));
            }
            true
        },
        None => false,
    }
}

/// The text after replacing the first occurrence of `from` (if any) by `to`.
pub open spec fn replace_first_spec(s: Seq<char>, from: Seq<char>, to: Seq<char>) -> Seq<char>
    decreases s.len(),
{
    if from.len() == 0 {
        to + s
    } else if s.len() < from.len() {
        s
    } else if s.subrange(0, from.len() as int) == from {
        to + s.skip(from.len() as int)
    } else {
        seq![s[0]] + replace_first_spec(s.skip(1), from, to)
    }
}

/// The text after replacing every occurrence of `from` by `to`, scanning
/// left to right without overlap.
pub open spec fn replace_all_spec(s: Seq<char>, from: Seq<char>, to: Seq<char>) -> Seq<char>
    decreases s.len(),
{
    if from.len() == 0 || s.len() < from.len() {
        s
    } else if s.subrange(0, from.len() as int) == from {
        to + replace_all_spec(s.skip(from.len() as int), from, to)
    } else {
        seq![s[0]] + replace_all_spec(s.skip(1), from, to)
    }
}

proof fn lemma_replace_first_none(s: Seq<char>, from: Seq<char>, to: Seq<char>)
    requires
        from.len() >= 1,
        !has_substr(s, from),
    ensures
        replace_first_spec(s, from, to) == s,
    decreases s.len(),
{
    if s.len() >= from.len() {
        if s.subrange(0, from.len() as int) == from {
            assert(substr_at(s, from, 0));
        }
        assert(!has_substr(s.skip(1), from)) by {
            if has_substr(s.skip(1), from) {
                let q = choose|q: int| substr_at(s.skip(1), from, q);
                assert(s.subrange(q + 1, q + 1 + from.len()) =~= s.skip(1).subrange(
                    q,
                    q + from.len(),
                ));
                assert(substr_at(s, from, q + 1));
            }
        }
        lemma_replace_first_none(s.skip(1), from, to);
        assert(seq![s[0]] + s.skip(1) =~= s);
    }
}

proof fn lemma_replace_first_at(s: Seq<char>, from: Seq<char>, to: Seq<char>, p: int)
    requires
        from.len() >= 1,
        substr_at(s, from, p),
        forall|q: int| 0 <= q < p ==> !substr_at(s, from, q),
    ensures
        replace_first_spec(s, from, to) == s.subrange(0, p) + to + s.skip(p + from.len()),
    decreases p,
{
    if p == 0 {
        assert(s.subrange(0, from.len() as int) == from);
        assert(s.subrange(0, 0) =~= Seq::<char>::empty());
        assert(s.subrange(0, 0) + to + s.skip(from.len() as int) =~= to + s.skip(
            from.len() as int,
        ));
    } else {
        assert(s.len() >= p + from.len());
        if s.subrange(0, from.len() as int) == from {
            assert(substr_at(s, from, 0));
        }
        let t = s.skip(1);
        assert(t.subrange(p - 1, p - 1 + from.len()) =~= s.subrange(p, p + from.len()));
        assert(substr_at(t, from, p - 1));
        assert forall|q: int| 0 <= q < p - 1 implies !substr_at(t, from, q) by {
            if substr_at(t, from, q) {
                assert(s.subrange(q + 1, q + 1 + from.len()) =~= t.subrange(q, q + from.len()));
                assert(substr_at(s, from, q + 1));
            }
        }
        lemma_replace_first_at(t, from, to, p - 1);
        assert(seq![s[0]] + (t.subrange(0, p - 1) + to + t.skip(p - 1 + from.len())) =~= s.subrange(
            0,
            p,
        ) + to + s.skip(p + from.len()));
    }
}

/// Replaces the first occurrence of `from` in `s` by `to`; if `from` does not
/// occur, the text is returned unchanged.
pub fn replace_first(s: &str, from: &str, to: &str) -> (r: String)
    requires
        from@.len() >= 1,
    ensures
        r@ == replace_first_spec(s@, from@, to@),
{
    let n = s.unicode_len();
    match find_first(s, from) {
        Some(p) => {
            let m = from.unicode_len();
            let mut out = String::new();
            out.append(s.substring_char(0, p));
            out.append(to);
            out.append(s.substring_char(p + m, n));
            proof {
                lemma_replace_first_at(s@, from@, to@, p as int);
                assert(out@ =~= s@.subrange(0, p as int) + to@ + s@.skip(p + m));
            }
            out
        },
        None => {
            proof {
                lemma_replace_first_none(s@, from@, to@);
            }
            s.to_owned()
        },
    }
}

proof fn lemma_replace_all_unfold_match(s: Seq<char>, from: Seq<char>, to: Seq<char>, i: int)
    requires
        from.len() >= 1,
        0 <= i,
        i + from.len() <= s.len(),
        s.subrange(i, i + from.len()) == from,
    ensures
        replace_all_spec(s.skip(i), from, to) == to + replace_all_spec(
            s.skip(i + from.len()),
            from,
            to,
        ),
{
    let t = s.skip(i);
    assert(t.subrange(0, from.len() as int) =~= s.subrange(i, i + from.len()));
    assert(t.skip(from.len() as int) =~= s.skip(i + from.len()));
}

proof fn lemma_replace_all_unfold_step(s: Seq<char>, from: Seq<char>, to: Seq<char>, i: int)
    requires
        from.len() >= 1,
        0 <= i,
        i + from.len() <= s.len(),
        s.subrange(i, i + from.len()) != from,
    ensures
        replace_all_spec(s.skip(i), from, to) == seq![s[i]] + replace_all_spec(
            s.skip(i + 1),
            from,
            to,
        ),
{
    let t = s.skip(i);
    assert(t.subrange(0, from.len() as int) =~= s.subrange(i, i + from.len()));
    assert(t.skip(1) =~= s.skip(i + 1));
    assert(seq![t[0]] =~= seq![s[i]]);
}

/// Replaces every occurrence of `from` in `s` by `to`, scanning left to right
/// without overlap.
pub fn replace_all(s: &str, from: &str, to: &str) -> (r: String)
    requires
        from@.len() >= 1,
    ensures
        r@ == replace_all_spec(s@, from@, to@),
{
    let n = s.unicode_len();
    let m = from.unicode_len();
    if m > n {
        return s.to_owned();
    }
    let mut out = String::new();
    let mut i: usize = 0;
    let mut seg: usize = 0;
    proof {
        assert(s@.skip(0) =~= s@);
        assert(out@ + s@.subrange(0, 0) + replace_all_spec(s@, from@, to@) =~= replace_all_spec(
            s@,
            from@,
            to@,
        ));
    }
    while i <= n - m
        invariant
            n == s@.len(),
            m == from@.len(),
            1 <= m <= n,
            seg <= i <= n,
            out@ + s@.subrange(seg as int, i as int) + replace_all_spec(
                s@.skip(i as int),
                from@,
                to@,
            ) == replace_all_spec(s@, from@, to@),
        decreases n - i,
    {
        if check_at(s, from, i) {
            out.append(s.substring_char(seg, i));
            out.append(to);
            proof {
                lemma_replace_all_unfold_match(s@, from@, to@, i as int);
                assert((out@ + s@.subrange(i + m, i + m as int)) =~= out@);
            }
            i = i + m;
            seg = i;
            proof {
                assert(s@.subrange(seg as int, i as int) =~= Seq::<char>::empty());
                assert(out@ + s@.subrange(seg as int, i as int) =~= out@);
            }
        } else {
            proof {
                lemma_replace_all_unfold_step(s@, from@, to@, i as int);
                assert(s@.subrange(seg as int, i + 1) =~= s@.subrange(seg as int, i as int) + seq![
                    s@[i as int],
                ]);
                assert(out@ + s@.subrange(seg as int, i + 1) + replace_all_spec(
                    s@.skip(i + 1),
                    from@,
                    to@,
                ) =~= out@ + s@.subrange(seg as int, i as int) + (seq![s@[i as int]]
                    + replace_all_spec(s@.skip(i + 1), from@, to@)));
            }
            i = i + 1;
        }
    }
    out.append(s.substring_char(seg, n));
    proof {
        assert(s@.skip(i as int).len() < m);
        assert(replace_all_spec(s@.skip(i as int), from@, to@) == s@.skip(i as int));
        assert(s@.subrange(seg as int, n as int) =~= s@.subrange(seg as int, i as int) + s@.skip(
            i as int,
        ));
        assert(out@ =~= replace_all_spec(s@, from@, to@));
    }
    out
}

/// The segments of `s` between newline characters: `n` separators give
/// `n + 1` segments, so a trailing newline yields a final empty segment.
pub open spec fn split_lines(s: Seq<char>) -> Seq<Seq<char>>
    decreases s.len(),
{
    if s.len() == 0 {
        seq![Seq::<char>::empty()]
    } else if s[0] == '\n' {
        seq![Seq::<char>::empty()] + split_lines(s.skip(1))
    } else {
        let rest = split_lines(s.skip(1));
        seq![seq![s[0]] + rest[0]] + rest.skip(1)
    }
}

/// The segments joined with a single newline between neighbours and no
/// terminator at the end.
pub open spec fn join_lines(ls: Seq<Seq<char>>) -> Seq<char>
    decreases ls.len(),
{
    if ls.len() == 0 {
        Seq::<char>::empty()
    } else if ls.len() == 1 {
        ls[0]
    } else {
        ls[0] + seq!['\n'] + join_lines(ls.skip(1))
    }
}

/// The segments joined with a newline terminator after every one of them,
/// the last included.
pub open spec fn join_lines_nl(ls: Seq<Seq<char>>) -> Seq<char>
    decreases ls.len(),
{
    if ls.len() == 0 {
        Seq::<char>::empty()
    } else {
        ls[0] + seq!['\n'] + join_lines_nl(ls.skip(1))
    }
}

/// The line sequence of `s`: its segments, except that the empty segment
/// after a trailing newline is not a line.
pub open spec fn lines_of(s: Seq<char>) -> Seq<Seq<char>> {
    let segs = split_lines(s);
    if segs.last().len() == 0 {
        segs.drop_last()
    } else {
        segs
    }
}

/// The views of a sequence of owned strings.
pub open spec fn seq_views(ls: Seq<String>) -> Seq<Seq<char>> {
    Seq::new(ls.len(), |i: int| ls[i]@)
}

pub proof fn lemma_seq_views_push(prev: Seq<String>, s: String, x: Seq<char>)
    requires
        s@ == x,
    ensures
        seq_views(prev.push(s)) == seq_views(prev).push(x),
{
    assert forall|j: int| 0 <= j < prev.len() + 1 implies seq_views(prev.push(s))[j] == seq_views(
        prev,
    ).push(x)[j] by {
        if j < prev.len() {
            assert(prev.push(s)[j] == prev[j]);
        } else {
            assert(prev.push(s)[j] == s);
        }
    }
    assert(seq_views(prev.push(s)) =~~= seq_views(prev).push(x));
}

proof fn lemma_split_lines_len(s: Seq<char>)
    ensures
        split_lines(s).len() >= 1,
    decreases s.len(),
{
    if s.len() != 0 {
        lemma_split_lines_len(s.skip(1));
    }
}

proof fn lemma_split_at_first_newline(s: Seq<char>, j: int)
    requires
        0 <= j < s.len(),
        s[j] == '\n',
        forall|q: int| 0 <= q < j ==> s[q] != '\n',
    ensures
        split_lines(s) == seq![s.subrange(0, j)] + split_lines(s.skip(j + 1)),
    decreases j,
{
    if j == 0 {
        assert(s.subrange(0, 0) =~= Seq::<char>::empty());
        assert(seq![s.subrange(0, 0)] =~~= seq![Seq::<char>::empty()]);
    } else {
        let t = s.skip(1);
        assert(t[j - 1] == '\n');
        lemma_split_at_first_newline(t, j - 1);
        lemma_split_lines_len(t.skip(j));
        assert(t.skip(j) =~= s.skip(j + 1));
        assert(split_lines(t) == seq![t.subrange(0, j - 1)] + split_lines(s.skip(j + 1)));
        let rest = split_lines(t);
        assert(rest[0] == t.subrange(0, j - 1));
        assert(seq![s[0]] + t.subrange(0, j - 1) =~= s.subrange(0, j));
        assert(rest.skip(1) =~~= split_lines(s.skip(j + 1)));
        assert(split_lines(s) =~~= seq![s.subrange(0, j)] + split_lines(s.skip(j + 1)));
    }
}

proof fn lemma_split_no_newline(s: Seq<char>)
    requires
        forall|q: int| 0 <= q < s.len() ==> s[q] != '\n',
    ensures
        split_lines(s) == seq![s],
    decreases s.len(),
{
    if s.len() == 0 {
        assert(s =~= Seq::<char>::empty());
    } else {
        lemma_split_no_newline(s.skip(1));
        assert(seq![s[0]] + s.skip(1) =~= s);
        assert(split_lines(s) =~~= seq![s]);
    }
}

/// Finds the smallest newline position at or after `start`, if any.
fn find_newline_from(s: &str, start: usize) -> (r: Option<usize>)
    requires
        start <= s@.len(),
    ensures
        match r {
            Some(j) => start <= j < s@.len() && s@[j as int] == '\n' && forall|q: int|
                start <= q < j ==> s@[q] != '\n',
            None => forall|q: int| start <= q < s@.len() ==> s@[q] != '\n',
        },
{
    let n = s.unicode_len();
    let mut j: usize = start;
    while j < n
        invariant
            n == s@.len(),
            start <= j <= n,
            forall|q: int| start <= q < j ==> s@[q] != '\n',
        decreases n - j,
    {
        if s.get_char(j) == '\n' {
            return Some(j);
        }
        j += 1;
    }
    None
}

/// Splits `s` into its newline-separated segments, the trailing empty
/// segment after a final newline included.
pub fn split_to_segments(s: &str) -> (r: Vec<String>)
    ensures
        seq_views(r@) == split_lines(s@),
{
    let n = s.unicode_len();
    let mut out: Vec<String> = Vec::new();
    let mut seg: usize = 0;
    proof {
        assert(s@.skip(0) =~= s@);
        assert(seq_views(out@) + split_lines(s@) =~~= split_lines(s@));
    }
    loop
        invariant
            n == s@.len(),
            seg <= n,
            split_lines(s@) =~~= seq_views(out@) + split_lines(s@.skip(seg as int)),
        decreases n - seg,
    {
        match find_newline_from(s, seg) {
            Some(j) => {
                out.push(s.substring_char(seg, j).to_owned());
                proof {
                    let t = s@.skip(seg as int);
                    assert(t[j - seg] == '\n');
                    assert forall|q: int| 0 <= q < j - seg implies t[q] != '\n' by {
                        assert(t[q] == s@[q + seg]);
                    }
                    lemma_split_at_first_newline(t, j - seg);
                    assert(t.subrange(0, j - seg) =~= s@.subrange(seg as int, j as int));
                    assert(t.skip(j - seg + 1) =~= s@.skip(j + 1));
                    assert(seq_views(out@) =~~= seq_views(out@.drop_last()) + seq![s@.subrange(
                        seg as int,
                        j as int,
                    )]);
                }
                seg = j + 1;
            },
            None => {
                out.push(s.substring_char(seg, n).to_owned());
                proof {
                    let t = s@.skip(seg as int);
                    assert forall|q: int| 0 <= q < t.len() implies t[q] != '\n' by {
                        assert(t[q] == s@[q + seg]);
                    }
                    lemma_split_no_newline(t);
                    assert(t =~= s@.subrange(seg as int, n as int));
                    assert(seq_views(out@) =~~= seq_views(out@.drop_last()) + seq![s@.subrange(
                        seg as int,
                        n as int,
                    )]);
                    assert(seq_views(out@) =~~= split_lines(s@));
                }
                return out;
            },
        }
    }
}

proof fn lemma_join_push(ls: Seq<Seq<char>>, l: Seq<char>)
    requires
        ls.len() >= 1,
    ensures
        join_lines(ls.push(l)) == join_lines(ls) + seq!['\n'] + l,
    decreases ls.len(),
{
    let p = ls.push(l);
    assert(p[0] == ls[0]);
    if ls.len() == 1 {
        assert(p.skip(1) =~~= seq![l]);
        assert(join_lines(p) == p[0] + seq!['\n'] + join_lines(p.skip(1)));
        assert(join_lines(seq![l]) == seq![l][0]);
        assert(seq![l][0] == l);
        assert(join_lines(ls) == ls[0]);
    } else {
        assert(p.skip(1) =~~= ls.skip(1).push(l));
        lemma_join_push(ls.skip(1), l);
        assert(join_lines(p) == p[0] + seq!['\n'] + join_lines(p.skip(1)));
        assert(join_lines(ls) == ls[0] + seq!['\n'] + join_lines(ls.skip(1)));
        assert(join_lines(p) =~= join_lines(ls) + seq!['\n'] + l);
    }
}

proof fn lemma_join_nl_push(ls: Seq<Seq<char>>, l: Seq<char>)
    ensures
        join_lines_nl(ls.push(l)) == join_lines_nl(ls) + l + seq!['\n'],
    decreases ls.len(),
{
    let p = ls.push(l);
    if ls.len() == 0 {
        assert(p[0] == l);
        assert(p.skip(1) =~~= Seq::<Seq<char>>::empty());
        assert(join_lines_nl(p) == p[0] + seq!['\n'] + join_lines_nl(p.skip(1)));
        assert(join_lines_nl(p.skip(1)) == Seq::<char>::empty());
        assert(join_lines_nl(p) =~= join_lines_nl(ls) + l + seq!['\n']);
    } else {
        assert(p[0] == ls[0]);
        assert(p.skip(1) =~~= ls.skip(1).push(l));
        lemma_join_nl_push(ls.skip(1), l);
        assert(join_lines_nl(p) == p[0] + seq!['\n'] + join_lines_nl(p.skip(1)));
        assert(join_lines_nl(ls) == ls[0] + seq!['\n'] + join_lines_nl(ls.skip(1)));
        assert(join_lines_nl(p) =~= join_lines_nl(ls) + l + seq!['\n']);
    }
}

/// Joins lines with a single newline between neighbours.
pub fn join_newline(v: &Vec<String>) -> (r: String)
    ensures
        r@ == join_lines(seq_views(v@)),
{
    let mut out = String::new();
    if v.len() == 0 {
        return out;
    }
    out.append(v[0].as_str());
    proof {
        assert(seq_views(v@).take(1) =~~= seq![v@[0]@]);
    }
    let mut i: usize = 1;
    while i < v.len()
        invariant
            1 <= i <= v@.len(),
            out@ == join_lines(seq_views(v@).take(i as int)),
        decreases v@.len() - i,
    {
        out.append("\n");
        out.append(v[i].as_str());
        proof {
            reveal_strlit("\n");
            assert("\n"@ =~= seq!['\n']);
            lemma_join_push(seq_views(v@).take(i as int), v@[i as int]@);
            assert(seq_views(v@).take(i + 1) =~~= seq_views(v@).take(i as int).push(v@[i as int]@));
        }
        i += 1;
    }
    proof {
        assert(seq_views(v@).take(v@.len() as int) =~~= seq_views(v@));
    }
    out
}

/// Joins lines with a newline terminator after every one of them.
pub fn join_newline_terminated(v: &Vec<String>) -> (r: String)
    ensures
        r@ == join_lines_nl(seq_views(v@)),
{
    let mut out = String::new();
    let mut i: usize = 0;
    proof {
        assert(seq_views(v@).take(0) =~~= Seq::<Seq<char>>::empty());
    }
    while i < v.len()
        invariant
            i <= v@.len(),
            out@ == join_lines_nl(seq_views(v@).take(i as int)),
        decreases v@.len() - i,
    {
        out.append(v[i].as_str());
        out.append("\n");
        proof {
            reveal_strlit("\n");
            assert("\n"@ =~= seq!['\n']);
            lemma_join_nl_push(seq_views(v@).take(i as int), v@[i as int]@);
            assert(seq_views(v@).take(i + 1) =~~= seq_views(v@).take(i as int).push(v@[i as int]@));
        }
        i += 1;
    }
    proof {
        assert(seq_views(v@).take(v@.len() as int) =~~= seq_views(v@));
    }
    out
}

/// Splits `s` into its lines: like the segments, but a trailing newline
/// does not open a final empty line.
pub fn split_to_lines(s: &str) -> (r: Vec<String>)
    ensures
        seq_views(r@) == lines_of(s@),
{
    let mut segs = split_to_segments(s);
    proof {
        lemma_split_lines_len(s@);
    }
    if segs[segs.len() - 1].as_str().is_empty() {
        let _ = segs.pop();
        proof {
            assert(seq_views(segs@) =~~= split_lines(s@).drop_last());
        }
    }
    segs
}

} // verus!

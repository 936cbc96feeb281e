//! Byte-level scanning: lines, separators, infixes, white space and
//! replacement.

use vstd::prelude::*;
use vstd::string::{StrSliceExecFns, StringExecFns};

verus! {

/// The byte that ends a line.
pub const LINE_FEED: u8 = 10;

/// The byte that may stand before a line feed.
pub const CARRIAGE_RETURN: u8 = 13;

/// Position of the first `b` in `s`, or `s.len()` where there is none.
pub open spec fn first_index(s: Seq<u8>, b: u8) -> int
    decreases s.len(),
{
    if s.len() == 0 {
        0
    } else if s[0] == b {
        0
    } else {
        1 + first_index(s.drop_first(), b)
    }
}

/// `first_index` is the least position that holds `b`.
pub proof fn lemma_first_index(s: Seq<u8>, b: u8)
    ensures
        0 <= first_index(s, b) <= s.len(),
        forall|k: int| 0 <= k < first_index(s, b) ==> s[k] != b,
        first_index(s, b) < s.len() ==> s[first_index(s, b)] == b,
    decreases s.len(),
{
    if s.len() > 0 && s[0] != b {
        let t = s.drop_first();
        lemma_first_index(t, b);
        assert forall|k: int| 0 <= k < first_index(s, b) implies s[k] != b by {
            if k > 0 {
                assert(s[k] == t[k - 1]);
            }
        }
    }
}

/// A position that holds no `b` before it, and `b` itself unless it is the
/// end of `s`, is `first_index`.
pub proof fn lemma_first_index_is(s: Seq<u8>, b: u8, j: int)
    requires
        0 <= j <= s.len(),
        forall|k: int| 0 <= k < j ==> s[k] != b,
        j < s.len() ==> s[j] == b,
    ensures
        first_index(s, b) == j,
{
    lemma_first_index(s, b);
    let f = first_index(s, b);
    if f < j {
        assert(s[f] != b);
    } else if j < f {
        assert(s[j] != b);
    }
}

/// The pieces of `s` between occurrences of `sep`. There is always one
/// piece more than there are separators; a piece may be empty.
pub open spec fn split(s: Seq<u8>, sep: u8) -> Seq<Seq<u8>>
    decreases s.len(),
{
    let n = first_index(s, sep);
    if 0 <= n < s.len() {
        seq![s.subrange(0, n)] + split(s.subrange(n + 1, s.len() as int), sep)
    } else {
        seq![s]
    }
}

/// The view of each vector of `v`, in order.
pub open spec fn views(v: Seq<Vec<u8>>) -> Seq<Seq<u8>> {
    Seq::new(v.len(), |i: int| v[i]@)
}

/// Copies `s[from..to]` into a new vector.
pub fn copy_range(s: &[u8], from: usize, to: usize) -> (out: Vec<u8>)
    requires
        from <= to <= s@.len(),
    ensures
        out@ == s@.subrange(from as int, to as int),
{
    let mut out: Vec<u8> = Vec::new();
    let mut i: usize = from;
    while i < to
        invariant
            from <= i <= to <= s@.len(),
            out@ == s@.subrange(from as int, i as int),
        decreases to - i,
    {
        out.push(s[i]);
        i += 1;
        assert(out@ =~= s@.subrange(from as int, i as int));
    }
    out
}

/// Position at or after `from` of the next `b` in `s`, or `s.len()`.
pub fn find_from(s: &[u8], from: usize, b: u8) -> (j: usize)
    requires
        from <= s@.len(),
    ensures
        from <= j <= s@.len(),
        j - from == first_index(s@.subrange(from as int, s@.len() as int), b),
        forall|k: int| from <= k < j ==> s@[k] != b,
        j < s@.len() ==> s@[j as int] == b,
{
    let mut j: usize = from;
    while j < s.len() && s[j] != b
        invariant
            from <= j <= s@.len(),
            forall|k: int| from <= k < j ==> s@[k] != b,
        decreases s@.len() - j,
    {
        j += 1;
    }
    proof {
        let rest = s@.subrange(from as int, s@.len() as int);
        lemma_first_index_is(rest, b, j - from);
    }
    j
}

/// Splits `s` at every `sep`.
pub fn split_bytes(s: &[u8], sep: u8) -> (out: Vec<Vec<u8>>)
    ensures
        views(out@) == split(s@, sep),
        out@.len() >= 1,
{
    let mut out: Vec<Vec<u8>> = Vec::new();
    let mut start: usize = 0;
    let n: usize = s.len();
    proof {
        assert(s@.subrange(0, n as int) =~= s@);
        assert(views(out@) + split(s@, sep) =~= split(s@, sep));
    }
    loop
        invariant
            n == s@.len(),
            start <= n,
            split(s@, sep) == views(out@) + split(s@.subrange(start as int, n as int), sep),
        decreases n - start,
    {
        let j: usize = find_from(s, start, sep);
        let piece: Vec<u8> = copy_range(s, start, j);
        let ghost before = out@;
        let ghost rest = s@.subrange(start as int, n as int);
        out.push(piece);
        proof {
            assert(rest.subrange(0, j - start) =~= s@.subrange(start as int, j as int));
            assert(views(out@) =~= views(before) + seq![rest.subrange(0, j - start)]);
        }
        if j >= n {
            proof {
                assert(rest.subrange(0, j - start) =~= rest);
                assert(split(rest, sep) == seq![rest]);
            }
            return out;
        }
        let ghost tail = s@.subrange(j + 1, n as int);
        proof {
            assert(rest.subrange(j - start + 1, rest.len() as int) =~= s@.subrange(
                j + 1,
                n as int,
            ));
            assert(split(rest, sep) == seq![rest.subrange(0, j - start)] + split(tail, sep));
            assert(views(before) + (seq![rest.subrange(0, j - start)] + split(tail, sep)) =~= (
            views(before) + seq![rest.subrange(0, j - start)]) + split(tail, sep));
        }
        start = j + 1;
    }
}

/// `raw` without one carriage return at its end, if it has one.
pub open spec fn chomp(raw: Seq<u8>) -> Seq<u8> {
    if raw.len() > 0 && raw.last() == CARRIAGE_RETURN {
        raw.drop_last()
    } else {
        raw
    }
}

/// The lines of `s`. A line ends at a line feed, or at the end of `s` if
/// bytes are left there; a carriage return just before the line feed is not
/// part of the line.
pub open spec fn lines(s: Seq<u8>) -> Seq<Seq<u8>>
    decreases s.len(),
{
    let n = first_index(s, LINE_FEED);
    if s.len() == 0 {
        Seq::empty()
    } else if 0 <= n < s.len() {
        seq![chomp(s.subrange(0, n))] + lines(s.subrange(n + 1, s.len() as int))
    } else {
        seq![s]
    }
}

/// Splits `s` into its lines.
pub fn split_lines(s: &[u8]) -> (out: Vec<Vec<u8>>)
    ensures
        views(out@) == lines(s@),
{
    let mut out: Vec<Vec<u8>> = Vec::new();
    let mut start: usize = 0;
    let n: usize = s.len();
    proof {
        assert(s@.subrange(0, n as int) =~= s@);
        assert(views(out@) + lines(s@) =~= lines(s@));
    }
    while start < n
        invariant
            n == s@.len(),
            start <= n,
            lines(s@) == views(out@) + lines(s@.subrange(start as int, n as int)),
        decreases n - start,
    {
        let j: usize = find_from(s, start, LINE_FEED);
        let ghost before = out@;
        let ghost rest = s@.subrange(start as int, n as int);
        if j >= n {
            let piece: Vec<u8> = copy_range(s, start, n);
            out.push(piece);
            proof {
                assert(lines(rest) == seq![rest]);
                assert(views(out@) =~= views(before) + seq![rest]);
                assert(lines(s@.subrange(n as int, n as int)) =~= Seq::<Seq<u8>>::empty());
                assert(views(out@) + lines(s@.subrange(n as int, n as int)) =~= views(out@));
            }
            start = n;
        } else {
            let end: usize = if j > start && s[j - 1] == CARRIAGE_RETURN {
                j - 1
            } else {
                j
            };
            let piece: Vec<u8> = copy_range(s, start, end);
            out.push(piece);
            let ghost tail = s@.subrange(j + 1, n as int);
            proof {
                let raw = rest.subrange(0, j - start);
                assert(raw =~= s@.subrange(start as int, j as int));
                assert(chomp(raw) =~= s@.subrange(start as int, end as int));
                assert(rest.subrange(j - start + 1, rest.len() as int) =~= tail);
                assert(lines(rest) == seq![chomp(raw)] + lines(tail));
                assert(views(out@) =~= views(before) + seq![chomp(raw)]);
                assert(views(before) + (seq![chomp(raw)] + lines(tail)) =~= (views(before)
                    + seq![chomp(raw)]) + lines(tail));
            }
            start = j + 1;
        }
    }
    proof {
        assert(lines(s@.subrange(n as int, n as int)) =~= Seq::<Seq<u8>>::empty());
        assert(views(out@) + Seq::<Seq<u8>>::empty() =~= views(out@));
    }
    out
}

/// `pat` stands in `s` at position `i`.
pub open spec fn occurs_at<T>(s: Seq<T>, pat: Seq<T>, i: int) -> bool {
    0 <= i && i + pat.len() <= s.len() && s.subrange(i, i + pat.len()) == pat
}

/// `pat` stands somewhere in `s`.
pub open spec fn has_infix(s: Seq<u8>, pat: Seq<u8>) -> bool {
    exists|i: int| occurs_at(s, pat, i)
}

/// Whether `pat` stands in `s` at position `i`.
pub fn matches_at(s: &[u8], pat: &[u8], i: usize) -> (b: bool)
    requires
        i + pat@.len() <= s@.len(),
    ensures
        b == occurs_at(s@, pat@, i as int),
{
    let m: usize = pat.len();
    let n: usize = s.len();
    let mut k: usize = 0;
    while k < m
        invariant
            m == pat@.len(),
            n == s@.len(),
            i + m <= n,
            k <= m,
            forall|t: int| 0 <= t < k ==> s@[i + t] == pat@[t],
        decreases m - k,
    {
        if s[i + k] != pat[k] {
            proof {
                let window = s@.subrange(i as int, i + m);
                assert(window[k as int] == s@[i + k]);
            }
            return false;
        }
        k += 1;
    }
    assert(s@.subrange(i as int, i + m) =~= pat@);
    true
}

/// Whether `pat` stands somewhere in `s`.
pub fn contains(s: &[u8], pat: &[u8]) -> (b: bool)
    ensures
        b == has_infix(s@, pat@),
{
    let n: usize = s.len();
    let m: usize = pat.len();
    if m > n {
        return false;
    }
    let last: usize = n - m;
    let mut i: usize = 0;
    loop
        invariant
            n == s@.len(),
            m == pat@.len(),
            last == n - m,
            i <= last,
            forall|t: int| 0 <= t < i ==> !occurs_at(s@, pat@, t),
        decreases last - i,
    {
        if matches_at(s, pat, i) {
            return true;
        }
        if i == last {
            return false;
        }
        i += 1;
    }
}

/// Blank, tab, line feed, vertical tab, form feed or carriage return: the
/// white space of one byte. White space of more bytes is left in place.
pub open spec fn is_space(b: u8) -> bool {
    b == 32 || (9 <= b && b <= 13)
}

/// `s` without the white space at its start.
pub open spec fn trim_start(s: Seq<u8>) -> Seq<u8>
    decreases s.len(),
{
    if s.len() > 0 && is_space(s[0]) {
        trim_start(s.drop_first())
    } else {
        s
    }
}

/// `s` without the white space at its end.
pub open spec fn trim_end(s: Seq<u8>) -> Seq<u8>
    decreases s.len(),
{
    if s.len() > 0 && is_space(s.last()) {
        trim_end(s.drop_last())
    } else {
        s
    }
}

/// `s` without the white space at either end.
pub open spec fn trim(s: Seq<u8>) -> Seq<u8> {
    trim_end(trim_start(s))
}

proof fn lemma_trim_start(s: Seq<u8>, a: int)
    requires
        0 <= a <= s.len(),
        forall|k: int| 0 <= k < a ==> is_space(s[k]),
        a < s.len() ==> !is_space(s[a]),
    ensures
        trim_start(s) == s.subrange(a, s.len() as int),
    decreases a,
{
    if a == 0 {
        assert(s.subrange(0, s.len() as int) =~= s);
    } else {
        let t = s.drop_first();
        assert forall|k: int| 0 <= k < a - 1 implies is_space(t[k]) by {
            assert(t[k] == s[k + 1]);
        }
        lemma_trim_start(t, a - 1);
        assert(t.subrange(a - 1, t.len() as int) =~= s.subrange(a, s.len() as int));
    }
}

proof fn lemma_trim_end(s: Seq<u8>, b: int)
    requires
        0 <= b <= s.len(),
        forall|k: int| b <= k < s.len() ==> is_space(s[k]),
        b > 0 ==> !is_space(s[b - 1]),
    ensures
        trim_end(s) == s.subrange(0, b),
    decreases s.len() - b,
{
    if b == s.len() {
        assert(s.subrange(0, b) =~= s);
    } else {
        let t = s.drop_last();
        lemma_trim_end(t, b);
        assert(t.subrange(0, b) =~= s.subrange(0, b));
    }
}

/// Whether `b` is white space.
pub fn space(b: u8) -> (r: bool)
    ensures
        r == is_space(b),
{
    b == 32 || (9 <= b && b <= 13)
}

/// Copies `s` without the white space at either end.
pub fn trimmed(s: &[u8]) -> (out: Vec<u8>)
    ensures
        out@ == trim(s@),
{
    let n: usize = s.len();
    let mut a: usize = 0;
    while a < n && space(s[a])
        invariant
            n == s@.len(),
            a <= n,
            forall|k: int| 0 <= k < a ==> is_space(s@[k]),
        decreases n - a,
    {
        a += 1;
    }
    let mut b: usize = n;
    while b > a && space(s[b - 1])
        invariant
            n == s@.len(),
            a <= b <= n,
            forall|k: int| b <= k < n ==> is_space(s@[k]),
        decreases b,
    {
        b -= 1;
    }
    proof {
        lemma_trim_start(s@, a as int);
        let t = s@.subrange(a as int, n as int);
        assert forall|k: int| b - a <= k < t.len() implies is_space(t[k]) by {
            assert(t[k] == s@[a + k]);
        }
        if b > a {
            assert(t[b - a - 1] == s@[b - 1]);
        }
        lemma_trim_end(t, b - a);
        assert(t.subrange(0, b - a) =~= s@.subrange(a as int, b as int));
    }
    copy_range(s, a, b)
}

/// `s` with every occurrence of `from` replaced by `to`: occurrences are
/// found from the left, and the search goes on behind each.
pub open spec fn replaced<T>(s: Seq<T>, from: Seq<T>, to: Seq<T>) -> Seq<T>
    recommends
        from.len() > 0,
    decreases s.len(),
{
    if from.len() == 0 || s.len() < from.len() {
        s
    } else if occurs_at(s, from, 0) {
        to + replaced(s.subrange(from.len() as int, s.len() as int), from, to)
    } else {
        seq![s[0]] + replaced(s.drop_first(), from, to)
    }
}

/// Copies `s` with every occurrence of `from` replaced by `to`.
pub fn replace(s: &[u8], from: &[u8], to: &[u8]) -> (out: Vec<u8>)
    requires
        from@.len() > 0,
    ensures
        out@ == replaced(s@, from@, to@),
{
    let n: usize = s.len();
    let m: usize = from.len();
    let t: usize = to.len();
    let mut out: Vec<u8> = Vec::new();
    let mut i: usize = 0;
    proof {
        assert(s@.subrange(0, n as int) =~= s@);
        assert(out@ + replaced(s@, from@, to@) =~= replaced(s@, from@, to@));
    }
    while i < n
        invariant
            n == s@.len(),
            m == from@.len(),
            t == to@.len(),
            m > 0,
            i <= n,
            replaced(s@, from@, to@) == out@ + replaced(s@.subrange(i as int, n as int), from@, to@),
        decreases n - i,
    {
        let ghost rest = s@.subrange(i as int, n as int);
        let ghost before = out@;
        if m <= n - i && matches_at(s, from, i) {
            let mut k: usize = 0;
            while k < t
                invariant
                    t == to@.len(),
                    k <= t,
                    out@ == before + to@.subrange(0, k as int),
                decreases t - k,
            {
                out.push(to[k]);
                k += 1;
                assert(out@ =~= before + to@.subrange(0, k as int));
            }
            proof {
                assert(to@.subrange(0, t as int) =~= to@);
                assert(rest.subrange(0, m as int) =~= s@.subrange(i as int, i + m));
                assert(occurs_at(rest, from@, 0));
                let tail = s@.subrange(i + m, n as int);
                assert(rest.subrange(m as int, rest.len() as int) =~= tail);
                assert(before + (to@ + replaced(tail, from@, to@)) =~= (before + to@) + replaced(
                    tail,
                    from@,
                    to@,
                ));
            }
            i += m;
        } else {
            out.push(s[i]);
            proof {
                let tail = s@.subrange(i + 1, n as int);
                assert(rest.drop_first() =~= tail);
                assert(rest[0] == s@[i as int]);
                if m <= n - i {
                    assert(rest.subrange(0, m as int) =~= s@.subrange(i as int, i + m));
                    assert(!occurs_at(rest, from@, 0));
                    assert(replaced(rest, from@, to@) == seq![rest[0]] + replaced(tail, from@, to@));
                    assert(before + (seq![rest[0]] + replaced(tail, from@, to@)) =~= (before
                        + seq![rest[0]]) + replaced(tail, from@, to@));
                    assert(out@ =~= before + seq![rest[0]]);
                } else {
                    lemma_replaced_short(rest, from@, to@);
                    lemma_replaced_short(tail, from@, to@);
                    assert(out@ + tail =~= before + rest);
                }
            }
            i += 1;
        }
    }
    proof {
        assert(s@.subrange(n as int, n as int) =~= Seq::<u8>::empty());
        assert(out@ + Seq::<u8>::empty() =~= out@);
    }
    out
}

/// Nothing is replaced in what is shorter than what is looked for.
proof fn lemma_replaced_short<T>(s: Seq<T>, from: Seq<T>, to: Seq<T>)
    requires
        s.len() < from.len(),
    ensures
        replaced(s, from, to) == s,
{
}

/// Whether `pat` stands in `s` at the character `i`.
fn matches_str_at(s: &str, pat: &str, i: usize, n: usize, m: usize) -> (b: bool)
    requires
        n == s@.len(),
        m == pat@.len(),
        i + m <= n,
    ensures
        b == occurs_at(s@, pat@, i as int),
{
    let mut k: usize = 0;
    while k < m
        invariant
            n == s@.len(),
            m == pat@.len(),
            i + m <= n,
            k <= m,
            forall|t: int| 0 <= t < k ==> s@[i + t] == pat@[t],
        decreases m - k,
    {
        if s.get_char(i + k) != pat.get_char(k) {
            proof {
                let window = s@.subrange(i as int, i + m);
                assert(window[k as int] == s@[i + k]);
            }
            return false;
        }
        k += 1;
    }
    assert(s@.subrange(i as int, i + m) =~= pat@);
    true
}

/// Copies `s` with every occurrence of `from` replaced by `to`.
pub fn replace_str(s: &str, from: &str, to: &str) -> (out: String)
    requires
        from@.len() > 0,
    ensures
        out@ == replaced(s@, from@, to@),
{
    let n: usize = s.unicode_len();
    let m: usize = from.unicode_len();
    let mut out: String = String::new();
    let mut i: usize = 0;
    proof {
        assert(s@.subrange(0, n as int) =~= s@);
        assert(out@ + replaced(s@, from@, to@) =~= replaced(s@, from@, to@));
    }
    while i < n
        invariant
            n == s@.len(),
            m == from@.len(),
            m > 0,
            i <= n,
            replaced(s@, from@, to@) == out@ + replaced(s@.subrange(i as int, n as int), from@, to@),
        decreases n - i,
    {
        let ghost rest = s@.subrange(i as int, n as int);
        let ghost before = out@;
        if m <= n - i && matches_str_at(s, from, i, n, m) {
            out.append(to);
            proof {
                assert(rest.subrange(0, m as int) =~= s@.subrange(i as int, i + m));
                assert(occurs_at(rest, from@, 0));
                let tail = s@.subrange(i + m, n as int);
                assert(rest.subrange(m as int, rest.len() as int) =~= tail);
                assert(before + (to@ + replaced(tail, from@, to@)) =~= (before + to@) + replaced(
                    tail,
                    from@,
                    to@,
                ));
            }
            i += m;
        } else {
            out.append(s.substring_char(i, i + 1));
            proof {
                let tail = s@.subrange(i + 1, n as int);
                assert(rest.drop_first() =~= tail);
                assert(rest[0] == s@[i as int]);
                assert(s@.subrange(i as int, i + 1) =~= seq![rest[0]]);
                if m <= n - i {
                    assert(rest.subrange(0, m as int) =~= s@.subrange(i as int, i + m));
                    assert(!occurs_at(rest, from@, 0));
                    assert(replaced(rest, from@, to@) == seq![rest[0]] + replaced(tail, from@, to@));
                    assert(before + (seq![rest[0]] + replaced(tail, from@, to@)) =~= (before
                        + seq![rest[0]]) + replaced(tail, from@, to@));
                } else {
                    lemma_replaced_short(rest, from@, to@);
                    lemma_replaced_short(tail, from@, to@);
                    assert(out@ + tail =~= before + rest);
                }
            }
            i += 1;
        }
    }
    proof {
        assert(s@.subrange(n as int, n as int) =~= Seq::<char>::empty());
        assert(out@ + Seq::<char>::empty() =~= out@);
    }
    out
}

} // verus!

//! Text helpers: character views of strings, the few std string operations the
//! dashboard relies on, and small verified string algorithms.

use vstd::prelude::*;

verus! {

/// An optional string as characters.
pub open spec fn opt_view(o: Option<String>) -> Option<Seq<char>> {
    match o {
        Some(s) => Some(s@),
        None => None,
    }
}

/// Whether two strings have the same characters (std's `str == str`).
pub fn str_eq(a: &str, b: &str) -> (r: bool)
    ensures
        r == (a@ == b@),
{
    let x = chars_of(a);
    let y = chars_of(b);
    if x.len() != y.len() {
        return false;
    }
    let mut k: usize = 0;
    while k < x.len()
        invariant
            x@ == a@,
            y@ == b@,
            x@.len() == y@.len(),
            k <= x@.len(),
            forall|j: int| 0 <= j < k ==> x@[j] == y@[j],
        decreases x.len() - k,
    {
        if x[k] != y[k] {
            return false;
        }
        k = k + 1;
    }
    assert(x@ =~= y@);
    true
}

/// The characters of `s`, in order.
pub fn chars_of(s: &str) -> (v: Vec<char>)
    ensures
        v@ == s@,
{
    broadcast use vstd::string::group_string_axioms;
    let mut v: Vec<char> = Vec::new();
    for c in it: s.chars()
        invariant
            v@ == it.seq().take(it.index() as int),
    {
        v.push(c);
    }
    v
}

/// The string made of the characters of `v`.
pub fn string_from_chars(v: &Vec<char>) -> (s: String)
    ensures
        s@ == v@,
{
    let mut s = String::new();
    let mut k: usize = 0;
    while k < v.len()
        invariant
            k <= v@.len(),
            s@ == v@.subrange(0, k as int),
        decreases v.len() - k,
    {
        string_push(&mut s, v[k]);
        k = k + 1;
        assert(s@ =~= v@.subrange(0, k as int));
    }
    assert(v@.subrange(0, v@.len() as int) =~= v@);
    s
}

/// `String::push`: appends one character.
#[verifier::external_body]
pub(crate) fn string_push(s: &mut String, c: char)
    ensures
        final(s)@ == old(s)@.push(c),
{
    s.push(c)
}

/// `String::pop`: removes and returns the last character, if any.
#[verifier::external_body]
pub(crate) fn string_pop(s: &mut String) -> (r: Option<char>)
    ensures
        old(s)@.len() == 0 ==> r is None && final(s)@ == old(s)@,
        old(s)@.len() > 0 ==> r == Some(old(s)@.last()) && final(s)@ == old(s)@.drop_last(),
{
    s.pop()
}

/// What std's `str::to_lowercase` returns (Unicode lower-casing) for the characters `s`.
pub uninterp spec fn spec_to_lowercase(s: Seq<char>) -> Seq<char>;

/// std's `str::to_lowercase`; the result is named by `spec_to_lowercase`.
#[verifier::external_body]
pub(crate) fn to_lowercase(s: &str) -> (r: String)
    ensures
        r@ == spec_to_lowercase(s@),
{
    s.to_lowercase()
}

/// White space as std's `char::is_whitespace` defines it (the Unicode
/// White_Space property): tab to carriage return, space, next line,
/// no-break space, Ogham space mark, the spaces U+2000 to U+200A, line and
/// paragraph separators, narrow no-break space, medium mathematical space and
/// ideographic space.
pub open spec fn is_ws(c: char) -> bool {
    let x = c as int;
    (9 <= x <= 13) || x == 32 || x == 0x85 || x == 0xa0 || x == 0x1680 || (0x2000 <= x <= 0x200a)
        || x == 0x2028 || x == 0x2029 || x == 0x202f || x == 0x205f || x == 0x3000
}

fn is_ws_char(c: char) -> (b: bool)
    ensures
        b == is_ws(c),
{
    let x = c as u32;
    (9 <= x && x <= 13) || x == 32 || x == 0x85 || x == 0xa0 || x == 0x1680 || (0x2000 <= x && x <= 0x200a)
        || x == 0x2028 || x == 0x2029 || x == 0x202f || x == 0x205f || x == 0x3000
}

/// `s` without its leading white space.
pub open spec fn trim_start(s: Seq<char>) -> Seq<char>
    decreases s.len(),
{
    if s.len() > 0 && is_ws(s[0]) { trim_start(s.drop_first()) } else { s }
}

/// `s` without its trailing white space.
pub open spec fn trim_end(s: Seq<char>) -> Seq<char>
    decreases s.len(),
{
    if s.len() > 0 && is_ws(s.last()) { trim_end(s.drop_last()) } else { s }
}

/// What std's `str::trim` returns: `s` without leading and trailing white space.
pub open spec fn spec_trim(s: Seq<char>) -> Seq<char> {
    trim_end(trim_start(s))
}

/// `s` without leading and trailing white space (std's `str::trim`).
pub fn trim(s: &str) -> (r: String)
    ensures
        r@ == spec_trim(s@),
{
    let cs = chars_of(s);
    let n = cs.len();
    let mut i: usize = 0;
    assert(s@.skip(0) =~= s@);
    while i < n && is_ws_char(cs[i])
        invariant
            cs@ == s@,
            n == cs@.len(),
            i <= n,
            trim_start(s@) == trim_start(s@.skip(i as int)),
        decreases n - i,
    {
        assert(s@.skip(i as int).drop_first() =~= s@.skip(i + 1));
        i = i + 1;
    }
    assert(trim_start(s@) == s@.skip(i as int)) by {
        if i == n {
            assert(s@.skip(i as int).len() == 0);
        } else {
            assert(s@.skip(i as int)[0] == cs@[i as int]);
        }
    }
    let mut j: usize = n;
    assert(s@.subrange(i as int, n as int) =~= s@.skip(i as int));
    while j > i && is_ws_char(cs[j - 1])
        invariant
            cs@ == s@,
            n == cs@.len(),
            i <= j <= n,
            trim_start(s@) == s@.skip(i as int),
            spec_trim(s@) == trim_end(s@.subrange(i as int, j as int)),
        decreases j - i,
    {
        assert(s@.subrange(i as int, j as int).drop_last() =~= s@.subrange(i as int, j - 1));
        assert(s@.subrange(i as int, j as int).last() == cs@[j - 1]);
        j = j - 1;
    }
    assert(spec_trim(s@) == s@.subrange(i as int, j as int)) by {
        if j > i {
            assert(s@.subrange(i as int, j as int).last() == cs@[j - 1]);
        }
    }
    let mut out = String::new();
    let mut k: usize = i;
    while k < j
        invariant
            cs@ == s@,
            i <= k <= j <= n,
            n == cs@.len(),
            out@ == s@.subrange(i as int, k as int),
        decreases j - k,
    {
        string_push(&mut out, cs[k]);
        k = k + 1;
        assert(out@ =~= s@.subrange(i as int, k as int));
    }
    out
}

/// The pieces of `s` between its `\n`s, in order (one more than there are
/// `\n`s; the last is what follows the last `\n`).
pub open spec fn pieces(s: Seq<char>) -> Seq<Seq<char>>
    decreases s.len(),
{
    if s.len() == 0 {
        seq![Seq::empty()]
    } else {
        let p = pieces(s.drop_last());
        if s.last() == '\n' {
            p.push(Seq::empty())
        } else {
            p.update(p.len() - 1, p.last().push(s.last()))
        }
    }
}

/// A line that a `\n` ended, without the `\r` of a `\r\n` ending.
pub open spec fn strip_cr(l: Seq<char>) -> Seq<char> {
    if l.len() > 0 && l.last() == '\r' { l.drop_last() } else { l }
}

/// What std's `str::lines` yields for `s`: each line ended by `\n` or
/// `\r\n`, without its ending, then the last line when it is not empty (a
/// final line ending is optional).
pub open spec fn spec_lines(s: Seq<char>) -> Seq<Seq<char>> {
    let p = pieces(s);
    let ended = p.drop_last().map_values(|l: Seq<char>| strip_cr(l));
    if p.last().len() == 0 { ended } else { ended.push(p.last()) }
}

pub proof fn lemma_pieces_len(s: Seq<char>)
    ensures
        pieces(s).len() >= 1,
    decreases s.len(),
{
    if s.len() > 0 {
        lemma_pieces_len(s.drop_last());
    }
}

/// The string of the characters `v`, without a final `\r`.
fn without_cr(v: Vec<char>) -> (s: String)
    ensures
        s@ == strip_cr(v@),
{
    let mut v = v;
    if v.len() > 0 && v[v.len() - 1] == '\r' {
        let ghost before = v@;
        v.pop();
        assert(v@ =~= before.drop_last());
    }
    string_from_chars(&v)
}

/// The lines of `s`, as std's `str::lines` splits them (see [`spec_lines`]).
pub fn lines(s: &str) -> (r: Vec<String>)
    ensures
        r@.map_values(|l: String| l@) == spec_lines(s@),
{
    let cs = chars_of(s);
    let mut out: Vec<String> = Vec::new();
    let mut cur: Vec<char> = Vec::new();
    let mut k: usize = 0;
    assert(s@.take(0) =~= Seq::<char>::empty());
    assert(out@.map_values(|l: String| l@) =~= pieces(s@.take(0)).drop_last().map_values(|l: Seq<char>| strip_cr(l)));
    while k < cs.len()
        invariant
            cs@ == s@,
            k <= cs@.len(),
            pieces(s@.take(k as int)).len() >= 1,
            out@.map_values(|l: String| l@) == pieces(s@.take(k as int)).drop_last().map_values(|l: Seq<char>| strip_cr(l)),
            cur@ == pieces(s@.take(k as int)).last(),
        decreases cs.len() - k,
    {
        let c = cs[k];
        let ghost p = pieces(s@.take(k as int));
        proof {
            assert(s@.take(k + 1).drop_last() =~= s@.take(k as int));
            assert(s@.take(k + 1).last() == c);
        }
        if c == '\n' {
            let ghost ov = out@.map_values(|l: String| l@);
            let line = without_cr(cur);
            out.push(line);
            cur = Vec::new();
            proof {
                let q = p.push(Seq::<char>::empty());
                assert(pieces(s@.take(k + 1)) == q);
                assert(q.drop_last() =~= p);
                assert(p =~= p.drop_last().push(p.last()));
                assert(out@.map_values(|l: String| l@) =~= ov.push(strip_cr(p.last())));
                assert(p.map_values(|l: Seq<char>| strip_cr(l)) =~= p.drop_last().map_values(|l: Seq<char>| strip_cr(l)).push(strip_cr(p.last())));
                assert(cur@ =~= q.last());
            }
        } else {
            cur.push(c);
            proof {
                let q = p.update(p.len() - 1, p.last().push(c));
                assert(pieces(s@.take(k + 1)) == q);
                assert(q.drop_last() =~= p.drop_last());
                assert(cur@ =~= q.last());
            }
        }
        k = k + 1;
    }
    proof {
        assert(s@.take(cs@.len() as int) =~= s@);
    }
    if cur.len() > 0 {
        let ghost ov = out@.map_values(|l: String| l@);
        out.push(string_from_chars(&cur));
        proof {
            assert(out@.map_values(|l: String| l@) =~= ov.push(cur@));
        }
    }
    out
}

/// What std's `Path::join` returns for a base path and a part, both as characters.
pub uninterp spec fn spec_path_join(base: Seq<char>, part: Seq<char>) -> Seq<char>;

/// std's `Path::join` on UTF-8 paths; the result is named by `spec_path_join`.
#[verifier::external_body]
pub(crate) fn path_join(base: &str, part: &str) -> (r: String)
    ensures
        r@ == spec_path_join(base@, part@),
{
    std::path::Path::new(base).join(part).to_string_lossy().into_owned()
}

/// What std's `Path::file_name` returns for a path, as characters.
pub uninterp spec fn spec_file_name(path: Seq<char>) -> Option<Seq<char>>;

/// std's `Path::file_name` on a UTF-8 path; the result is named by `spec_file_name`.
#[verifier::external_body]
pub(crate) fn file_name(path: &str) -> (r: Option<String>)
    ensures
        r.is_some() == spec_file_name(path@).is_some(),
        r matches Some(n) ==> n@ == spec_file_name(path@).unwrap(),
{
    std::path::Path::new(path).file_name().map(|n| n.to_string_lossy().into_owned())
}

/// Whether `q` occurs in `s` as a (not necessarily contiguous) subsequence:
/// the empty query occurs everywhere; otherwise the first character of `q` is
/// matched by the earliest equal character of `s` and the rest is matched after it.
pub open spec fn is_subseq(q: Seq<char>, s: Seq<char>) -> bool
    decreases s.len(),
{
    if q.len() == 0 {
        true
    } else if s.len() == 0 {
        false
    } else if q[0] == s[0] {
        is_subseq(q.drop_first(), s.drop_first())
    } else {
        is_subseq(q, s.drop_first())
    }
}

/// `subseq` in the picker sense: whether the query `q` is a subsequence of `s`.
pub fn subseq(q: &str, s: &str) -> (r: bool)
    ensures
        r == is_subseq(q@, s@),
{
    let qc = chars_of(q);
    let sc = chars_of(s);
    let mut j: usize = 0;
    let mut i: usize = 0;
    assert(qc@.subrange(0, qc@.len() as int) =~= qc@);
    assert(sc@.subrange(0, sc@.len() as int) =~= sc@);
    while i < sc.len()
        invariant
            qc@ == q@,
            sc@ == s@,
            i <= sc@.len(),
            j <= qc@.len(),
            is_subseq(q@, s@) == is_subseq(qc@.subrange(j as int, qc@.len() as int), sc@.subrange(i as int, sc@.len() as int)),
        decreases sc.len() - i,
    {
        if j == qc.len() {
            return true;
        }
        let ghost qs = qc@.subrange(j as int, qc@.len() as int);
        let ghost ss = sc@.subrange(i as int, sc@.len() as int);
        assert(ss.drop_first() =~= sc@.subrange(i + 1, sc@.len() as int));
        if qc[j] == sc[i] {
            assert(qs.drop_first() =~= qc@.subrange(j + 1, qc@.len() as int));
            j = j + 1;
        }
        i = i + 1;
    }
    let ghost qs = qc@.subrange(j as int, qc@.len() as int);
    let ghost ss = sc@.subrange(i as int, sc@.len() as int);
    assert(ss.len() == 0);
    j == qc.len()
}


/// `p` occurs in `s` starting at position `i`.
pub open spec fn occurs_at(s: Seq<char>, p: Seq<char>, i: int) -> bool {
    0 <= i && i + p.len() <= s.len() && s.subrange(i, i + p.len()) == p
}

/// `s` with the first occurrence of `p` replaced by `r` (std's `replacen(p, r, 1)`);
/// `s` itself when `p` does not occur. An empty `p` occurs at position 0.
pub open spec fn replace_first(s: Seq<char>, p: Seq<char>, r: Seq<char>) -> Seq<char> {
    if exists|i: int| occurs_at(s, p, i) {
        let i = choose|i: int| occurs_at(s, p, i) && forall|j: int| 0 <= j < i ==> !occurs_at(s, p, j);
        s.subrange(0, i) + r + s.subrange(i + p.len(), s.len() as int)
    } else {
        s
    }
}

/// Whether `pc` occurs in `sc` at position `i` (characters compared one by one).
fn occurs_here(sc: &Vec<char>, pc: &Vec<char>, i: usize) -> (r: bool)
    requires
        i + pc@.len() <= sc@.len(),
    ensures
        r == occurs_at(sc@, pc@, i as int),
{
    let mut k: usize = 0;
    while k < pc.len()
        invariant
            i + pc.len() <= sc.len(),
            k <= pc@.len(),
            forall|m: int| 0 <= m < k ==> sc@[i + m] == pc@[m],
        decreases pc.len() - k,
    {
        if sc[i + k] != pc[k] {
            assert(sc@.subrange(i as int, i + pc@.len())[k as int] != pc@[k as int]);
            return false;
        }
        k = k + 1;
    }
    assert(sc@.subrange(i as int, i + pc@.len()) =~= pc@);
    true
}

/// `s` with the first occurrence of `p` replaced by `r` (std's `str::replacen(p, r, 1)`).
pub fn replace_first_str(s: &str, p: &str, r: &str) -> (out: String)
    ensures
        out@ == replace_first(s@, p@, r@),
{
    let sc = chars_of(s);
    let pc = chars_of(p);
    if pc.len() > sc.len() {
        assert(!exists|i: int| occurs_at(s@, p@, i));
        return s.to_owned();
    }
    let last = sc.len() - pc.len();
    let mut i: usize = 0;
    loop
        invariant
            sc@ == s@,
            pc@ == p@,
            last == sc@.len() - pc@.len(),
            i <= last,
            forall|j: int| 0 <= j < i ==> !occurs_at(s@, p@, j),
        ensures
            forall|j: int| 0 <= j <= last ==> !occurs_at(s@, p@, j),
        decreases last - i,
    {
        if occurs_here(&sc, &pc, i) {
            let ghost first = choose|x: int| occurs_at(s@, p@, x) && forall|j: int| 0 <= j < x ==> !occurs_at(s@, p@, j);
            assert(occurs_at(s@, p@, i as int));
            let n = sc.len();
            assert(i + pc@.len() <= n);
            let after = i + pc.len();
            assert(first == i) by {
                if first < i {
                } else if first > i {
                }
            }
            let mut out: Vec<char> = Vec::new();
            let mut k: usize = 0;
            while k < i
                invariant
                    sc@ == s@,
                    k <= i <= sc@.len(),
                    out@ == sc@.subrange(0, k as int),
                decreases i - k,
            {
                out.push(sc[k]);
                k = k + 1;
                assert(out@ =~= sc@.subrange(0, k as int));
            }
            let rc = chars_of(r);
            let mut m: usize = 0;
            while m < rc.len()
                invariant
                    out@ == sc@.subrange(0, i as int) + rc@.subrange(0, m as int),
                    m <= rc@.len(),
                decreases rc.len() - m,
            {
                out.push(rc[m]);
                m = m + 1;
                assert(out@ =~= sc@.subrange(0, i as int) + rc@.subrange(0, m as int));
            }
            assert(rc@.subrange(0, rc@.len() as int) =~= rc@);
            let mut k2: usize = after;
            while k2 < sc.len()
                invariant
                    sc@ == s@,
                    after == i + pc@.len(),
                    after <= k2 <= sc@.len(),
                    out@ == sc@.subrange(0, i as int) + rc@ + sc@.subrange(i + pc@.len(), k2 as int),
                decreases sc.len() - k2,
            {
                out.push(sc[k2]);
                k2 = k2 + 1;
                assert(out@ =~= sc@.subrange(0, i as int) + rc@ + sc@.subrange(i + pc@.len(), k2 as int));
            }
            return string_from_chars(&out);
        }
        if i == last {
            break;
        }
        i = i + 1;
    }
    assert forall|j: int| !occurs_at(s@, p@, j) by {
        if 0 <= j <= last {
        }
    }
    s.to_owned()
}

/// The characters of `s` after its last `c` (all of `s` when it holds no `c`):
/// what std's `s.rsplit(c).next()` yields.
pub open spec fn after_last(s: Seq<char>, c: char) -> Seq<char>
    decreases s.len(),
{
    if s.len() == 0 {
        s
    } else if s.last() == c {
        Seq::empty()
    } else {
        after_last(s.drop_last(), c).push(s.last())
    }
}

/// The part of `s` after its last `c` (std's `s.rsplit(c).next()`, which always yields).
pub fn after_last_str(s: &str, c: char) -> (out: String)
    ensures
        out@ == after_last(s@, c),
{
    let sc = chars_of(s);
    let mut start: usize = sc.len();
    assert(sc@.subrange(0, start as int) =~= sc@);
    assert(sc@.subrange(start as int, start as int) =~= Seq::<char>::empty());
    assert(after_last(s@, c) =~= after_last(s@, c) + Seq::<char>::empty());
    while start > 0 && sc[start - 1] != c
        invariant
            sc@ == s@,
            start <= sc@.len(),
            after_last(s@, c) == after_last(sc@.subrange(0, start as int), c) + sc@.subrange(start as int, sc@.len() as int),
        decreases start,
    {
        let ghost pre = sc@.subrange(0, start as int);
        assert(pre.drop_last() =~= sc@.subrange(0, start - 1));
        assert(sc@.subrange(start - 1, sc@.len() as int) =~= seq![pre.last()] + sc@.subrange(start as int, sc@.len() as int));
        start = start - 1;
        assert(after_last(s@, c) =~= after_last(sc@.subrange(0, start as int), c) + sc@.subrange(start as int, sc@.len() as int));
    }
    let mut out: Vec<char> = Vec::new();
    let mut k: usize = start;
    while k < sc.len()
        invariant
            sc@ == s@,
            start <= k <= sc@.len(),
            out@ == sc@.subrange(start as int, k as int),
        decreases sc.len() - k,
    {
        out.push(sc[k]);
        k = k + 1;
        assert(out@ =~= sc@.subrange(start as int, k as int));
    }
    proof {
        let pre = sc@.subrange(0, start as int);
        if start > 0 {
            assert(pre.last() == c);
        } else {
            assert(pre.len() == 0);
        }
        assert(after_last(pre, c) =~= Seq::<char>::empty());
        assert(after_last(s@, c) =~= out@);
    }
    string_from_chars(&out)
}

} // verus!

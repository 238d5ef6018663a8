//! The most-recently-opened projects (newline-separated absolute paths), so
//! the welcome screen can resume one and the picker can put them first; and
//! paths shown relative to the home directory.

use vstd::prelude::*;
use vstd::string::StringExecFns;
use crate::text::{spec_lines, spec_trim, lines, trim, pieces, strip_cr, lemma_pieces_len, replace_first, replace_first_str, spec_path_join, path_join};

verus! {

/// How many recent projects are kept.
pub const RECENTS_MAX: usize = 20;

/// What std's `Path == Path` (component-wise comparison) says of two paths.
pub uninterp spec fn spec_path_eq(a: Seq<char>, b: Seq<char>) -> bool;

/// std's `Path::eq` on UTF-8 paths; named by `spec_path_eq`. Equal strings
/// are equal paths (`Path` is `Eq`).
#[verifier::external_body]
fn path_eq(a: &str, b: &str) -> (r: bool)
    ensures
        r == spec_path_eq(a@, b@),
        a@ == b@ ==> r,
{
    std::path::Path::new(a) == std::path::Path::new(b)
}

/// dirs' `home_dir`: the user's home directory, as a string; when there is one
/// it is not empty (dirs returns `None` for an unset or empty `$HOME` with no
/// password-database entry).
#[verifier::external_body]
fn home_dir() -> (r: Option<String>)
    ensures
        r matches Some(h) ==> h@.len() > 0,
{
    dirs::home_dir().map(|p| p.to_string_lossy().into_owned())
}

/// The home directory, or the empty path when there is none.
pub fn home_or_empty() -> (r: String) {
    match home_dir() {
        Some(h) => h,
        None => String::new(),
    }
}

/// Not a blank line.
pub open spec fn not_blank() -> spec_fn(Seq<char>) -> bool {
    |l: Seq<char>| spec_trim(l).len() > 0
}

/// The recent projects stored in `content`: its non-blank lines, in order.
pub open spec fn spec_parse_recents(content: Seq<char>) -> Seq<Seq<char>> {
    spec_lines(content).filter(not_blank())
}

/// list's parsing step: the recent projects stored in a file's contents.
pub fn parse_recents(content: &str) -> (r: Vec<String>)
    ensures
        r@.map_values(|s: String| s@) == spec_parse_recents(content@),
{
    let ls = lines(content);
    let ghost all = ls@.map_values(|s: String| s@);
    let mut out: Vec<String> = Vec::new();
    let mut k: usize = 0;
    while k < ls.len()
        invariant
            all == ls@.map_values(|s: String| s@),
            all == spec_lines(content@),
            k <= ls@.len(),
            out@.map_values(|s: String| s@) == all.take(k as int).filter(not_blank()),
        decreases ls.len() - k,
    {
        let ghost e = ls@[k as int]@;
        proof {
            assert(all.take(k + 1) =~= all.take(k as int).push(e));
            all.take(k as int).lemma_filter_push(e, not_blank());
        }
        let t = trim(ls[k].as_str());
        if !t.as_str().is_empty() {
            let ghost before = out@;
            out.push(ls[k].clone());
            proof {
                assert(out@.map_values(|s: String| s@) =~= before.map_values(|s: String| s@).push(e));
            }
        }
        k = k + 1;
    }
    proof {
        assert(all.take(all.len() as int) =~= all);
    }
    out
}

/// Not the same path as `p`.
pub open spec fn other_than(p: Seq<char>) -> spec_fn(Seq<char>) -> bool {
    |q: Seq<char>| !spec_path_eq(q, p)
}

/// The recents after opening `path`: it moves to the front, any other entry
/// for the same path is dropped, and only the first twenty are kept.
pub open spec fn spec_push_recent(list: Seq<Seq<char>>, path: Seq<char>) -> Seq<Seq<char>> {
    let l = seq![path] + list.filter(other_than(path));
    if l.len() > RECENTS_MAX { l.take(RECENTS_MAX as int) } else { l }
}

/// push's list step: the recents after opening `path`.
pub fn push_recent(list: &Vec<String>, path: &str) -> (r: Vec<String>)
    ensures
        r@.map_values(|s: String| s@) == spec_push_recent(list@.map_values(|s: String| s@), path@),
{
    let ghost lv = list@.map_values(|s: String| s@);
    let ghost pred = other_than(path@);
    let mut out: Vec<String> = Vec::new();
    out.push(path.to_owned());
    let mut k: usize = 0;
    while k < list.len()
        invariant
            lv == list@.map_values(|s: String| s@),
            pred == other_than(path@),
            k <= list@.len(),
            out@.map_values(|s: String| s@) == seq![path@] + lv.take(k as int).filter(pred),
        decreases list.len() - k,
    {
        let ghost e = list@[k as int]@;
        proof {
            assert(lv.take(k + 1) =~= lv.take(k as int).push(e));
            lv.take(k as int).lemma_filter_push(e, pred);
        }
        if !path_eq(list[k].as_str(), path) {
            let ghost before = out@;
            out.push(list[k].clone());
            proof {
                assert(out@.map_values(|s: String| s@) =~= before.map_values(|s: String| s@).push(e));
            }
        }
        k = k + 1;
    }
    proof {
        assert(lv.take(lv.len() as int) =~= lv);
    }
    if out.len() > RECENTS_MAX {
        out.truncate(RECENTS_MAX);
        proof {
            assert(out@.map_values(|s: String| s@) =~= (seq![path@] + lv.filter(pred)).take(RECENTS_MAX as int));
        }
    }
    out
}

/// The lines joined with `\n` (no trailing newline).
pub open spec fn join_lines(list: Seq<Seq<char>>) -> Seq<char>
    decreases list.len(),
{
    if list.len() == 0 {
        Seq::empty()
    } else if list.len() == 1 {
        list[0]
    } else {
        join_lines(list.drop_last()) + "\n"@ + list.last()
    }
}

/// push's storing step: the file contents for a recents list.
pub fn join_recents(list: &Vec<String>) -> (r: String)
    ensures
        r@ == join_lines(list@.map_values(|s: String| s@)),
{
    let ghost lv = list@.map_values(|s: String| s@);
    let mut out = String::new();
    let mut k: usize = 0;
    while k < list.len()
        invariant
            lv == list@.map_values(|s: String| s@),
            k <= list@.len(),
            out@ == join_lines(lv.take(k as int)),
        decreases list.len() - k,
    {
        proof {
            assert(lv.take(k + 1).drop_last() =~= lv.take(k as int));
        }
        if k > 0 {
            out.append("\n");
        } else {
            assert(lv.take(0) =~= Seq::<Seq<char>>::empty());
        }
        out.append(list[k].as_str());
        k = k + 1;
    }
    proof {
        assert(lv.take(lv.len() as int) =~= lv);
    }
    out
}

/// display_under shows `path` relative to `home` (`~/work/acme-web`): the
/// first occurrence of `home` becomes `~`.
pub fn display_under(path: &str, home: &str) -> (r: String)
    ensures
        r@ == replace_first(path@, home@, "~"@),
{
    replace_first_str(path, home, "~")
}

/// display relativizes a path against the home directory for the UI.
pub fn display(path: &str) -> (r: String)
    ensures
        exists|home: Seq<char>| r@ == replace_first(path@, home, "~"@),
{
    let home = home_or_empty();
    display_under(path, home.as_str())
}

/// The database path under a home directory: `<home>/.omni/state.db`.
pub open spec fn spec_db_path_under(home: Seq<char>) -> Seq<char> {
    spec_path_join(spec_path_join(home, ".omni"@), "state.db"@)
}

/// db_path is where the status database lives: `override_path` (the `OMNI_DB`
/// environment variable) when set, else `~/.omni/state.db`.
pub fn db_path(override_path: Option<String>) -> (r: String)
    ensures
        override_path matches Some(p) ==> r@ == p@,
        override_path is None ==> exists|home: Seq<char>| r@ == spec_db_path_under(home),
{
    match override_path {
        Some(p) => p,
        None => {
            let home = home_or_empty();
            let a = path_join(home.as_str(), ".omni");
            let r = path_join(a.as_str(), "state.db");
            assert(r@ == spec_db_path_under(home@));
            r
        },
    }
}

/// The recents file under a home directory: `<home>/.omni/recents`.
pub fn recents_file(home: &str) -> (r: String)
    ensures
        r@ == spec_path_join(spec_path_join(home@, ".omni"@), "recents"@),
{
    let a = path_join(home, ".omni");
    path_join(a.as_str(), "recents")
}

/// A recent project that the recents file can hold: a non-blank path with no
/// line break in it.
pub open spec fn storable(e: Seq<char>) -> bool {
    &&& e.len() > 0
    &&& !e.contains('\n')
    &&& spec_trim(e).len() > 0
}

/// A line ends in `\r` (which a following `\n` would turn into a `\r\n`
/// ending).
pub open spec fn ends_in_cr(e: Seq<char>) -> bool {
    e.len() > 0 && e.last() == '\r'
}

/// Text with no `\n` extends the last piece only.
proof fn lemma_pieces_plain(s: Seq<char>, e: Seq<char>)
    requires
        !e.contains('\n'),
    ensures
        pieces(s + e) == pieces(s).update(pieces(s).len() - 1, pieces(s).last() + e),
    decreases e.len(),
{
    lemma_pieces_len(s);
    if e.len() == 0 {
        assert(s + e =~= s);
        assert(pieces(s).last() + e =~= pieces(s).last());
        assert(pieces(s).update(pieces(s).len() - 1, pieces(s).last()) =~= pieces(s));
    } else {
        let e2 = e.drop_last();
        assert(!e2.contains('\n')) by {
            if e2.contains('\n') {
                let i = choose|i: int| 0 <= i < e2.len() && e2[i] == '\n';
                assert(e[i] == '\n');
            }
        }
        assert(e.last() != '\n') by {
            assert(e[e.len() - 1] == e.last());
        }
        lemma_pieces_plain(s, e2);
        assert((s + e).drop_last() =~= s + e2);
        assert((s + e).last() == e.last());
        lemma_pieces_len(s + e2);
        let p = pieces(s);
        let q = pieces(s + e2);
        assert(q.last() == p.last() + e2);
        assert(q.last().push(e.last()) =~= p.last() + e);
        assert(q.update(q.len() - 1, q.last().push(e.last())) =~= p.update(p.len() - 1, p.last() + e));
    }
}

/// Joining lines with no `\n` in them and cutting at the `\n`s gives the lines back.
proof fn lemma_pieces_join(l: Seq<Seq<char>>)
    requires
        l.len() >= 1,
        forall|i: int| 0 <= i < l.len() ==> !(#[trigger] l[i]).contains('\n'),
    ensures
        pieces(join_lines(l)) == l,
    decreases l.len(),
{
    reveal_strlit("\n");
    if l.len() == 1 {
        lemma_pieces_plain(Seq::empty(), l[0]);
        assert(Seq::<char>::empty() + l[0] =~= l[0]);
        assert(pieces(Seq::<char>::empty()) == seq![Seq::<char>::empty()]);
        assert(Seq::<char>::empty() + l[0] =~= l[0]);
        assert(seq![Seq::<char>::empty()].update(0, Seq::<char>::empty() + l[0]) =~= l);
    } else {
        let l2 = l.drop_last();
        assert forall|i: int| 0 <= i < l2.len() implies !(#[trigger] l2[i]).contains('\n') by {
            assert(l2[i] == l[i]);
        }
        lemma_pieces_join(l2);
        let j = join_lines(l2);
        let jn = j.push('\n');
        assert(j + "\n"@ =~= jn);
        assert(jn.drop_last() =~= j);
        assert(pieces(jn) == l2.push(Seq::<char>::empty()));
        assert(!l[l.len() - 1].contains('\n'));
        lemma_pieces_plain(jn, l.last());
        let p = l2.push(Seq::<char>::empty());
        assert(Seq::<char>::empty() + l.last() =~= l.last());
        assert(p.update(p.len() - 1, Seq::<char>::empty() + l.last()) =~= l);
    }
}

/// Keeping the entries that pass, when all of them pass, keeps them all.
proof fn lemma_filter_all<A>(s: Seq<A>, f: spec_fn(A) -> bool)
    requires
        forall|i: int| 0 <= i < s.len() ==> f(#[trigger] s[i]),
    ensures
        s.filter(f) == s,
    decreases s.len(),
{
    if s.len() > 0 {
        let t = s.drop_last();
        assert(s =~= t.push(s.last()));
        assert forall|i: int| 0 <= i < t.len() implies f(#[trigger] t[i]) by {
            assert(t[i] == s[i]);
        }
        lemma_filter_all(t, f);
        t.lemma_filter_push(s.last(), f);
        assert(f(s[s.len() - 1]));
    } else {
        assert(s.filter(f) =~= s) by {
            reveal(Seq::filter);
        }
    }
}

/// Writing a list of storable recents and reading the file back gives the
/// list, unless an entry before the last ends in `\r` (its `\r\n` then reads
/// back as a line ending).
pub proof fn lemma_read_back(l: Seq<Seq<char>>)
    requires
        forall|i: int| 0 <= i < l.len() ==> storable(#[trigger] l[i]),
        forall|i: int| 0 <= i < l.len() - 1 ==> !ends_in_cr(#[trigger] l[i]),
    ensures
        spec_parse_recents(join_lines(l)) == l,
{
    if l.len() == 0 {
        assert(pieces(Seq::<char>::empty()) == seq![Seq::<char>::empty()]);
        assert(spec_lines(join_lines(l)) =~= Seq::<Seq<char>>::empty());
        lemma_filter_all(Seq::<Seq<char>>::empty(), not_blank());
        assert(spec_lines(join_lines(l)) =~= l);
    } else {
        lemma_pieces_join(l);
        let ended = l.drop_last().map_values(|x: Seq<char>| strip_cr(x));
        assert(ended =~= l.drop_last()) by {
            assert forall|i: int| 0 <= i < ended.len() implies ended[i] == l.drop_last()[i] by {
                assert(storable(l[i]));
                assert(!ends_in_cr(l[i]));
            }
        }
        assert(l.last().len() > 0) by {
            assert(storable(l[l.len() - 1]));
        }
        assert(spec_lines(join_lines(l)) =~= l);
        lemma_filter_all(l, not_blank());
    }
}

} // verus!

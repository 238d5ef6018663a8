//! The walk that finds the git repositories under the home directory, as a
//! state machine: the caller reads the directories, the walk decides which to
//! visit next, where to stop, and what to record.

use vstd::prelude::*;
use crate::cli::{spec_skip_dir, skip_dir, scan_limit_reached};
use crate::text::{spec_path_join, path_join};

verus! {

/// A walk in progress: the directories still to visit (with their depth),
/// how many have been visited, and the repositories found so far.
pub struct Scan {
    pub stack: Vec<(String, usize)>,
    pub visited: usize,
    pub found: Vec<String>,
}

pub struct ScanView {
    pub stack: Seq<(Seq<char>, usize)>,
    pub visited: usize,
    pub found: Seq<Seq<char>>,
}

impl View for Scan {
    type V = ScanView;

    open spec fn view(&self) -> ScanView {
        ScanView {
            stack: self.stack@.map_values(|e: (String, usize)| (e.0@, e.1)),
            visited: self.visited,
            found: self.found@.map_values(|s: String| s@),
        }
    }
}

/// The walk stops going deeper than 7 levels and after 30000 directories.
pub open spec fn over_limit(depth: usize, visited: usize) -> bool {
    depth > 7 || visited > 30000
}

/// The next directory to visit: entries are taken from the top of the stack,
/// and those over the limit are dropped. Returns the stack left and the
/// directory (with its depth), or `None` once the stack runs out.
pub open spec fn next_dir(stack: Seq<(Seq<char>, usize)>, visited: usize) -> (Seq<(Seq<char>, usize)>, Option<(Seq<char>, usize)>)
    decreases stack.len(),
{
    if stack.len() == 0 {
        (stack, None)
    } else if over_limit(stack.last().1, visited) {
        next_dir(stack.drop_last(), visited)
    } else {
        (stack.drop_last(), Some(stack.last()))
    }
}

/// A subdirectory the walk may enter: not hidden and not pruned.
pub open spec fn kept_name() -> spec_fn(Seq<char>) -> bool {
    |s: Seq<char>| !spec_skip_dir(s)
}

/// The stack entries for the subdirectories of `dir` that the walk enters,
/// in the order given, one level deeper.
pub open spec fn children(dir: Seq<char>, depth: usize, subdirs: Seq<Seq<char>>) -> Seq<(Seq<char>, usize)> {
    subdirs.filter(kept_name()).map_values(|s: Seq<char>| (spec_path_join(dir, s), (depth + 1) as usize))
}

impl Scan {
    /// A walk that starts at `root`, at depth 0.
    pub fn new(root: &str) -> (s: Scan)
        ensures
            s@.stack == seq![(root@, 0usize)],
            s@.visited == 0,
            s@.found == Seq::<Seq<char>>::empty(),
    {
        let mut stack: Vec<(String, usize)> = Vec::new();
        stack.push((root.to_owned(), 0));
        let s = Scan { stack, visited: 0, found: Vec::new() };
        assert(s@.stack =~= seq![(root@, 0usize)]);
        assert(s@.found =~= Seq::<Seq<char>>::empty());
        s
    }

    /// scan_next takes the next directory to visit (see [`next_dir`]) and
    /// counts it as visited; `None` when the walk is over.
    pub fn scan_next(&mut self) -> (r: Option<(String, usize)>)
        ensures
            ({
                let (rest, next) = next_dir(old(self)@.stack, old(self)@.visited);
                &&& final(self)@.stack == rest
                &&& match r {
                    Some(e) => next == Some((e.0@, e.1)),
                    None => next is None,
                }
                &&& final(self)@.visited == if next is Some { old(self)@.visited + 1 } else { old(self)@.visited as int }
                &&& final(self)@.found == old(self)@.found
            }),
    {
        loop
            invariant
                next_dir(old(self)@.stack, old(self)@.visited) == next_dir(self@.stack, self@.visited),
                self@.visited == old(self)@.visited,
                self@.found == old(self)@.found,
            decreases self.stack.len(),
        {
            let ghost before = self@.stack;
            proof {
                if self.stack@.len() > 0 {
                    assert(self@.stack.drop_last() =~= self.stack@.drop_last().map_values(|e: (String, usize)| (e.0@, e.1)));
                }
            }
            match self.stack.pop() {
                None => {
                    return None;
                },
                Some(e) => {
                    assert(self@.stack =~= before.drop_last());
                    if scan_limit_reached(e.1, self.visited) {
                    } else {
                        self.visited = self.visited + 1;
                        return Some(e);
                    }
                },
            }
        }
    }

    /// scan_visit records what was found at `dir` (at `depth`): a repository
    /// is recorded and not descended into; otherwise the subdirectories the
    /// walk may enter (`subdirs`, the directory names read there) are pushed,
    /// in order, one level deeper.
    pub fn scan_visit(&mut self, dir: &str, depth: usize, is_repo: bool, subdirs: &Vec<String>)
        requires
            depth < usize::MAX,
        ensures
            final(self)@.visited == old(self)@.visited,
            is_repo ==> final(self)@.found == old(self)@.found.push(dir@) && final(self)@.stack == old(self)@.stack,
            !is_repo ==> final(self)@.found == old(self)@.found
                && final(self)@.stack == old(self)@.stack + children(dir@, depth, subdirs@.map_values(|s: String| s@)),
    {
        if is_repo {
            let ghost before = self@.found;
            self.found.push(dir.to_owned());
            assert(self@.found =~= before.push(dir@));
            return;
        }
        let ghost names = subdirs@.map_values(|s: String| s@);
        let ghost base = self@.stack;
        let ghost f = |s: Seq<char>| (spec_path_join(dir@, s), (depth + 1) as usize);
        let mut k: usize = 0;
        while k < subdirs.len()
            invariant
                names == subdirs@.map_values(|s: String| s@),
                f == (|s: Seq<char>| (spec_path_join(dir@, s), (depth + 1) as usize)),
                depth < usize::MAX,
                k <= subdirs@.len(),
                self@.stack == base + names.take(k as int).filter(kept_name()).map_values(f),
                self@.found == old(self)@.found,
                self@.visited == old(self)@.visited,
            decreases subdirs.len() - k,
        {
            let ghost e = names[k as int];
            proof {
                assert(names.take(k + 1) =~= names.take(k as int).push(e));
                names.take(k as int).lemma_filter_push(e, kept_name());
            }
            if !skip_dir(subdirs[k].as_str()) {
                let child = path_join(dir, subdirs[k].as_str());
                let ghost st = self@.stack;
                self.stack.push((child, depth + 1));
                proof {
                    let fl = names.take(k as int).filter(kept_name());
                    assert(fl.push(e).map_values(f) =~= fl.map_values(f).push(f(e)));
                    assert(self@.stack =~= st.push(f(e)));
                }
            } else {
                assert(names.take(k + 1).filter(kept_name()) == names.take(k as int).filter(kept_name()));
            }
            k = k + 1;
        }
        proof {
            assert(names.take(names.len() as int) =~= names);
        }
    }
}

/// How `next_dir` leaves the stack: a prefix of it stays; what was taken
/// off above the returned entry was over the limit; with nothing returned,
/// every entry was over the limit.
pub proof fn lemma_next_dir(stack: Seq<(Seq<char>, usize)>, visited: usize)
    ensures
        ({
            let (rest, next) = next_dir(stack, visited);
            &&& next is None ==> rest.len() == 0 && forall|i: int| 0 <= i < stack.len() ==> over_limit(#[trigger] stack[i].1, visited)
            &&& next matches Some(e) ==> {
                &&& rest.len() < stack.len()
                &&& rest == stack.take(rest.len() as int)
                &&& e == stack[rest.len() as int]
                &&& !over_limit(e.1, visited)
                &&& forall|i: int| rest.len() < i < stack.len() ==> over_limit(#[trigger] stack[i].1, visited)
            }
        }),
    decreases stack.len(),
{
    if stack.len() > 0 {
        let t = stack.drop_last();
        lemma_next_dir(t, visited);
        let n = stack.len() as int;
        if over_limit(stack.last().1, visited) {
            assert(next_dir(stack, visited) == next_dir(t, visited));
            let (rest, next) = next_dir(t, visited);
            match next {
                None => {
                    assert forall|i: int| 0 <= i < n implies over_limit(#[trigger] stack[i].1, visited) by {
                        if i < n - 1 {
                            assert(stack[i] == t[i]);
                        }
                    }
                },
                Some(e) => {
                    let r = rest.len() as int;
                    assert(rest =~= stack.take(r));
                    assert(e == stack[r]);
                    assert forall|i: int| r < i < n implies over_limit(#[trigger] stack[i].1, visited) by {
                        if i < n - 1 {
                            assert(stack[i] == t[i]);
                        }
                    }
                },
            }
        } else {
            assert(next_dir(stack, visited) == (t, Some(stack.last())));
            assert(t =~= stack.take(t.len() as int));
        }
    }
}

} // verus!

//! An absolute module path modelled as its sequence of `/`-separated
//! segments. Normalization removes empty and `.` segments and lets `..` pop
//! the previous segment, clamping at the root as POSIX path resolution does.

use vstd::prelude::*;
use vstd::string::*;
use crate::strings::{views_of, slash_join, chars_eq, join_slash};

verus! {

/// Folds `segs` onto `acc`, dropping empty and `.` segments and letting `..`
/// remove the segment before it (or nothing, at the root).
pub open spec fn norm_fold(acc: Seq<Seq<char>>, segs: Seq<Seq<char>>) -> Seq<Seq<char>>
    decreases segs.len(),
{
    if segs.len() == 0 {
        acc
    } else {
        let s0 = segs[0];
        let acc2 = if s0 == ""@ || s0 == "."@ {
            acc
        } else if s0 == ".."@ {
            if acc.len() > 0 {
                acc.drop_last()
            } else {
                acc
            }
        } else {
            acc.push(s0)
        };
        norm_fold(acc2, segs.drop_first())
    }
}

/// The text of an absolute path with the given normalized segments.
pub open spec fn render_abs(segs: Seq<Seq<char>>) -> Seq<char> {
    seq!['/'] + slash_join(segs)
}

/// Normalizes a segment list, starting from an empty accumulator.
pub fn normalize_segments(segs: &Vec<String>) -> (r: Vec<String>)
    ensures
        views_of(r@) == norm_fold(Seq::empty(), views_of(segs@)),
{
    let mut acc: Vec<String> = Vec::new();
    let mut i: usize = 0;
    proof {
        assert(views_of(acc@) =~= Seq::<Seq<char>>::empty());
        assert(views_of(segs@).skip(0) =~= views_of(segs@));
    }
    while i < segs.len()
        invariant
            i <= segs@.len(),
            norm_fold(Seq::empty(), views_of(segs@)) == norm_fold(
                views_of(acc@),
                views_of(segs@).skip(i as int),
            ),
        decreases segs@.len() - i,
    {
        let ghost accv = views_of(acc@);
        let ghost rest = views_of(segs@).skip(i as int);
        proof {
            assert(rest[0] == segs@[i as int]@);
            assert(rest.drop_first() =~= views_of(segs@).skip(i + 1));
        }
        let s = &segs[i];
        if chars_eq(s.as_str(), "") || chars_eq(s.as_str(), ".") {
        } else if chars_eq(s.as_str(), "..") {
            if acc.len() > 0 {
                acc.pop();
                proof {
                    assert(views_of(acc@) =~= accv.drop_last());
                }
            }
        } else {
            acc.push(s.clone());
            proof {
                assert(views_of(acc@) =~= accv.push(s@));
            }
        }
        i = i + 1;
    }
    proof {
        assert(views_of(segs@).skip(segs@.len() as int) =~= Seq::<Seq<char>>::empty());
    }
    acc
}

/// Renders normalized segments as an absolute path: a leading `/`, then the
/// segments joined with `/`.
pub fn render_abs_path(segs: &Vec<String>) -> (r: String)
    ensures
        r@ == render_abs(views_of(segs@)),
{
    let mut r = String::from_str("/");
    let j = join_slash(segs);
    r.append(j.as_str());
    proof {
        reveal_strlit("/");
        assert("/"@ =~= seq!['/']);
        assert(r@ =~= render_abs(views_of(segs@)));
    }
    r
}

/// All segments but the last: the directory of a file path given in segments.
pub fn parent_segments(segs: &Vec<String>) -> (r: Vec<String>)
    ensures
        r@ == if segs@.len() > 0 { segs@.drop_last() } else { segs@ },
{
    let n: usize = if segs.len() > 0 {
        segs.len() - 1
    } else {
        0
    };
    let mut r: Vec<String> = Vec::new();
    let mut i: usize = 0;
    while i < n
        invariant
            n <= segs@.len(),
            i <= n,
            r@.len() == i,
            forall|j: int| 0 <= j < i ==> r@[j] == segs@[j],
        decreases n - i,
    {
        r.push(segs[i].clone());
        i = i + 1;
    }
    proof {
        if segs@.len() > 0 {
            assert(r@ =~= segs@.drop_last());
        } else {
            assert(r@ =~= segs@);
        }
    }
    r
}

} // verus!

//! The selection strategy: which candidate versions are dropped, and in what
//! order the rest are tried. The resolver takes candidates from the tail of
//! the sorted list, so the most preferred candidate sorts last.

use vstd::prelude::*;
use vstd::seq_lib::*;
use crate::requirement::{PackageVersion, PackageVersionView};
use crate::version::{rank_versions, version_order, Version, VersionView};
use crate::views::{lemma_views_insert, views};

verus! {

/// How candidates are filtered and ordered.
#[derive(Debug, Clone, Copy)]
pub struct Strategy {
    /// Prefer newer versions: the highest version is tried first. Where it
    /// is off, the lowest is.
    pub conservative: bool,
    /// Drop every version that carries a pre-release tag.
    pub avoid_prerelease: bool,
}

impl Default for Strategy {
    fn default() -> (r: Self)
        ensures
            r.conservative,
            !r.avoid_prerelease,
    {
        Strategy { conservative: true, avoid_prerelease: false }
    }
}

impl Strategy {
    /// The default strategy: newer versions preferred, pre-releases kept.
    pub fn new() -> (r: Self)
        ensures
            r.conservative,
            !r.avoid_prerelease,
    {
        Strategy { conservative: true, avoid_prerelease: false }
    }

    /// Whether the filter keeps a candidate.
    pub open spec fn keeps(self, v: PackageVersionView) -> bool {
        !self.avoid_prerelease || v.version.pre.len() == 0
    }

    /// The candidates that the filter keeps, in their order.
    pub open spec fn filtered(self, s: Seq<PackageVersionView>) -> Seq<PackageVersionView> {
        s.filter(|v: PackageVersionView| self.keeps(v))
    }

    /// The strategy's comparison of two versions: negative where `a` is to
    /// be tried after `b` (it sorts first), positive where `a` is to be tried
    /// before `b`. With `conservative` it is the order of versions, without
    /// it the reverse.
    pub open spec fn ranks(self, a: VersionView, b: VersionView) -> int {
        if self.conservative {
            version_order(a, b)
        } else {
            version_order(b, a)
        }
    }

    /// A sorted list with one more candidate put in: behind every candidate
    /// that it does not sort strictly before.
    pub open spec fn placed(self, t: Seq<PackageVersionView>, x: PackageVersionView) -> Seq<
        PackageVersionView,
    >
        decreases t.len(),
    {
        if t.len() == 0 {
            seq![x]
        } else if self.ranks(x.version, t.last().version) < 0 {
            self.placed(t.drop_last(), x).push(t.last())
        } else {
            t.push(x)
        }
    }

    /// The candidates sorted by the strategy's comparison, those that rank
    /// equal in their given order.
    pub open spec fn sorted(self, s: Seq<PackageVersionView>) -> Seq<PackageVersionView>
        decreases s.len(),
    {
        if s.len() == 0 {
            s
        } else {
            self.placed(self.sorted(s.drop_last()), s.last())
        }
    }

    /// No candidate of the list sorts strictly before an earlier one.
    pub open spec fn in_order(self, s: Seq<PackageVersionView>) -> bool {
        forall|i: int, j: int|
            0 <= i < j < s.len() ==> self.ranks(#[trigger] s[i].version, #[trigger] s[j].version)
                <= 0
    }

    /// The place that `placed` gives a candidate is the one behind which
    /// every candidate sorts strictly after it, and before which the next
    /// does not.
    pub proof fn lemma_placed_at(self, t: Seq<PackageVersionView>, x: PackageVersionView, p: int)
        requires
            0 <= p <= t.len(),
            forall|j: int| p <= j < t.len() ==> self.ranks(x.version, #[trigger] t[j].version) < 0,
            p > 0 ==> self.ranks(x.version, t[p - 1].version) >= 0,
        ensures
            self.placed(t, x) == t.insert(p, x),
        decreases t.len(),
    {
        if p < t.len() {
            self.lemma_placed_at(t.drop_last(), x, p);
        }
    }

    /// Putting a candidate in adds it and changes nothing else.
    pub proof fn lemma_placed_permutes(self, t: Seq<PackageVersionView>, x: PackageVersionView)
        ensures
            self.placed(t, x).to_multiset() == t.to_multiset().insert(x),
            self.placed(t, x).len() == t.len() + 1,
        decreases t.len(),
    {
        broadcast use {to_multiset_build, vstd::multiset::group_multiset_axioms};

        if t.len() == 0 {
            assert(seq![x] =~= t.push(x));
        } else if self.ranks(x.version, t.last().version) < 0 {
            self.lemma_placed_permutes(t.drop_last(), x);
            assert(t.drop_last().push(t.last()) =~= t);
        }
    }

    /// Sorting keeps every candidate, as often as it occurred.
    pub proof fn lemma_sorted_permutes(self, s: Seq<PackageVersionView>)
        ensures
            self.sorted(s).to_multiset() == s.to_multiset(),
            self.sorted(s).len() == s.len(),
        decreases s.len(),
    {
        broadcast use to_multiset_build;

        if s.len() > 0 {
            self.lemma_sorted_permutes(s.drop_last());
            self.lemma_placed_permutes(self.sorted(s.drop_last()), s.last());
            assert(s.drop_last().push(s.last()) =~= s);
        }
    }

    /// Strategy honoring: the last candidate of a list in order, the one to
    /// try first, sorts before none of the others. With `conservative` no
    /// other candidate is higher in `semver`'s order, without it none lower.
    pub proof fn lemma_last_is_preferred(self, s: Seq<PackageVersionView>, i: int)
        requires
            self.in_order(s),
            0 <= i < s.len() - 1,
        ensures
            self.ranks(s[i].version, s.last().version) <= 0,
            self.conservative ==> version_order(s[i].version, s.last().version) <= 0,
            !self.conservative ==> version_order(s.last().version, s[i].version) <= 0,
    {
    }

    /// The strategy's comparison of two versions, with what `semver`'s order
    /// gives of it: swapping the arguments negates the result, and what
    /// sorts no later than the second of two in order sorts no later than
    /// the first.
    pub fn rank(&self, a: &Version, b: &Version) -> (r: i8)
        ensures
            -1 <= r <= 1,
            r == self.ranks(a@, b@),
            self.ranks(b@, a@) == -r,
            forall|c: VersionView|
                r >= 0 && #[trigger] self.ranks(c, b@) <= 0 ==> self.ranks(c, a@) <= 0,
    {
        if self.conservative {
            rank_versions(a, b)
        } else {
            rank_versions(b, a)
        }
    }

    /// Drops the candidates that the strategy avoids: with
    /// `avoid_prerelease`, every version with a pre-release tag.
    pub fn filter_versions(&self, versions: Vec<PackageVersion>) -> (r: Vec<PackageVersion>)
        ensures
            views(r@) == self.filtered(views(versions@)),
    {
        let ghost input = views(versions@);
        let ghost keep = |v: PackageVersionView| self.keeps(v);
        let mut out: Vec<PackageVersion> = Vec::new();
        let mut i: usize = 0;
        proof {
            reveal(Seq::filter);
        }
        while i < versions.len()
            invariant
                i <= versions.len(),
                input == views(versions@),
                keep == |v: PackageVersionView| self.keeps(v),
                views(out@) == input.take(i as int).filter(keep),
            decreases versions.len() - i,
        {
            proof {
                assert(input.take(i + 1) =~= input.take(i as int).push(versions[i as int]@));
                input.take(i as int).lemma_filter_push(versions[i as int]@, keep);
            }
            if !self.avoid_prerelease || !versions[i].version.is_prerelease() {
                let c = versions[i].clone();
                out.push(c);
            }
            i += 1;
        }
        proof {
            assert(input.take(versions.len() as int) =~= input);
        }
        out
    }

    /// Where a candidate belongs in a sorted list.
    pub fn place_of(&self, sorted: &Vec<PackageVersion>, x: &PackageVersion) -> (p: usize)
        requires
            self.in_order(views(sorted@)),
        ensures
            p <= sorted.len(),
            self.placed(views(sorted@), x@) == views(sorted@).insert(p as int, x@),
            self.in_order(views(sorted@).insert(p as int, x@)),
    {
        let ghost t = views(sorted@);
        let mut p: usize = sorted.len();
        let mut done = false;
        while !done && p > 0
            invariant
                p <= sorted.len(),
                t == views(sorted@),
                self.in_order(t),
                forall|j: int| p <= j < t.len() ==> self.ranks(x@.version, #[trigger] t[j].version) < 0,
                done ==> p > 0 && self.ranks(x@.version, t[p - 1].version) >= 0,
                done ==> forall|i: int| 0 <= i < p ==> self.ranks(#[trigger] t[i].version, x@.version) <= 0,
            decreases p, (if done { 0int } else { 1int }),
        {
            let r = self.rank(&x.version, &sorted[p - 1].version);
            if r < 0 {
                p -= 1;
            } else {
                done = true;
                proof {
                    assert(self.ranks(t[p - 1].version, x@.version) <= 0);
                }
            }
        }
        proof {
            self.lemma_placed_at(t, x@, p as int);
            assert(self.in_order(t.insert(p as int, x@)));
        }
        p
    }

    /// Sorts the candidates so that the most preferred one is last: with
    /// `conservative` the highest version, without it the lowest. Candidates
    /// that rank equal keep their order.
    pub fn sort_versions(&self, versions: Vec<PackageVersion>) -> (r: Vec<PackageVersion>)
        ensures
            views(r@) == self.sorted(views(versions@)),
            self.in_order(views(r@)),
            views(r@).to_multiset() == views(versions@).to_multiset(),
            r.len() == versions.len(),
    {
        let ghost input = views(versions@);
        let mut out: Vec<PackageVersion> = Vec::new();
        let mut i: usize = 0;
        while i < versions.len()
            invariant
                i <= versions.len(),
                input == views(versions@),
                views(out@) == self.sorted(input.take(i as int)),
                self.in_order(views(out@)),
            decreases versions.len() - i,
        {
            let x = versions[i].clone();
            let p = self.place_of(&out, &x);
            let ghost before = out@;
            out.insert(p, x);
            proof {
                lemma_views_insert(before, p as int, x);
                assert(input.take(i + 1).drop_last() =~= input.take(i as int));
            }
            i += 1;
        }
        proof {
            assert(input.take(versions.len() as int) =~= input);
            self.lemma_sorted_permutes(input);
        }
        out
    }
}

} // verus!

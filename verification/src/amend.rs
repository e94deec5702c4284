//! Best-effort repair of a path that does not fully exist: walk up to the
//! deepest existing ancestor, then re-descend, replacing each missing
//! segment by the child of the resolved prefix that matches it
//! case-insensitively — provided exactly one child does.
//!
//! The filesystem is modelled as the ordered collection of existing paths,
//! each a sequence of name segments; the caller snapshots or probes the real
//! filesystem and re-validates the result.
use vstd::prelude::*;

use crate::text::lower_of;
use crate::text::str_eq;
use crate::text::to_lower;

verus! {

/// The paths that exist, in directory-iteration order; each path is the
/// sequence of its name segments from the root.
pub struct FsModel {
    pub paths: Vec<Vec<String>>,
}

impl View for FsModel {
    type V = Seq<Seq<Seq<char>>>;

    open spec fn view(&self) -> Seq<Seq<Seq<char>>> {
        self.paths.deep_view()
    }
}

/// The path `p` exists in the model.
pub open spec fn fs_has(fs: Seq<Seq<Seq<char>>>, p: Seq<Seq<char>>) -> bool {
    fs.contains(p)
}

/// `q` names a direct child of `prefix`.
pub open spec fn is_child_of(q: Seq<Seq<char>>, prefix: Seq<Seq<char>>) -> bool {
    q.len() == prefix.len() + 1 && q.take(prefix.len() as int) == prefix
}

/// The names of the direct children of `prefix`, in model order.
pub open spec fn children_of(fs: Seq<Seq<Seq<char>>>, prefix: Seq<Seq<char>>) -> Seq<Seq<char>>
    decreases fs.len(),
{
    if fs.len() == 0 {
        Seq::empty()
    } else {
        let rest = children_of(fs.drop_last(), prefix);
        if is_child_of(fs.last(), prefix) {
            rest.push(fs.last().last())
        } else {
            rest
        }
    }
}

/// The names whose lowercase form equals the lowercase form of `target`,
/// in order.
pub open spec fn ci_matches(children: Seq<Seq<char>>, target: Seq<char>) -> Seq<Seq<char>>
    decreases children.len(),
{
    if children.len() == 0 {
        Seq::empty()
    } else {
        let rest = ci_matches(children.drop_last(), target);
        if lower_of(children.last()) == lower_of(target) {
            rest.push(children.last())
        } else {
            rest
        }
    }
}

/// The sibling adopted for a missing segment: the matching name when
/// exactly one child matches case-insensitively, none otherwise — an
/// ambiguous segment is not repaired.
pub open spec fn unique_ci_match(children: Seq<Seq<char>>, target: Seq<char>) -> Option<
    Seq<char>,
> {
    if ci_matches(children, target).len() == 1 {
        Some(ci_matches(children, target)[0])
    } else {
        None
    }
}

/// The largest `l' <= l` such that the first `l'` segments of `p` exist;
/// `0` when no non-empty prefix of `p` exists.
pub open spec fn greatest_existing_prefix(
    fs: Seq<Seq<Seq<char>>>,
    p: Seq<Seq<char>>,
    l: int,
) -> int
    decreases l,
{
    if l <= 0 {
        0
    } else if fs_has(fs, p.take(l)) {
        l
    } else {
        greatest_existing_prefix(fs, p, l - 1)
    }
}

/// Re-descend from the resolved prefix `cur` through the segments of `p`
/// from position `i` on, repairing each missing segment by its unique
/// case-insensitive sibling match.
pub open spec fn descend_spec(
    fs: Seq<Seq<Seq<char>>>,
    cur: Seq<Seq<char>>,
    p: Seq<Seq<char>>,
    i: int,
) -> Option<Seq<Seq<char>>>
    decreases p.len() - i,
{
    if i < 0 || i >= p.len() {
        Some(cur)
    } else {
        let cand = cur.push(p[i]);
        if fs_has(fs, cand) {
            descend_spec(fs, cand, p, i + 1)
        } else {
            match unique_ci_match(children_of(fs, cur), p[i]) {
                Some(c) => descend_spec(fs, cur.push(c), p, i + 1),
                None => None,
            }
        }
    }
}

/// What amendment returns: the original path when no non-empty prefix of it
/// exists, otherwise the result of re-descending from the deepest existing
/// prefix; `None` when a missing segment has no unique case-insensitive
/// match.
pub open spec fn amend_spec(fs: Seq<Seq<Seq<char>>>, p: Seq<Seq<char>>) -> Option<
    Seq<Seq<char>>,
> {
    let l = greatest_existing_prefix(fs, p, p.len() as int);
    if l == 0 {
        Some(p)
    } else {
        descend_spec(fs, p.take(l), p, l)
    }
}

/// Amendment is idempotent on paths that already exist: it hands them back
/// unchanged.
pub proof fn lemma_amend_existing(fs: Seq<Seq<Seq<char>>>, p: Seq<Seq<char>>)
    requires
        fs_has(fs, p),
    ensures
        amend_spec(fs, p) == Some(p),
{
    let n = p.len() as int;
    if n > 0 {
        assert(p.take(n) =~= p);
        assert(greatest_existing_prefix(fs, p, n) == n);
        assert(descend_spec(fs, p.take(n), p, n) == Some(p.take(n)));
    }
}

proof fn lemma_greatest_zero(fs: Seq<Seq<Seq<char>>>, p: Seq<Seq<char>>, l: int)
    requires
        0 <= l,
        forall|m: int| 1 <= m <= l ==> !fs_has(fs, p.take(m)),
    ensures
        greatest_existing_prefix(fs, p, l) == 0,
    decreases l,
{
    if l > 0 {
        lemma_greatest_zero(fs, p, l - 1);
    }
}

proof fn lemma_greatest_zero_converse(fs: Seq<Seq<Seq<char>>>, p: Seq<Seq<char>>, l: int)
    requires
        greatest_existing_prefix(fs, p, l) == 0,
    ensures
        forall|m: int| 1 <= m <= l ==> !fs_has(fs, p.take(m)),
    decreases l,
{
    if l > 0 {
        lemma_greatest_zero_converse(fs, p, l - 1);
    }
}

proof fn lemma_greatest_nonneg(fs: Seq<Seq<Seq<char>>>, p: Seq<Seq<char>>, l: int)
    ensures
        greatest_existing_prefix(fs, p, l) >= 0,
    decreases l,
{
    if l > 0 && !fs_has(fs, p.take(l)) {
        lemma_greatest_nonneg(fs, p, l - 1);
    }
}

proof fn lemma_greatest_has(fs: Seq<Seq<Seq<char>>>, p: Seq<Seq<char>>, l: int)
    requires
        greatest_existing_prefix(fs, p, l) >= 1,
    ensures
        fs_has(fs, p.take(greatest_existing_prefix(fs, p, l))),
        greatest_existing_prefix(fs, p, l) <= l,
    decreases l,
{
    if l > 0 && !fs_has(fs, p.take(l)) {
        lemma_greatest_has(fs, p, l - 1);
    }
}

proof fn lemma_greatest_max(fs: Seq<Seq<Seq<char>>>, p: Seq<Seq<char>>, l: int)
    ensures
        forall|m: int|
            greatest_existing_prefix(fs, p, l) < m <= l ==> !fs_has(fs, p.take(m)),
    decreases l,
{
    if l > 0 && !fs_has(fs, p.take(l)) {
        lemma_greatest_max(fs, p, l - 1);
    }
}

proof fn lemma_ci_matches_members(children: Seq<Seq<char>>, t: Seq<char>)
    ensures
        forall|j: int|
            0 <= j < ci_matches(children, t).len() ==> children.contains(
                #[trigger] ci_matches(children, t)[j],
            ),
    decreases children.len(),
{
    if children.len() > 0 {
        lemma_ci_matches_members(children.drop_last(), t);
        let rest = ci_matches(children.drop_last(), t);
        assert forall|j: int|
            0 <= j < ci_matches(children, t).len() implies children.contains(
            #[trigger] ci_matches(children, t)[j],
        ) by {
            if j < rest.len() {
                let k = choose|k: int|
                    0 <= k < children.drop_last().len() && children.drop_last()[k] == rest[j];
                assert(children[k] == rest[j]);
            } else {
                assert(ci_matches(children, t)[j] == children.last());
                assert(children[children.len() - 1] == children.last());
            }
        }
    }
}

proof fn lemma_child_exists(fs: Seq<Seq<Seq<char>>>, prefix: Seq<Seq<char>>, c: Seq<char>)
    requires
        children_of(fs, prefix).contains(c),
    ensures
        fs_has(fs, prefix.push(c)),
    decreases fs.len(),
{
    if fs.len() > 0 {
        let rest = children_of(fs.drop_last(), prefix);
        if is_child_of(fs.last(), prefix) && c == fs.last().last() {
            assert(prefix.push(c) =~= fs.last());
            assert(fs[fs.len() - 1] == fs.last());
        } else {
            if is_child_of(fs.last(), prefix) {
                let j = choose|j: int|
                    0 <= j < rest.push(fs.last().last()).len() && rest.push(
                        fs.last().last(),
                    )[j] == c;
                assert(rest[j] == c);
            }
            lemma_child_exists(fs.drop_last(), prefix, c);
            let j = choose|j: int|
                0 <= j < fs.drop_last().len() && fs.drop_last()[j] == prefix.push(c);
            assert(fs[j] == prefix.push(c));
        }
    }
}

proof fn lemma_descend_exists(
    fs: Seq<Seq<Seq<char>>>,
    cur: Seq<Seq<char>>,
    p: Seq<Seq<char>>,
    i: int,
)
    requires
        fs_has(fs, cur),
        0 <= i,
    ensures
        match descend_spec(fs, cur, p, i) {
            Some(r) => fs_has(fs, r),
            None => true,
        },
    decreases p.len() - i,
{
    if i < p.len() {
        let cand = cur.push(p[i]);
        if fs_has(fs, cand) {
            lemma_descend_exists(fs, cand, p, i + 1);
        } else {
            lemma_ci_matches_members(children_of(fs, cur), p[i]);
            match unique_ci_match(children_of(fs, cur), p[i]) {
                Some(c) => {
                    lemma_child_exists(fs, cur, c);
                    lemma_descend_exists(fs, cur.push(c), p, i + 1);
                },
                None => {},
            }
        }
    }
}

/// When no non-empty prefix of `p` exists at all, amendment hands back the
/// original path unchanged.
pub proof fn lemma_amend_no_ancestor(fs: Seq<Seq<Seq<char>>>, p: Seq<Seq<char>>)
    requires
        forall|m: int| 1 <= m <= p.len() ==> !fs_has(fs, p.take(m)),
    ensures
        amend_spec(fs, p) == Some(p),
{
    lemma_greatest_zero(fs, p, p.len() as int);
}

/// Conversely, amendment hands back the original, still missing, path only
/// when no non-empty prefix of it exists.
pub proof fn lemma_amend_original_only_without_ancestor(
    fs: Seq<Seq<Seq<char>>>,
    p: Seq<Seq<char>>,
)
    requires
        amend_spec(fs, p) == Some(p),
        !fs_has(fs, p),
    ensures
        forall|m: int| 1 <= m <= p.len() ==> !fs_has(fs, p.take(m)),
{
    let l = greatest_existing_prefix(fs, p, p.len() as int);
    if l == 0 {
        lemma_greatest_zero_converse(fs, p, p.len() as int);
    } else {
        lemma_greatest_nonneg(fs, p, p.len() as int);
        lemma_greatest_has(fs, p, p.len() as int);
        lemma_descend_exists(fs, p.take(l), p, l);
        assert(false);
    }
}

/// A missing segment without a unique case-insensitive match among the
/// siblings of the deepest existing prefix makes amendment fail: so both
/// when no sibling matches and when several do.
pub proof fn lemma_amend_no_match(fs: Seq<Seq<Seq<char>>>, p: Seq<Seq<char>>)
    requires
        1 <= greatest_existing_prefix(fs, p, p.len() as int) < p.len(),
        unique_ci_match(
            children_of(fs, p.take(greatest_existing_prefix(fs, p, p.len() as int))),
            p[greatest_existing_prefix(fs, p, p.len() as int)],
        ) == None::<Seq<char>>,
    ensures
        amend_spec(fs, p) == None::<Seq<Seq<char>>>,
{
    let l = greatest_existing_prefix(fs, p, p.len() as int);
    lemma_greatest_max(fs, p, p.len() as int);
    assert(p.take(l).push(p[l]) =~= p.take(l + 1));
    assert(!fs_has(fs, p.take(l).push(p[l])));
}

/// A missing final segment with exactly one case-insensitive sibling match
/// among the children of the deepest existing prefix is replaced by that
/// sibling's exact on-disk casing.
pub proof fn lemma_amend_adopts_unique_match(
    fs: Seq<Seq<Seq<char>>>,
    p: Seq<Seq<char>>,
    c: Seq<char>,
)
    requires
        p.len() >= 2,
        greatest_existing_prefix(fs, p, p.len() as int) == p.len() - 1,
        unique_ci_match(children_of(fs, p.take(p.len() - 1)), p[p.len() - 1]) == Some(c),
    ensures
        amend_spec(fs, p) == Some(p.take(p.len() - 1).push(c)),
{
    let l = p.len() - 1;
    let cur = p.take(l);
    lemma_greatest_max(fs, p, p.len() as int);
    assert(cur.push(p[l]) =~= p.take(p.len() as int));
    assert(!fs_has(fs, cur.push(p[l])));
    assert(descend_spec(fs, cur.push(c), p, l + 1) == Some(cur.push(c)));
    assert(descend_spec(fs, cur, p, l) == Some(cur.push(c)));
}

pub open spec fn opt_str_view(r: Option<String>) -> Option<Seq<char>> {
    match r {
        Some(s) => Some(s@),
        None => None,
    }
}

pub open spec fn opt_segs_view(r: Option<Vec<String>>) -> Option<Seq<Seq<char>>> {
    match r {
        Some(v) => Some(v.deep_view()),
        None => None,
    }
}

/// `q` equals the first `l` segments of `p`.
fn segs_eq_prefix(q: &Vec<String>, p: &Vec<String>, l: usize) -> (r: bool)
    requires
        l <= p@.len(),
    ensures
        r == (q.deep_view() == p.deep_view().take(l as int)),
{
    if q.len() != l {
        proof {
            assert(q.deep_view().len() == q@.len());
        }
        return false;
    }
    let mut j: usize = 0;
    while j < l
        invariant
            0 <= j <= l <= p@.len(),
            q@.len() == l,
            forall|m: int| 0 <= m < j ==> q.deep_view()[m] == p.deep_view()[m],
        decreases l - j,
    {
        if !str_eq(q[j].as_str(), p[j].as_str()) {
            proof {
                assert(q.deep_view()[j as int] != p.deep_view().take(l as int)[j as int]);
            }
            return false;
        }
        j = j + 1;
    }
    proof {
        assert(q.deep_view() =~= p.deep_view().take(l as int));
    }
    true
}

impl FsModel {
    /// Whether the path formed by the first `l` segments of `p` exists.
    pub fn contains_prefix(&self, p: &Vec<String>, l: usize) -> (r: bool)
        requires
            l <= p@.len(),
        ensures
            r == fs_has(self@, p.deep_view().take(l as int)),
    {
        let mut i: usize = 0;
        while i < self.paths.len()
            invariant
                0 <= i <= self.paths@.len(),
                l <= p@.len(),
                forall|m: int| 0 <= m < i ==> self@[m] != p.deep_view().take(l as int),
            decreases self.paths@.len() - i,
        {
            if segs_eq_prefix(&self.paths[i], p, l) {
                proof {
                    assert(self@[i as int] == p.deep_view().take(l as int));
                    assert(fs_has(self@, p.deep_view().take(l as int)));
                }
                return true;
            }
            i = i + 1;
        }
        false
    }

    /// The names of the direct children of `prefix`, in model order.
    pub fn children(&self, prefix: &Vec<String>) -> (r: Vec<String>)
        ensures
            r.deep_view() == children_of(self@, prefix.deep_view()),
    {
        let mut out: Vec<String> = Vec::new();
        let mut i: usize = 0;
        proof {
            assert(self@.take(0) =~= Seq::<Seq<Seq<char>>>::empty());
            assert(out.deep_view() =~= children_of(self@.take(0), prefix.deep_view()));
        }
        while i < self.paths.len()
            invariant
                0 <= i <= self.paths@.len(),
                out.deep_view() == children_of(self@.take(i as int), prefix.deep_view()),
            decreases self.paths@.len() - i,
        {
            proof {
                assert(self@.take(i + 1).drop_last() =~= self@.take(i as int));
                assert(self@.take(i + 1).last() == self@[i as int]);
            }
            let q = &self.paths[i];
            if q.len() >= 1 && q.len() - 1 == prefix.len() && segs_eq_prefix(
                prefix,
                q,
                prefix.len(),
            ) {
                proof {
                    assert(prefix.deep_view() =~= q.deep_view().take(prefix@.len() as int));
                    assert(is_child_of(self@[i as int], prefix.deep_view()));
                }
                out.push(q[q.len() - 1].clone());
                proof {
                    assert(out.deep_view() =~= children_of(
                        self@.take(i + 1),
                        prefix.deep_view(),
                    ));
                }
            } else {
                proof {
                    if prefix.deep_view() == q.deep_view().take(prefix@.len() as int)
                        && q.deep_view().len() == prefix.deep_view().len() + 1 {
                        assert(q@.len() == q.deep_view().len());
                        assert(false);
                    }
                    assert(!is_child_of(self@[i as int], prefix.deep_view()));
                }
            }
            i = i + 1;
        }
        proof {
            assert(self@.take(self.paths@.len() as int) =~= self@);
        }
        out
    }
}

/// The child of the current prefix whose name matches `segment`
/// case-insensitively, provided exactly one does; several matching siblings
/// leave the segment unrepaired.
pub fn match_segment(children: &Vec<String>, segment: &String) -> (r: Option<String>)
    ensures
        opt_str_view(r) == unique_ci_match(children.deep_view(), segment@),
{
    let ghost cv = children.deep_view();
    let target = to_lower(segment.as_str());
    let mut found: Option<String> = None;
    let mut count: usize = 0;
    let mut i: usize = 0;
    proof {
        assert(cv.take(0) =~= Seq::<Seq<char>>::empty());
    }
    while i < children.len()
        invariant
            0 <= i <= children@.len(),
            cv == children.deep_view(),
            target@ == lower_of(segment@),
            count <= i,
            count == ci_matches(cv.take(i as int), segment@).len(),
            count >= 1 ==> (found matches Some(s) && s@ == ci_matches(
                cv.take(i as int),
                segment@,
            )[0]),
            count == 0 ==> found is None,
        decreases children@.len() - i,
    {
        proof {
            assert(cv.take(i + 1).drop_last() =~= cv.take(i as int));
            assert(cv.take(i + 1).last() == cv[i as int]);
        }
        let low = to_lower(children[i].as_str());
        if low.eq(&target) {
            if count == 0 {
                found = Some(children[i].clone());
            }
            count = count + 1;
        }
        i = i + 1;
    }
    proof {
        assert(cv.take(children@.len() as int) =~= cv);
    }
    if count == 1 {
        found
    } else {
        None
    }
}

/// One re-descent decision, for a caller that probes the real filesystem:
/// keep the segment itself when the candidate path exists, else adopt its
/// unique case-insensitive match among the children, else fail.
pub fn resolve_segment(segment: &String, candidate_exists: bool, children: &Vec<String>) -> (r:
    Option<String>)
    ensures
        opt_str_view(r) == if candidate_exists {
            Some(segment@)
        } else {
            unique_ci_match(children.deep_view(), segment@)
        },
{
    if candidate_exists {
        Some(segment.clone())
    } else {
        match_segment(children, segment)
    }
}

/// Repair `path` against the filesystem model: find the deepest existing
/// ancestor, then re-descend, replacing each missing segment by the exact
/// casing of its unique case-insensitive match among the siblings. Returns
/// the original path when no non-empty prefix of it exists, and `None` when
/// a missing segment has no match or several.
pub fn amend_path(fs: &FsModel, path: &Vec<String>) -> (r: Option<Vec<String>>)
    ensures
        opt_segs_view(r) == amend_spec(fs@, path.deep_view()),
{
    let ghost p = path.deep_view();
    proof {
        assert(p.len() == path@.len());
    }
    let mut l: usize = path.len();
    while l > 0 && !fs.contains_prefix(path, l)
        invariant
            0 <= l <= path@.len(),
            p == path.deep_view(),
            greatest_existing_prefix(fs@, p, path@.len() as int) == greatest_existing_prefix(
                fs@,
                p,
                l as int,
            ),
        decreases l,
    {
        l = l - 1;
    }
    if l == 0 {
        return Some(crate::text::clone_strings(path));
    }
    let ghost l0 = l as int;
    proof {
        assert(greatest_existing_prefix(fs@, p, l0) == l0);
    }
    let mut cur: Vec<String> = Vec::new();
    let mut j: usize = 0;
    while j < l
        invariant
            0 <= j <= l <= path@.len(),
            p == path.deep_view(),
            cur@.len() == j,
            cur.deep_view() == p.take(j as int),
        decreases l - j,
    {
        cur.push(path[j].clone());
        proof {
            assert(cur.deep_view() =~= p.take(j + 1));
        }
        j = j + 1;
    }
    let mut i: usize = l;
    proof {
        assert(amend_spec(fs@, p) == descend_spec(fs@, p.take(l0), p, l0));
    }
    while i < path.len()
        invariant
            l0 <= i <= path@.len(),
            p == path.deep_view(),
            amend_spec(fs@, p) == descend_spec(fs@, cur.deep_view(), p, i as int),
        decreases path@.len() - i,
    {
        let ghost cur0 = cur.deep_view();
        cur.push(path[i].clone());
        proof {
            assert(cur.deep_view() =~= cur0.push(p[i as int]));
        }
        let whole = cur.len();
        if !fs.contains_prefix(&cur, whole) {
            proof {
                assert(cur.deep_view().take(cur@.len() as int) =~= cur.deep_view());
            }
            cur.pop();
            proof {
                assert(cur.deep_view() =~= cur0);
            }
            let ch = fs.children(&cur);
            proof {
                assert(p[i as int] == path@[i as int]@);
            }
            match match_segment(&ch, &path[i]) {
                Some(c) => {
                    cur.push(c);
                    proof {
                        assert(unique_ci_match(children_of(fs@, cur0), p[i as int]) matches Some(
                            n,
                        ) && cur.deep_view() =~= cur0.push(n));
                    }
                },
                None => {
                    return None;
                },
            }
        } else {
            proof {
                assert(cur.deep_view().take(cur@.len() as int) =~= cur.deep_view());
                assert(fs_has(fs@, cur0.push(p[i as int])));
            }
        }
        i = i + 1;
    }
    Some(cur)
}

} // verus!

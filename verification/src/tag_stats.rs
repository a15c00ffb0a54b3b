//! Tag frequencies of a problem set, ranked most frequent first and, among
//! equally frequent tags, in string order.
use vstd::prelude::*;
use crate::problem::Problem;
use crate::text::{chars_eq, chars_of, lemma_deep_chars};

verus! {

// ------------------------------------------------------------------
// String order
// ------------------------------------------------------------------
/// `a < b` for strings: lexicographic by code point, a proper prefix first
/// (the order of `String`'s `Ord`, which UTF-8 byte order agrees with).
pub open spec fn lex_lt(a: Seq<char>, b: Seq<char>) -> bool
    decreases a.len(),
{
    if a.len() == 0 {
        b.len() > 0
    } else if b.len() == 0 {
        false
    } else if a[0] != b[0] {
        a[0] < b[0]
    } else {
        lex_lt(a.drop_first(), b.drop_first())
    }
}

pub proof fn lemma_lex_irreflexive(a: Seq<char>)
    ensures
        !lex_lt(a, a),
    decreases a.len(),
{
    if a.len() > 0 {
        lemma_lex_irreflexive(a.drop_first());
    }
}

pub proof fn lemma_lex_asymmetric(a: Seq<char>, b: Seq<char>)
    ensures
        lex_lt(a, b) ==> !lex_lt(b, a),
    decreases a.len(),
{
    if a.len() > 0 && b.len() > 0 && a[0] == b[0] {
        lemma_lex_asymmetric(a.drop_first(), b.drop_first());
    }
}

pub proof fn lemma_lex_transitive(a: Seq<char>, b: Seq<char>, c: Seq<char>)
    requires
        lex_lt(a, b),
        lex_lt(b, c),
    ensures
        lex_lt(a, c),
    decreases a.len(),
{
    if a.len() > 0 && b.len() > 0 && c.len() > 0 && a[0] == b[0] && b[0] == c[0] {
        lemma_lex_transitive(a.drop_first(), b.drop_first(), c.drop_first());
    }
}

pub proof fn lemma_lex_total(a: Seq<char>, b: Seq<char>)
    requires
        a != b,
    ensures
        lex_lt(a, b) || lex_lt(b, a),
    decreases a.len(),
{
    if a.len() > 0 && b.len() > 0 && a[0] == b[0] {
        if a.drop_first() == b.drop_first() {
            assert(a =~= seq![a[0]] + a.drop_first());
            assert(b =~= seq![b[0]] + b.drop_first());
        }
        lemma_lex_total(a.drop_first(), b.drop_first());
    } else if a.len() > 0 && b.len() > 0 {
    } else if a.len() == 0 && b.len() == 0 {
        assert(a =~= b);
    }
}

/// `lex_lt` on character buffers.
pub fn lex_less(a: &[char], b: &[char]) -> (r: bool)
    ensures
        r == lex_lt(a@, b@),
{
    let mut i: usize = 0;
    assert(a@.skip(0) =~= a@ && b@.skip(0) =~= b@);
    while i < a.len() && i < b.len() && a[i] == b[i]
        invariant
            i <= a@.len(),
            i <= b@.len(),
            lex_lt(a@, b@) == lex_lt(a@.skip(i as int), b@.skip(i as int)),
        decreases a@.len() - i,
    {
        let ghost sa = a@.skip(i as int);
        let ghost sb = b@.skip(i as int);
        assert(sa.drop_first() =~= a@.skip(i + 1));
        assert(sb.drop_first() =~= b@.skip(i + 1));
        i = i + 1;
    }
    let ghost sa = a@.skip(i as int);
    let ghost sb = b@.skip(i as int);
    if i == a.len() {
        i < b.len()
    } else if i == b.len() {
        false
    } else {
        assert(sa[0] == a@[i as int] && sb[0] == b@[i as int]);
        a[i] < b[i]
    }
}

// ------------------------------------------------------------------
// Counting
// ------------------------------------------------------------------
/// Every tag of every problem, in order.
pub open spec fn all_tags(problems: Seq<Problem>) -> Seq<Seq<char>>
    decreases problems.len(),
{
    if problems.len() == 0 {
        Seq::empty()
    } else {
        all_tags(problems.drop_last()) + problems.last().tags.deep_view()
    }
}

/// How often `t` occurs in `s`.
pub open spec fn occurrences(s: Seq<Seq<char>>, t: Seq<char>) -> nat
    decreases s.len(),
{
    if s.len() == 0 {
        0
    } else {
        occurrences(s.drop_last(), t) + if s.last() == t {
            1nat
        } else {
            0nat
        }
    }
}

/// A tag with how often it occurs.
pub struct TagCount {
    pub tag: String,
    pub count: usize,
}

impl View for TagCount {
    type V = (Seq<char>, nat);

    open spec fn view(&self) -> (Seq<char>, nat) {
        (self.tag@, self.count as nat)
    }
}

pub open spec fn counts_view(v: Seq<TagCount>) -> Seq<(Seq<char>, nat)> {
    v.map_values(|c: TagCount| c@)
}

/// `a` is ranked before `b`: more frequent, or as frequent and smaller.
pub open spec fn ranks_before(a: (Seq<char>, nat), b: (Seq<char>, nat)) -> bool {
    a.1 > b.1 || (a.1 == b.1 && lex_lt(a.0, b.0))
}

/// `r` lists each tag of `tags` once, with its number of occurrences.
pub open spec fn is_tally(r: Seq<(Seq<char>, nat)>, tags: Seq<Seq<char>>) -> bool {
    &&& forall|i: int, j: int| 0 <= i < j < r.len() ==> #[trigger] r[i].0 != #[trigger] r[j].0
    &&& forall|i: int|
        0 <= i < r.len() ==> #[trigger] r[i].1 == occurrences(tags, r[i].0) && tags.contains(
            r[i].0,
        )
    &&& forall|t: Seq<char>| tags.contains(t) ==> exists|i: int| 0 <= i < r.len() && #[trigger] r[i].0 == t
}

/// The ranking of `tags` (there is exactly one: `law_ranking_is_unique`).
pub open spec fn ranking_of(tags: Seq<Seq<char>>) -> Seq<(Seq<char>, nat)> {
    choose|r: Seq<(Seq<char>, nat)>| is_ranking(r, tags)
}

/// `r` is the tally of `tags`, ranked.
pub open spec fn is_ranking(r: Seq<(Seq<char>, nat)>, tags: Seq<Seq<char>>) -> bool {
    &&& is_tally(r, tags)
    &&& forall|i: int, j: int| 0 <= i < j < r.len() ==> ranks_before(#[trigger] r[i], #[trigger] r[j])
}

proof fn lemma_occurrences_push(s: Seq<Seq<char>>, t: Seq<char>, x: Seq<char>)
    ensures
        occurrences(s.push(t), x) == occurrences(s, x) + if t == x {
            1nat
        } else {
            0nat
        },
{
    assert(s.push(t).drop_last() =~= s);
}

proof fn lemma_occurrences_bound(s: Seq<Seq<char>>, x: Seq<char>)
    ensures
        occurrences(s, x) <= s.len(),
    decreases s.len(),
{
    if s.len() > 0 {
        lemma_occurrences_bound(s.drop_last(), x);
    }
}

proof fn lemma_occurrences_absent(s: Seq<Seq<char>>, x: Seq<char>)
    requires
        !s.contains(x),
    ensures
        occurrences(s, x) == 0,
    decreases s.len(),
{
    if s.len() > 0 {
        assert(!s.drop_last().contains(x)) by {
            if s.drop_last().contains(x) {
                let k = choose|k: int| 0 <= k < s.drop_last().len() && s.drop_last()[k] == x;
                assert(s[k] == x);
            }
        }
        assert(s.last() != x) by {
            if s.last() == x {
                assert(s[s.len() - 1] == x);
            }
        }
        lemma_occurrences_absent(s.drop_last(), x);
    }
}

/// Counts one more occurrence of `t`.
fn add_tag(counts: &mut Vec<TagCount>, t: &String, Ghost(seen): Ghost<Seq<Seq<char>>>)
    requires
        is_tally(counts_view(old(counts)@), seen),
        seen.len() < usize::MAX,
    ensures
        is_tally(counts_view(final(counts)@), seen.push(t@)),
{
    let ghost cv = counts_view(counts@);
    let ghost seen2 = seen.push(t@);
    let mut k: usize = 0;
    let mut found = false;
    while k < counts.len() && !found
        invariant
            k <= counts@.len(),
            cv == counts_view(counts@),
            cv.len() == counts@.len(),
            forall|m: int| 0 <= m < k ==> #[trigger] cv[m].0 != t@,
            found ==> k < cv.len() && cv[k as int].0 == t@,
        decreases counts@.len() - k + (if found { 0int } else { 1int }),
    {
        assert(cv[k as int] == counts@[k as int]@);
        if str_equal(&counts[k].tag, t) {
            found = true;
        } else {
            k = k + 1;
        }
    }
    assert forall|x: Seq<char>| #![trigger seen2.contains(x)] seen2.contains(x) <==> (seen.contains(x) || x == t@) by {
        if seen2.contains(x) && x != t@ {
            let m = choose|m: int| 0 <= m < seen2.len() && seen2[m] == x;
            assert(m < seen.len());
            assert(seen[m] == x);
        }
        if seen.contains(x) {
            let m = choose|m: int| 0 <= m < seen.len() && seen[m] == x;
            assert(seen2[m] == x);
        }
        if x == t@ {
            assert(seen2[seen.len() as int] == x);
        }
    }
    if found {
        proof {
            lemma_occurrences_bound(seen, t@);
            assert(cv[k as int].1 == occurrences(seen, cv[k as int].0));
            assert(counts@[k as int]@ == cv[k as int]);
        }
        let n = counts[k].count + 1;
        let tag = counts[k].tag.clone();
        counts.set(k, TagCount { tag, count: n });
        proof {
            let nv = counts_view(counts@);
            assert(nv =~= cv.update(k as int, (t@, n as nat)));
            assert forall|i: int| 0 <= i < nv.len() implies #[trigger] nv[i].1 == occurrences(
                seen2,
                nv[i].0,
            ) && seen2.contains(nv[i].0) by {
                lemma_occurrences_push(seen, t@, nv[i].0);
                if i != k {
                    assert(nv[i] == cv[i]);
                    assert(cv[i].0 != cv[k as int].0);
                    assert(cv[i].1 == occurrences(seen, cv[i].0));
                    assert(seen.contains(cv[i].0));
                } else {
                    assert(nv[i] == (t@, n as nat));
                    assert(n == cv[k as int].1 + 1);
                }
                assert(seen2.contains(nv[i].0) <==> (seen.contains(nv[i].0) || nv[i].0 == t@));
            }
            assert forall|x: Seq<char>| seen2.contains(x) implies exists|i: int|
                0 <= i < nv.len() && #[trigger] nv[i].0 == x by {
                if x == t@ {
                    assert(nv[k as int].0 == x);
                } else {
                    assert(seen.contains(x));
                    let i = choose|i: int| 0 <= i < cv.len() && #[trigger] cv[i].0 == x;
                    assert(nv[i].0 == x);
                }
            }
            assert forall|i: int, j: int| 0 <= i < j < nv.len() implies #[trigger] nv[i].0
                != #[trigger] nv[j].0 by {
                assert(nv[i].0 == cv[i].0 && nv[j].0 == cv[j].0);
            }
        }
    } else {
        proof {
            assert(!seen.contains(t@)) by {
                if seen.contains(t@) {
                    let i = choose|i: int| 0 <= i < cv.len() && #[trigger] cv[i].0 == t@;
                    assert(cv[i].0 != t@);
                }
            }
            lemma_occurrences_absent(seen, t@);
            lemma_occurrences_push(seen, t@, t@);
        }
        counts.push(TagCount { tag: t.clone(), count: 1 });
        proof {
            let nv = counts_view(counts@);
            assert(nv =~= cv.push((t@, 1nat)));
            assert forall|i: int| 0 <= i < nv.len() implies #[trigger] nv[i].1 == occurrences(
                seen2,
                nv[i].0,
            ) && seen2.contains(nv[i].0) by {
                lemma_occurrences_push(seen, t@, nv[i].0);
                if i < cv.len() {
                    assert(nv[i] == cv[i]);
                    assert(cv[i].0 != t@);
                    assert(cv[i].1 == occurrences(seen, cv[i].0));
                    assert(seen.contains(cv[i].0));
                } else {
                    assert(nv[i] == (t@, 1nat));
                    assert(occurrences(seen, t@) == 0);
                }
                assert(seen2.contains(nv[i].0) <==> (seen.contains(nv[i].0) || nv[i].0 == t@));
            }
            assert forall|x: Seq<char>| seen2.contains(x) implies exists|i: int|
                0 <= i < nv.len() && #[trigger] nv[i].0 == x by {
                if x == t@ {
                    assert(nv[cv.len() as int].0 == x);
                } else {
                    assert(seen.contains(x));
                    let i = choose|i: int| 0 <= i < cv.len() && #[trigger] cv[i].0 == x;
                    assert(nv[i].0 == x);
                }
            }
            assert forall|i: int, j: int| 0 <= i < j < nv.len() implies #[trigger] nv[i].0
                != #[trigger] nv[j].0 by {
                if j < cv.len() {
                    assert(nv[i].0 == cv[i].0 && nv[j].0 == cv[j].0);
                } else {
                    assert(nv[i].0 == cv[i].0);
                }
            }
        }
    }
}

fn str_equal(a: &String, b: &String) -> (r: bool)
    ensures
        r == (a@ == b@),
{
    let av = chars_of(a.as_str());
    let bv = chars_of(b.as_str());
    chars_eq(&av, &bv)
}

proof fn lemma_all_tags_step(p: Seq<Problem>, i: int)
    requires
        0 <= i < p.len(),
    ensures
        all_tags(p.take(i + 1)) == all_tags(p.take(i)) + p[i].tags.deep_view(),
{
    assert(p.take(i + 1).drop_last() =~= p.take(i));
}

proof fn lemma_all_tags_prefix_len(p: Seq<Problem>, i: int)
    requires
        0 <= i <= p.len(),
    ensures
        all_tags(p.take(i)).len() <= all_tags(p).len(),
    decreases p.len() - i,
{
    if i < p.len() {
        lemma_all_tags_step(p, i);
        lemma_all_tags_prefix_len(p, i + 1);
    } else {
        assert(p.take(i) =~= p);
    }
}

/// Every tag of the problems with its number of occurrences, in order of
/// first appearance.
pub fn tally_tags(problems: &[Problem]) -> (r: Vec<TagCount>)
    requires
        all_tags(problems@).len() <= usize::MAX,
    ensures
        is_tally(counts_view(r@), all_tags(problems@)),
{
    let mut counts: Vec<TagCount> = Vec::new();
    let mut i: usize = 0;
    assert(problems@.take(0) =~= Seq::<Problem>::empty());
    assert(counts_view(counts@) =~= Seq::<(Seq<char>, nat)>::empty());
    while i < problems.len()
        invariant
            i <= problems@.len(),
            all_tags(problems@).len() <= usize::MAX,
            is_tally(counts_view(counts@), all_tags(problems@.take(i as int))),
        decreases problems@.len() - i,
    {
        let tags = &problems[i].tags;
        let ghost before = all_tags(problems@.take(i as int));
        let ghost tv = tags.deep_view();
        proof {
            lemma_all_tags_step(problems@, i as int);
            lemma_all_tags_prefix_len(problems@, i + 1);
        }
        let mut j: usize = 0;
        assert(before + tv.take(0) =~= before);
        while j < tags.len()
            invariant
                j <= tags@.len(),
                tv == tags.deep_view(),
                tv.len() == tags@.len(),
                before.len() + tv.len() <= usize::MAX,
                is_tally(counts_view(counts@), before + tv.take(j as int)),
            decreases tags@.len() - j,
        {
            add_tag(&mut counts, &tags[j], Ghost(before + tv.take(j as int)));
            assert((before + tv.take(j as int)).push(tags@[j as int]@) =~= before + tv.take(j + 1));
            j = j + 1;
        }
        assert(tv.take(tv.len() as int) =~= tv);
        i = i + 1;
    }
    assert(problems@.take(problems@.len() as int) =~= problems@);
    counts
}

// ------------------------------------------------------------------
// Ranking
// ------------------------------------------------------------------
pub proof fn lemma_ranks_total(a: (Seq<char>, nat), b: (Seq<char>, nat))
    requires
        a.0 != b.0,
    ensures
        ranks_before(a, b) || ranks_before(b, a),
{
    lemma_lex_total(a.0, b.0);
}

pub proof fn lemma_ranks_transitive(a: (Seq<char>, nat), b: (Seq<char>, nat), c: (Seq<char>, nat))
    requires
        ranks_before(a, b),
        ranks_before(b, c),
    ensures
        ranks_before(a, c),
{
    if a.1 == b.1 && b.1 == c.1 {
        lemma_lex_transitive(a.0, b.0, c.0);
    }
}

pub proof fn lemma_ranks_irreflexive(a: (Seq<char>, nat))
    ensures
        !ranks_before(a, a),
{
    lemma_lex_irreflexive(a.0);
}

fn ranks_before_exec(a: &TagCount, b: &TagCount) -> (r: bool)
    ensures
        r == ranks_before(a@, b@),
{
    if a.count > b.count {
        true
    } else if a.count == b.count {
        let av = chars_of(a.tag.as_str());
        let bv = chars_of(b.tag.as_str());
        lex_less(&av, &bv)
    } else {
        false
    }
}

pub open spec fn is_sorted(r: Seq<(Seq<char>, nat)>) -> bool {
    forall|i: int, j: int| 0 <= i < j < r.len() ==> ranks_before(#[trigger] r[i], #[trigger] r[j])
}

/// Inserts `e`, whose tag is not yet listed, keeping the list ranked.
fn insert_ranked(ranked: &mut Vec<TagCount>, e: TagCount)
    requires
        is_sorted(counts_view(old(ranked)@)),
        forall|i: int| 0 <= i < old(ranked)@.len() ==> #[trigger] old(ranked)@[i]@.0 != e@.0,
    ensures
        is_sorted(counts_view(final(ranked)@)),
        exists|p: int|
            0 <= p <= old(ranked)@.len() && counts_view(final(ranked)@) == counts_view(
                old(ranked)@,
            ).insert(p, e@),
{
    let ghost rv = counts_view(ranked@);
    let mut p: usize = 0;
    let mut found = false;
    while p < ranked.len() && !found
        invariant
            p <= ranked@.len(),
            rv == counts_view(ranked@),
            rv.len() == ranked@.len(),
            forall|m: int| 0 <= m < p ==> !ranks_before(e@, #[trigger] rv[m]),
            found ==> p < rv.len() && ranks_before(e@, rv[p as int]),
        decreases ranked@.len() - p + (if found { 0int } else { 1int }),
    {
        assert(rv[p as int] == ranked@[p as int]@);
        if ranks_before_exec(&e, &ranked[p]) {
            found = true;
        } else {
            p = p + 1;
        }
    }
    let ghost ev = e@;
    ranked.insert(p, e);
    proof {
        let nv = counts_view(ranked@);
        assert(nv =~= rv.insert(p as int, ev));
        assert forall|i: int, j: int| 0 <= i < j < nv.len() implies ranks_before(
            #[trigger] nv[i],
            #[trigger] nv[j],
        ) by {
            if j < p {
                assert(nv[i] == rv[i] && nv[j] == rv[j]);
            } else if j == p {
                assert(nv[i] == rv[i] && nv[j] == ev);
                assert(!ranks_before(ev, rv[i]));
                assert(rv[i] == ranked@[i]@ || true);
                lemma_ranks_total(rv[i], ev);
            } else if i == p {
                assert(nv[j] == rv[j - 1] && nv[i] == ev);
                assert(found);
                if j - 1 > p {
                    assert(ranks_before(rv[p as int], rv[j - 1]));
                    lemma_ranks_transitive(ev, rv[p as int], rv[j - 1]);
                }
            } else if i < p {
                assert(nv[i] == rv[i] && nv[j] == rv[j - 1]);
            } else {
                assert(nv[i] == rv[i - 1] && nv[j] == rv[j - 1]);
            }
        }
    }
}

proof fn lemma_insert_members(r: Seq<(Seq<char>, nat)>, p: int, e: (Seq<char>, nat))
    requires
        0 <= p <= r.len(),
    ensures
        forall|x: (Seq<char>, nat)| #[trigger] r.insert(p, e).contains(x) <==> (r.contains(x) || x == e),
        r.insert(p, e).len() == r.len() + 1,
{
    let n = r.insert(p, e);
    assert forall|x: (Seq<char>, nat)| #[trigger] n.contains(x) <==> (r.contains(x) || x == e) by {
        if n.contains(x) {
            let k = choose|k: int| 0 <= k < n.len() && n[k] == x;
            if k < p {
                assert(r[k] == x);
            } else if k > p {
                assert(r[k - 1] == x);
            }
        }
        if r.contains(x) {
            let k = choose|k: int| 0 <= k < r.len() && r[k] == x;
            if k < p {
                assert(n[k] == x);
            } else {
                assert(n[k + 1] == x);
            }
        }
        if x == e {
            assert(n[p] == x);
        }
    }
}

/// The tags of the problems with their numbers of occurrences, most
/// frequent first, equally frequent tags in string order.
pub fn rank_tags(problems: &[Problem]) -> (r: Vec<TagCount>)
    requires
        all_tags(problems@).len() <= usize::MAX,
    ensures
        is_ranking(counts_view(r@), all_tags(problems@)),
        counts_view(r@) == ranking_of(all_tags(problems@)),
{
    let tally = tally_tags(problems);
    let ghost tv = counts_view(tally@);
    let ghost tags = all_tags(problems@);
    let mut ranked: Vec<TagCount> = Vec::new();
    let mut m: usize = 0;
    assert(counts_view(ranked@) =~= Seq::<(Seq<char>, nat)>::empty());
    while m < tally.len()
        invariant
            m <= tally@.len(),
            tv == counts_view(tally@),
            tv.len() == tally@.len(),
            is_tally(tv, tags),
            is_sorted(counts_view(ranked@)),
            counts_view(ranked@).len() == m,
            forall|x: (Seq<char>, nat)|
                #[trigger] counts_view(ranked@).contains(x) <==> tv.take(m as int).contains(x),
            forall|i: int, j: int|
                0 <= i < j < counts_view(ranked@).len() ==> #[trigger] counts_view(ranked@)[i].0
                    != #[trigger] counts_view(ranked@)[j].0,
        decreases tally@.len() - m,
    {
        let ghost rv = counts_view(ranked@);
        let e = TagCount { tag: tally[m].tag.clone(), count: tally[m].count };
        assert(e@ == tv[m as int]);
        assert forall|i: int| 0 <= i < ranked@.len() implies #[trigger] ranked@[i]@.0 != e@.0 by {
            assert(rv[i] == ranked@[i]@);
            assert(rv.contains(rv[i]));
            assert(tv.take(m as int).contains(rv[i]));
            let t0 = tv.take(m as int);
            let k = choose|k: int| 0 <= k < t0.len() && t0[k] == rv[i];
            assert(tv[k] == rv[i]);
            assert(tv[k].0 != tv[m as int].0);
        }
        insert_ranked(&mut ranked, e);
        proof {
            let nv = counts_view(ranked@);
            let p = choose|p: int| 0 <= p <= rv.len() && nv == rv.insert(p, tv[m as int]);
            lemma_insert_members(rv, p, tv[m as int]);
            let t0 = tv.take(m as int);
            let t1 = tv.take(m + 1);
            assert(t1 =~= t0.push(tv[m as int]));
            assert forall|x: (Seq<char>, nat)| #[trigger] nv.contains(x) <==> t1.contains(x) by {
                if t1.contains(x) {
                    let k = choose|k: int| 0 <= k < t1.len() && t1[k] == x;
                    if k < m {
                        assert(t0[k] == x);
                    }
                }
                if t0.contains(x) {
                    let k = choose|k: int| 0 <= k < t0.len() && t0[k] == x;
                    assert(t1[k] == x);
                }
                if x == tv[m as int] {
                    assert(t1[m as int] == x);
                }
            }
            assert forall|i: int, j: int| 0 <= i < j < nv.len() implies #[trigger] nv[i].0
                != #[trigger] nv[j].0 by {
                assert(ranks_before(nv[i], nv[j]));
                if nv[i].0 == nv[j].0 {
                    assert(nv.contains(nv[i]) && nv.contains(nv[j]));
                    let a = choose|a: int| 0 <= a < t1.len() && t1[a] == nv[i];
                    let b = choose|b: int| 0 <= b < t1.len() && t1[b] == nv[j];
                    assert(tv[a] == nv[i] && tv[b] == nv[j]);
                    if a != b {
                        if a < b {
                            assert(tv[a].0 != tv[b].0);
                        } else {
                            assert(tv[b].0 != tv[a].0);
                        }
                    }
                    lemma_ranks_irreflexive(nv[i]);
                }
            }
        }
        m = m + 1;
    }
    proof {
        let rv = counts_view(ranked@);
        assert(tv.take(tv.len() as int) =~= tv);
        assert forall|i: int| 0 <= i < rv.len() implies #[trigger] rv[i].1 == occurrences(tags, rv[i].0)
            && tags.contains(rv[i].0) by {
            assert(rv.contains(rv[i]));
            let k = choose|k: int| 0 <= k < tv.len() && tv[k] == rv[i];
            assert(tv[k].1 == occurrences(tags, tv[k].0));
        }
        assert forall|t: Seq<char>| tags.contains(t) implies exists|i: int|
            0 <= i < rv.len() && #[trigger] rv[i].0 == t by {
            let k = choose|k: int| 0 <= k < tv.len() && #[trigger] tv[k].0 == t;
            assert(tv.contains(tv[k]));
            assert(rv.contains(tv[k]));
            let i = choose|i: int| 0 <= i < rv.len() && rv[i] == tv[k];
            assert(rv[i].0 == t);
        }
        assert(is_ranking(rv, tags));
        law_ranking_is_unique(rv, ranking_of(tags), tags);
    }
    ranked
}

proof fn lemma_sorted_same_members(a: Seq<(Seq<char>, nat)>, b: Seq<(Seq<char>, nat)>)
    requires
        is_sorted(a),
        is_sorted(b),
        forall|x: (Seq<char>, nat)|
            #![trigger a.contains(x)]
            #![trigger b.contains(x)]
            a.contains(x) <==> b.contains(x),
    ensures
        a == b,
    decreases a.len(),
{
    if a.len() == 0 {
        if b.len() > 0 {
            assert(b.contains(b[0]));
        }
        assert(b =~= a);
    } else if b.len() == 0 {
        assert(a.contains(a[0]));
    } else {
        assert(a.contains(a[0]));
        assert(b.contains(b[0]));
        let k = choose|k: int| 0 <= k < b.len() && b[k] == a[0];
        let m = choose|m: int| 0 <= m < a.len() && a[m] == b[0];
        if k > 0 {
            assert(ranks_before(b[0], b[k]));
            if m > 0 {
                assert(ranks_before(a[0], a[m]));
                lemma_ranks_transitive(a[0], a[m], a[0]);
                lemma_ranks_irreflexive(a[0]);
            } else {
                lemma_ranks_irreflexive(a[0]);
            }
        }
        assert(a[0] == b[0]);
        let a1 = a.drop_first();
        let b1 = b.drop_first();
        assert forall|i: int, j: int| 0 <= i < j < a1.len() implies ranks_before(
            #[trigger] a1[i],
            #[trigger] a1[j],
        ) by {
            assert(a1[i] == a[i + 1] && a1[j] == a[j + 1]);
        }
        assert forall|i: int, j: int| 0 <= i < j < b1.len() implies ranks_before(
            #[trigger] b1[i],
            #[trigger] b1[j],
        ) by {
            assert(b1[i] == b[i + 1] && b1[j] == b[j + 1]);
        }
        assert forall|x: (Seq<char>, nat)|
            #![trigger a1.contains(x)]
            #![trigger b1.contains(x)]
            a1.contains(x) <==> b1.contains(x) by {
            if a1.contains(x) {
                let i = choose|i: int| 0 <= i < a1.len() && a1[i] == x;
                assert(a[i + 1] == x);
                assert(ranks_before(a[0], a[i + 1]));
                assert(x != a[0]) by {
                    lemma_ranks_irreflexive(x);
                }
                assert(b.contains(x));
                let j = choose|j: int| 0 <= j < b.len() && b[j] == x;
                assert(j != 0);
                assert(b1[j - 1] == x);
            }
            if b1.contains(x) {
                let i = choose|i: int| 0 <= i < b1.len() && b1[i] == x;
                assert(b[i + 1] == x);
                assert(ranks_before(b[0], b[i + 1]));
                assert(x != b[0]) by {
                    lemma_ranks_irreflexive(x);
                }
                assert(a.contains(x));
                let j = choose|j: int| 0 <= j < a.len() && a[j] == x;
                assert(j != 0);
                assert(a1[j - 1] == x);
            }
        }
        lemma_sorted_same_members(a1, b1);
        assert(a =~= seq![a[0]] + a1);
        assert(b =~= seq![b[0]] + b1);
    }
}

/// The ranking of a tag list is unique: whatever lists each tag once with
/// its count, most frequent first and ties in string order, is the same
/// list.
pub proof fn law_ranking_is_unique(
    r1: Seq<(Seq<char>, nat)>,
    r2: Seq<(Seq<char>, nat)>,
    tags: Seq<Seq<char>>,
)
    requires
        is_ranking(r1, tags),
        is_ranking(r2, tags),
    ensures
        r1 == r2,
{
    assert forall|x: (Seq<char>, nat)|
        #![trigger r1.contains(x)]
        #![trigger r2.contains(x)]
        r1.contains(x) <==> r2.contains(x) by {
        if r1.contains(x) {
            let i = choose|i: int| 0 <= i < r1.len() && r1[i] == x;
            assert(r1[i].1 == occurrences(tags, r1[i].0));
            assert(tags.contains(r1[i].0));
            let j = choose|j: int| 0 <= j < r2.len() && #[trigger] r2[j].0 == r1[i].0;
            assert(r2[j].1 == occurrences(tags, r2[j].0));
            assert(r2[j] == x);
        }
        if r2.contains(x) {
            let i = choose|i: int| 0 <= i < r2.len() && r2[i] == x;
            assert(r2[i].1 == occurrences(tags, r2[i].0));
            assert(tags.contains(r2[i].0));
            let j = choose|j: int| 0 <= j < r1.len() && #[trigger] r1[j].0 == r2[i].0;
            assert(r1[j].1 == occurrences(tags, r1[j].0));
            assert(r1[j] == x);
        }
    }
    lemma_sorted_same_members(r1, r2);
}

} // verus!

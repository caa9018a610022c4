//! Properties of sanitizing and extraction planning that hold for all inputs.
use vstd::prelude::*;

use crate::extract::{destination, join_path, planned, Planned};
use crate::sanitize::{
    is_normal, is_sep, join_components, keep_normal, lemma_truncate_prefix, names_dir, sanitized_path,
    split_components, truncate_at_nul,
};

verus! {

/// Whether `x` holds no separator.
pub open spec fn no_sep(x: Seq<char>) -> bool {
    forall|j: int| 0 <= j < x.len() ==> !is_sep(#[trigger] x[j])
}

/// Whether `x` holds no NUL.
pub open spec fn no_nul(x: Seq<char>) -> bool {
    forall|j: int| 0 <= j < x.len() ==> #[trigger] x[j] != '\0'
}

/// A name with a NUL sanitizes as the part before its first NUL does.
pub proof fn law_nul_truncates(s: Seq<char>, k: int)
    requires
        0 <= k < s.len(),
        s[k] == '\0',
        forall|j: int| 0 <= j < k ==> s[j] != '\0',
    ensures
        sanitized_path(s) == sanitized_path(s.take(k)),
{
    lemma_truncate_prefix(s, k);
    lemma_truncate_prefix(s.take(k), k);
    assert(s.take(k).take(k) =~= s.take(k));
}

proof fn lemma_split_parts(s: Seq<char>)
    ensures
        split_components(s).len() >= 1,
        forall|k: int| 0 <= k < split_components(s).len() ==> no_sep(#[trigger] split_components(s)[k]),
        no_nul(s) ==> forall|k: int| 0 <= k < split_components(s).len() ==> no_nul(#[trigger] split_components(s)[k]),
    decreases s.len(),
{
    if s.len() > 0 {
        let prev = split_components(s.drop_last());
        lemma_split_parts(s.drop_last());
        let cur = split_components(s);
        if !is_sep(s.last()) {
            let l = prev.last().push(s.last());
            assert(no_sep(prev[prev.len() - 1]));
            assert(no_sep(l));
            if no_nul(s) {
                assert(no_nul(s.drop_last()));
                assert(no_nul(prev[prev.len() - 1]));
                assert(no_nul(l));
            }
            assert forall|k: int| 0 <= k < cur.len() implies no_sep(#[trigger] cur[k]) by {
                if k < prev.len() - 1 {
                    assert(cur[k] == prev[k]);
                }
            }
            if no_nul(s) {
                assert forall|k: int| 0 <= k < cur.len() implies no_nul(#[trigger] cur[k]) by {
                    if k < prev.len() - 1 {
                        assert(cur[k] == prev[k]);
                    }
                }
            }
        } else {
            assert(no_sep(Seq::<char>::empty()));
            assert forall|k: int| 0 <= k < cur.len() implies no_sep(#[trigger] cur[k]) by {
                if k < prev.len() {
                    assert(cur[k] == prev[k]);
                }
            }
            if no_nul(s) {
                assert(no_nul(s.drop_last()));
                assert forall|k: int| 0 <= k < cur.len() implies no_nul(#[trigger] cur[k]) by {
                    if k < prev.len() {
                        assert(cur[k] == prev[k]);
                    }
                }
            }
        }
    }
}

proof fn lemma_keep_normal_parts(cs: Seq<Seq<char>>, nul_free: bool)
    requires
        forall|k: int| 0 <= k < cs.len() ==> no_sep(#[trigger] cs[k]),
        nul_free ==> forall|k: int| 0 <= k < cs.len() ==> no_nul(#[trigger] cs[k]),
    ensures
        forall|k: int|
            0 <= k < keep_normal(cs).len() ==> is_normal(#[trigger] keep_normal(cs)[k]) && no_sep(
                keep_normal(cs)[k],
            ) && (nul_free ==> no_nul(keep_normal(cs)[k])),
    decreases cs.len(),
{
    if cs.len() > 0 {
        let prev = keep_normal(cs.drop_last());
        assert forall|k: int| 0 <= k < cs.drop_last().len() implies no_sep(
            #[trigger] cs.drop_last()[k],
        ) by {
            assert(cs.drop_last()[k] == cs[k]);
        }
        if nul_free {
            assert forall|k: int| 0 <= k < cs.drop_last().len() implies no_nul(
                #[trigger] cs.drop_last()[k],
            ) by {
                assert(cs.drop_last()[k] == cs[k]);
            }
        }
        lemma_keep_normal_parts(cs.drop_last(), nul_free);
        if is_normal(cs.last()) {
            assert(no_sep(cs[cs.len() - 1]));
            assert forall|k: int| 0 <= k < keep_normal(cs).len() implies is_normal(
                #[trigger] keep_normal(cs)[k],
            ) && no_sep(keep_normal(cs)[k]) && (nul_free ==> no_nul(keep_normal(cs)[k])) by {
                if k < prev.len() {
                    assert(keep_normal(cs)[k] == prev[k]);
                }
            }
        }
    }
}

proof fn lemma_split_plain(x: Seq<char>)
    requires
        no_sep(x),
    ensures
        split_components(x) == seq![x],
    decreases x.len(),
{
    if x.len() == 0 {
        assert(x =~= Seq::<char>::empty());
    } else {
        let p = x.drop_last();
        assert(no_sep(p));
        lemma_split_plain(p);
        assert(!is_sep(x[x.len() - 1]));
        assert(p.push(x.last()) =~= x);
        let prev = split_components(p);
        assert(prev.len() == 1 && prev.last() == p);
        assert(prev.update(0, x) =~= seq![x]);
    }
}

proof fn lemma_split_append(a: Seq<char>, b: Seq<char>)
    requires
        no_sep(b),
    ensures
        split_components(a + b) == split_components(a).update(
            split_components(a).len() - 1,
            split_components(a).last() + b,
        ),
    decreases b.len(),
{
    lemma_split_parts(a);
    if b.len() == 0 {
        assert(a + b =~= a);
        assert(split_components(a).last() + b =~= split_components(a).last());
        assert(split_components(a).update(
            split_components(a).len() - 1,
            split_components(a).last(),
        ) =~= split_components(a));
    } else {
        let bp = b.drop_last();
        assert(no_sep(bp));
        lemma_split_append(a, bp);
        assert((a + b).drop_last() =~= a + bp);
        assert((a + b).last() == b.last());
        assert(!is_sep(b[b.len() - 1]));
        let sa = split_components(a);
        let sp = split_components(a + bp);
        assert(sp.last() == sa.last() + bp);
        assert(sa.last() + bp.push(b.last()) =~= sa.last() + b);
        assert(bp.push(b.last()) =~= b);
        assert(sp.update(sp.len() - 1, sp.last().push(b.last())) =~= sa.update(
            sa.len() - 1,
            sa.last() + b,
        ));
    }
}

proof fn lemma_split_join(cs: Seq<Seq<char>>)
    requires
        cs.len() > 0,
        forall|k: int| 0 <= k < cs.len() ==> no_sep(#[trigger] cs[k]),
    ensures
        split_components(join_components(cs)) == cs,
    decreases cs.len(),
{
    if cs.len() == 1 {
        assert(no_sep(cs[0]));
        lemma_split_plain(cs[0]);
        assert(seq![cs[0]] =~= cs);
    } else {
        let p = cs.drop_last();
        assert forall|k: int| 0 <= k < p.len() implies no_sep(#[trigger] p[k]) by {
            assert(p[k] == cs[k]);
        }
        lemma_split_join(p);
        let a = join_components(p).push('/');
        assert(a.drop_last() =~= join_components(p));
        assert(split_components(a) == p.push(Seq::<char>::empty()));
        assert(no_sep(cs[cs.len() - 1]));
        lemma_split_append(a, cs.last());
        assert(Seq::<char>::empty() + cs.last() =~= cs.last());
        assert(p.push(Seq::<char>::empty()).update(p.len() as int, cs.last()) =~= cs);
    }
}

proof fn lemma_join_chars(cs: Seq<Seq<char>>)
    requires
        forall|k: int| 0 <= k < cs.len() ==> no_sep(#[trigger] cs[k]) && no_nul(cs[k]),
    ensures
        forall|i: int|
            0 <= i < join_components(cs).len() ==> #[trigger] join_components(cs)[i] == '/' || (
            !is_sep(join_components(cs)[i]) && join_components(cs)[i] != '\0'),
        cs.len() > 0 ==> join_components(cs).len() >= cs[0].len() && forall|i: int|
            0 <= i < cs[0].len() ==> #[trigger] join_components(cs)[i] == cs[0][i],
    decreases cs.len(),
{
    if cs.len() == 1 {
        assert(no_sep(cs[0]) && no_nul(cs[0]));
    } else if cs.len() > 1 {
        let p = cs.drop_last();
        assert forall|k: int| 0 <= k < p.len() implies no_sep(#[trigger] p[k]) && no_nul(p[k]) by {
            assert(p[k] == cs[k]);
        }
        lemma_join_chars(p);
        assert(no_sep(cs[cs.len() - 1]) && no_nul(cs[cs.len() - 1]));
        let j = join_components(cs);
        let jp = join_components(p);
        assert forall|i: int| 0 <= i < j.len() implies #[trigger] j[i] == '/' || (!is_sep(j[i])
            && j[i] != '\0') by {
            if i < jp.len() {
                assert(j[i] == jp[i]);
            } else if i > jp.len() {
                assert(j[i] == cs.last()[i - jp.len() - 1]);
            }
        }
        assert(p[0] == cs[0]);
        assert forall|i: int| 0 <= i < cs[0].len() implies #[trigger] j[i] == cs[0][i] by {
            assert(j[i] == jp[i]);
        }
    }
}

proof fn lemma_truncate_no_nul(s: Seq<char>)
    ensures
        no_nul(truncate_at_nul(s)),
    decreases s.len(),
{
    if s.len() > 0 && s[0] != '\0' {
        lemma_truncate_no_nul(s.drop_first());
        let t = truncate_at_nul(s);
        let r = truncate_at_nul(s.drop_first());
        assert forall|i: int| 0 <= i < t.len() implies #[trigger] t[i] != '\0' by {
            if i > 0 {
                assert(t[i] == r[i - 1]);
            }
        }
    }
}

/// A sanitized path is empty or made only of plain names (no empty
/// component, so no root; no `.`; no `..`), split by `/`; it holds neither
/// `\` nor NUL. Placed under any root it is that root followed by the path,
/// with at most one `/` between them, so it stays below that root.
pub proof fn law_sanitized_is_confined(s: Seq<char>, root: Seq<char>)
    ensures
        ({
            let r = sanitized_path(s);
            let d = join_path(root, r);
            &&& no_nul(r)
            &&& forall|j: int| 0 <= j < r.len() ==> #[trigger] r[j] != '\\'
            &&& r.len() == 0 || forall|k: int|
                0 <= k < split_components(r).len() ==> is_normal(#[trigger] split_components(r)[k])
            &&& r.len() == 0 || r[0] != '/'
            &&& d.len() >= root.len()
            &&& d.take(root.len() as int) == root
            &&& d.skip(root.len() as int) == r || d.skip(root.len() as int) == seq!['/'] + r
        }),
{
    let t = truncate_at_nul(s);
    lemma_truncate_no_nul(s);
    lemma_split_parts(t);
    let segs = split_components(t);
    lemma_keep_normal_parts(segs, true);
    let kept = keep_normal(segs);
    let r = sanitized_path(s);
    lemma_join_chars(kept);
    assert forall|j: int| 0 <= j < r.len() implies #[trigger] r[j] != '\0' by {
        assert(r[j] == '/' || r[j] != '\0');
    }
    assert forall|j: int| 0 <= j < r.len() implies #[trigger] r[j] != '\\' by {
        assert(r[j] == '/' || !is_sep(r[j]));
    }
    if kept.len() > 0 {
        lemma_split_join(kept);
        assert forall|k: int| 0 <= k < split_components(r).len() implies is_normal(
            #[trigger] split_components(r)[k],
        ) by {
            assert(split_components(r)[k] == kept[k]);
        }
        assert(is_normal(kept[0]) && no_sep(kept[0]));
        assert(r[0] == kept[0][0]);
        assert(!is_sep(kept[0][0]));
    } else {
        assert(r.len() == 0);
    }
    let d = join_path(root, r);
    if r.len() == 0 {
        assert(d.take(root.len() as int) =~= root);
        assert(d.skip(root.len() as int) =~= r);
    } else if root.len() == 0 {
        assert(d.take(0) =~= root);
        assert(d.skip(0) =~= r);
    } else if root.last() == '/' {
        assert(d.take(root.len() as int) =~= root);
        assert(d.skip(root.len() as int) =~= r);
    } else {
        assert(d.take(root.len() as int) =~= root);
        assert(d.skip(root.len() as int) =~= seq!['/'] + r);
    }
}

/// A name that ends in a separator is made as a directory, at the joined path.
pub proof fn law_trailing_separator_is_dir(s: Seq<char>, root: Seq<char>)
    requires
        s.len() > 0,
        is_sep(s.last()),
    ensures
        names_dir(s),
        planned(root, sanitized_path(s), names_dir(s)) == Planned::Dir(
            join_path(root, sanitized_path(s)),
        ),
{
}

/// The set of destinations of a batch of entries does not depend on the
/// order in which the entries are handled: any reordering of the indices
/// yields the same set as index order.
pub proof fn law_order_free_destinations(
    root: Seq<char>,
    rels: Seq<Seq<char>>,
    dirs: Seq<bool>,
    order: Seq<int>,
)
    requires
        rels.len() == dirs.len(),
        order.len() == rels.len(),
        forall|j: int| 0 <= j < order.len() ==> 0 <= #[trigger] order[j] < rels.len(),
        forall|i: int|
            #![trigger rels[i]]
            0 <= i < rels.len() ==> exists|j: int| 0 <= j < order.len() && #[trigger] order[j] == i,
    ensures
        Set::new(|d: Seq<char>| exists|i: int| 0 <= i < rels.len() && d == destination(
            #[trigger] planned(root, rels[i], dirs[i]),
        )) == Set::new(|d: Seq<char>| exists|j: int| 0 <= j < order.len() && d == destination(
            #[trigger] planned(root, rels[order[j]], dirs[order[j]]),
        )),
{
    let a = Set::new(|d: Seq<char>| exists|i: int| 0 <= i < rels.len() && d == destination(
        #[trigger] planned(root, rels[i], dirs[i]),
    ));
    let b = Set::new(|d: Seq<char>| exists|j: int| 0 <= j < order.len() && d == destination(
        #[trigger] planned(root, rels[order[j]], dirs[order[j]]),
    ));
    assert forall|d: Seq<char>| a.contains(d) implies b.contains(d) by {
        let i = choose|i: int| 0 <= i < rels.len() && d == destination(
            #[trigger] planned(root, rels[i], dirs[i]),
        );
        let j = choose|j: int| 0 <= j < order.len() && #[trigger] order[j] == i;
        assert(d == destination(planned(root, rels[order[j]], dirs[order[j]])));
    }
    assert forall|d: Seq<char>| b.contains(d) implies a.contains(d) by {
        let j = choose|j: int| 0 <= j < order.len() && d == destination(
            #[trigger] planned(root, rels[order[j]], dirs[order[j]]),
        );
        let i = order[j];
        assert(0 <= i < rels.len());
        assert(d == destination(planned(root, rels[i], dirs[i])));
    }
    assert(a =~= b);
}

} // verus!

//! Turning a decoded entry name into a safe relative path.
use vstd::prelude::*;

use crate::text::{chars_of, string_of};

verus! {

/// Whether `c` separates path components inside an entry name.
pub open spec fn is_sep(c: char) -> bool {
    c == '/' || c == '\\'
}

/// The name cut at its first NUL character (the whole name when it has none).
pub open spec fn truncate_at_nul(s: Seq<char>) -> Seq<char>
    decreases s.len(),
{
    if s.len() == 0 {
        s
    } else if s[0] == '\0' {
        Seq::empty()
    } else {
        seq![s[0]] + truncate_at_nul(s.drop_first())
    }
}

/// The components of `s` between separators, empty ones included.
pub open spec fn split_components(s: Seq<char>) -> Seq<Seq<char>>
    decreases s.len(),
{
    if s.len() == 0 {
        seq![Seq::empty()]
    } else {
        let prev = split_components(s.drop_last());
        if is_sep(s.last()) {
            prev.push(Seq::empty())
        } else {
            prev.update(prev.len() - 1, prev.last().push(s.last()))
        }
    }
}

/// A plain name: not empty, not `.`, not `..`.
pub open spec fn is_normal(c: Seq<char>) -> bool {
    c.len() != 0 && c != seq!['.'] && c != seq!['.', '.']
}

/// The plain names among `cs`, in order.
pub open spec fn keep_normal(cs: Seq<Seq<char>>) -> Seq<Seq<char>>
    decreases cs.len(),
{
    if cs.len() == 0 {
        cs
    } else if is_normal(cs.last()) {
        keep_normal(cs.drop_last()).push(cs.last())
    } else {
        keep_normal(cs.drop_last())
    }
}

/// The components joined by `/`.
pub open spec fn join_components(cs: Seq<Seq<char>>) -> Seq<char>
    decreases cs.len(),
{
    if cs.len() == 0 {
        Seq::empty()
    } else if cs.len() == 1 {
        cs[0]
    } else {
        join_components(cs.drop_last()).push('/') + cs.last()
    }
}

/// The safe relative path of a decoded name: cut at the first NUL, split at
/// either separator, only plain names kept, joined by `/`.
pub open spec fn sanitized_path(s: Seq<char>) -> Seq<char> {
    join_components(keep_normal(split_components(truncate_at_nul(s))))
}

/// A name that ends in a separator stands for a directory.
pub open spec fn names_dir(s: Seq<char>) -> bool {
    s.len() > 0 && is_sep(s.last())
}

/// A destination path relative to the extraction root, and whether the entry
/// is a directory.
#[derive(Debug, Clone)]
pub struct SanitizedZipPath {
    pub cont: String,
    pub is_dir: bool,
}

impl SanitizedZipPath {
    /// Sanitizes a decoded entry name.
    pub fn from(s: String) -> (r: SanitizedZipPath)
        ensures
            r.cont@ == sanitized_path(s@),
            r.is_dir == names_dir(s@),
    {
        let cs = chars_of(s.as_str());
        let n = cs.len();
        let is_dir = n > 0 && (cs[n - 1] == '/' || cs[n - 1] == '\\');
        let t = cut_at_nul(&cs);
        let out = join_plain_components(&t);
        SanitizedZipPath { cont: string_of(out.as_slice()), is_dir }
    }

    pub fn is_dir(&self) -> (r: bool)
        ensures
            r == self.is_dir,
    {
        self.is_dir
    }

    /// The relative path as text.
    pub fn as_ref(&self) -> (r: &str)
        ensures
            r@ == self.cont@,
    {
        self.cont.as_str()
    }
}

/// Cutting at the first NUL keeps exactly the characters before it.
pub proof fn lemma_truncate_prefix(s: Seq<char>, i: int)
    requires
        0 <= i <= s.len(),
        forall|j: int| 0 <= j < i ==> s[j] != '\0',
        i == s.len() || s[i] == '\0',
    ensures
        truncate_at_nul(s) == s.take(i),
    decreases i,
{
    if i == 0 {
        assert(s.take(0) =~= Seq::<char>::empty());
    } else {
        let t = s.drop_first();
        lemma_truncate_prefix(t, i - 1);
        assert(seq![s[0]] + t.take(i - 1) =~= s.take(i));
    }
}

/// The characters of `cs` before its first NUL.
fn cut_at_nul(cs: &Vec<char>) -> (r: Vec<char>)
    ensures
        r@ == truncate_at_nul(cs@),
{
    let mut r: Vec<char> = Vec::new();
    let mut i: usize = 0;
    while i < cs.len() && cs[i] != '\0'
        invariant
            i <= cs.len(),
            r@ == cs@.take(i as int),
            forall|j: int| 0 <= j < i ==> cs@[j] != '\0',
        decreases cs.len() - i,
    {
        r.push(cs[i]);
        i = i + 1;
        assert(r@ =~= cs@.take(i as int));
    }
    proof {
        lemma_truncate_prefix(cs@, i as int);
    }
    r
}

proof fn lemma_join_empty(cs: Seq<Seq<char>>)
    requires
        forall|k: int| 0 <= k < cs.len() ==> is_normal(#[trigger] cs[k]),
    ensures
        join_components(cs).len() == 0 <==> cs.len() == 0,
    decreases cs.len(),
{
    if cs.len() > 1 {
        lemma_join_empty(cs.drop_last());
    }
}

proof fn lemma_keep_normal_all(cs: Seq<Seq<char>>)
    ensures
        forall|k: int| 0 <= k < keep_normal(cs).len() ==> is_normal(#[trigger] keep_normal(cs)[k]),
    decreases cs.len(),
{
    if cs.len() > 0 {
        let prev = keep_normal(cs.drop_last());
        lemma_keep_normal_all(cs.drop_last());
        if is_normal(cs.last()) {
            assert forall|k: int| 0 <= k < keep_normal(cs).len() implies is_normal(
                #[trigger] keep_normal(cs)[k],
            ) by {
                if k < prev.len() {
                    assert(keep_normal(cs)[k] == prev[k]);
                }
            }
        }
    }
}

proof fn lemma_split_nonempty(s: Seq<char>)
    ensures
        split_components(s).len() >= 1,
    decreases s.len(),
{
    if s.len() > 0 {
        lemma_split_nonempty(s.drop_last());
    }
}

/// Whether `cur` is `.` or `..`.
fn is_dot_name(cur: &Vec<char>) -> (r: bool)
    ensures
        r == (cur@ == seq!['.'] || cur@ == seq!['.', '.']),
{
    if cur.len() == 1 {
        let b = cur[0] == '.';
        if b {
            assert(cur@ =~= seq!['.']);
        } else {
            assert(cur@ != seq!['.', '.']);
        }
        b
    } else if cur.len() == 2 {
        let b = cur[0] == '.' && cur[1] == '.';
        if b {
            assert(cur@ =~= seq!['.', '.']);
        } else {
            assert(cur@[0] != '.' || cur@[1] != '.');
            assert(cur@ != seq!['.', '.']);
        }
        b
    } else {
        false
    }
}

/// Appends `cur` to `out` as one more component of a `/`-joined path.
fn append_component(out: &mut Vec<char>, cur: &Vec<char>, Ghost(done): Ghost<Seq<Seq<char>>>)
    requires
        old(out)@ == join_components(done),
        forall|k: int| 0 <= k < done.len() ==> is_normal(#[trigger] done[k]),
    ensures
        final(out)@ == join_components(done.push(cur@)),
{
    proof {
        lemma_join_empty(done);
    }
    let ghost d2 = done.push(cur@);
    assert(d2.drop_last() =~= done);
    if out.len() > 0 {
        out.push('/');
    } else {
        proof {
            assert(done.len() == 0);
            assert(d2.len() == 1);
        }
    }
    let mut j: usize = 0;
    let ghost base = out@;
    while j < cur.len()
        invariant
            j <= cur.len(),
            out@ == base + cur@.take(j as int),
        decreases cur.len() - j,
    {
        out.push(cur[j]);
        j = j + 1;
        assert(out@ =~= base + cur@.take(j as int));
    }
    assert(cur@.take(cur@.len() as int) =~= cur@);
    proof {
        if done.len() == 0 {
            assert(out@ =~= cur@);
        }
    }
}

/// The plain components of `t`, split at either separator and joined by `/`.
fn join_plain_components(t: &Vec<char>) -> (r: Vec<char>)
    ensures
        r@ == join_components(keep_normal(split_components(t@))),
{
    let mut out: Vec<char> = Vec::new();
    let mut cur: Vec<char> = Vec::new();
    let mut i: usize = 0;
    assert(t@.take(0) =~= Seq::<char>::empty());
    while i < t.len()
        invariant
            i <= t.len(),
            cur@ == split_components(t@.take(i as int)).last(),
            out@ == join_components(keep_normal(split_components(t@.take(i as int)).drop_last())),
        decreases t.len() - i,
    {
        let ghost pre = t@.take(i as int);
        let ghost segs = split_components(pre);
        let ghost next = t@.take(i as int + 1);
        proof {
            lemma_split_nonempty(pre);
        }
        assert(next.drop_last() =~= pre);
        assert(next.last() == t@[i as int]);
        let c = t[i];
        if c == '/' || c == '\\' {
            proof {
                lemma_keep_normal_all(segs.drop_last());
            }
            if cur.len() > 0 && !is_dot_name(&cur) {
                append_component(&mut out, &cur, Ghost(keep_normal(segs.drop_last())));
                assert(segs.drop_last().push(segs.last()) =~= segs);
            } else {
                assert(segs.drop_last().push(segs.last()) =~= segs);
            }
            cur = Vec::new();
            assert(split_components(next).drop_last() =~= segs);
        } else {
            cur.push(c);
            assert(split_components(next).drop_last() =~= segs.drop_last());
        }
        i = i + 1;
    }
    let ghost segs = split_components(t@);
    assert(t@.take(t@.len() as int) =~= t@);
    proof {
        lemma_split_nonempty(t@);
        lemma_keep_normal_all(segs.drop_last());
    }
    if cur.len() > 0 && !is_dot_name(&cur) {
        append_component(&mut out, &cur, Ghost(keep_normal(segs.drop_last())));
    }
    assert(segs.drop_last().push(segs.last()) =~= segs);
    out
}

} // verus!

//! What each archive entry becomes under the extraction root, and how the
//! outcomes of all entries combine.
use vstd::prelude::*;
use vstd::string::StringExecFns;

use crate::sanitize::SanitizedZipPath;
use crate::text::{chars_of, string_of};

verus! {

/// `rel` placed under `root`: joined by `/` unless one side is empty or
/// `root` already ends in `/`.
pub open spec fn join_path(root: Seq<char>, rel: Seq<char>) -> Seq<char> {
    if rel.len() == 0 {
        root
    } else if root.len() == 0 {
        rel
    } else if root.last() == '/' {
        root + rel
    } else {
        root.push('/') + rel
    }
}

/// The text of `rel` before its last `/` (empty when it has none).
pub open spec fn parent_rel(rel: Seq<char>) -> Seq<char>
    decreases rel.len(),
{
    if rel.len() == 0 {
        rel
    } else if rel.last() == '/' {
        rel.drop_last()
    } else {
        parent_rel(rel.drop_last())
    }
}

/// What is made on disk for one entry, as a mathematical value.
pub enum Planned {
    Dir(Seq<char>),
    File { parent: Seq<char>, path: Seq<char> },
}

/// What is made on disk for an entry with relative path `rel`.
pub open spec fn planned(root: Seq<char>, rel: Seq<char>, is_dir: bool) -> Planned {
    if is_dir {
        Planned::Dir(join_path(root, rel))
    } else {
        Planned::File { parent: join_path(root, parent_rel(rel)), path: join_path(root, rel) }
    }
}

/// The destination path of a planned entry.
pub open spec fn destination(p: Planned) -> Seq<char> {
    match p {
        Planned::Dir(d) => d,
        Planned::File { path, .. } => path,
    }
}

/// What is made on disk for one entry.
#[derive(Debug, Clone)]
pub enum ExtractAction {
    /// Create this directory and any missing ancestors.
    CreateDir { path: String },
    /// Create `parent` and any missing ancestors, then write the entry's
    /// contents to a new file at `path`.
    WriteFile { parent: String, path: String },
}

impl View for ExtractAction {
    type V = Planned;

    open spec fn view(&self) -> Planned {
        match self {
            ExtractAction::CreateDir { path } => Planned::Dir(path@),
            ExtractAction::WriteFile { parent, path } => Planned::File {
                parent: parent@,
                path: path@,
            },
        }
    }
}

impl ExtractAction {
    /// The path that the action creates.
    pub fn destination(&self) -> (r: &str)
        ensures
            r@ == destination(self@),
    {
        match self {
            ExtractAction::CreateDir { path } => path.as_str(),
            ExtractAction::WriteFile { path, .. } => path.as_str(),
        }
    }
}

fn join_under(root: &str, rel: &[char]) -> (r: String)
    ensures
        r@ == join_path(root@, rel@),
{
    let rel_s = string_of(rel);
    if rel.len() == 0 {
        String::from_str(root)
    } else {
        let rc = chars_of(root);
        if rc.len() == 0 {
            rel_s
        } else {
            let mut r = String::from_str(root);
            if rc[rc.len() - 1] != '/' {
                r.append("/");
                proof {
                    reveal_strlit("/");
                    assert(root@.push('/') =~= root@ + "/"@);
                }
            }
            r.append(rel_s.as_str());
            r
        }
    }
}

proof fn lemma_parent_rel(rel: Seq<char>, i: int)
    requires
        0 <= i <= rel.len(),
        forall|j: int| i <= j < rel.len() ==> rel[j] != '/',
    ensures
        parent_rel(rel) == parent_rel(rel.take(i)),
    decreases rel.len() - i,
{
    if i < rel.len() {
        assert(rel.drop_last().take(i) =~= rel.take(i));
        lemma_parent_rel(rel.drop_last(), i);
    } else {
        assert(rel.take(i) =~= rel);
    }
}

/// The text of `rel` before its last `/`.
fn parent_chars(rel: &Vec<char>) -> (r: Vec<char>)
    ensures
        r@ == parent_rel(rel@),
{
    let mut i: usize = rel.len();
    while i > 0 && rel[i - 1] != '/'
        invariant
            i <= rel.len(),
            forall|j: int| i <= j < rel.len() ==> rel@[j] != '/',
        decreases i,
    {
        i = i - 1;
    }
    proof {
        lemma_parent_rel(rel@, i as int);
        if i > 0 {
            assert(rel@.take(i as int).drop_last() =~= rel@.take(i - 1));
        }
    }
    let mut r: Vec<char> = Vec::new();
    if i > 0 {
        let mut k: usize = 0;
        while k < i - 1
            invariant
                0 < i <= rel.len(),
                k <= i - 1,
                r@ == rel@.take(k as int),
            decreases i - 1 - k,
        {
            r.push(rel[k]);
            k = k + 1;
            assert(r@ =~= rel@.take(k as int));
        }
    } else {
        assert(rel@.take(0) =~= Seq::<char>::empty());
    }
    r
}

/// What entry `decoded` becomes under `root`: a directory for a directory
/// entry, else a file at the joined path, whose parent directory is made first.
pub fn extract_zip_entry_to(root: &str, decoded: &SanitizedZipPath) -> (r: ExtractAction)
    ensures
        r@ == planned(root@, decoded.cont@, decoded.is_dir),
{
    let rel = chars_of(decoded.as_ref());
    let path = join_under(root, rel.as_slice());
    if decoded.is_dir() {
        ExtractAction::CreateDir { path }
    } else {
        let p = parent_chars(&rel);
        let parent = join_under(root, p.as_slice());
        ExtractAction::WriteFile { parent, path }
    }
}

/// The actions for all entries, in index order.
pub fn extraction_plan(root: &str, entries: &Vec<SanitizedZipPath>) -> (r: Vec<ExtractAction>)
    ensures
        r.len() == entries.len(),
        forall|i: int|
            0 <= i < entries.len() ==> #[trigger] r[i]@ == planned(
                root@,
                entries[i].cont@,
                entries[i].is_dir,
            ),
{
    let mut r: Vec<ExtractAction> = Vec::new();
    let mut i: usize = 0;
    while i < entries.len()
        invariant
            i <= entries.len(),
            r.len() == i,
            forall|j: int|
                0 <= j < i ==> #[trigger] r[j]@ == planned(
                    root@,
                    entries[j].cont@,
                    entries[j].is_dir,
                ),
        decreases entries.len() - i,
    {
        let a = extract_zip_entry_to(root, &entries[i]);
        r.push(a);
        i = i + 1;
    }
    r
}

/// Combines the outcomes of all entries: success when every entry
/// succeeded, else the first failure in index order.
pub fn collect_outcomes(outcomes: &Vec<Result<(), String>>) -> (r: Result<(), String>)
    ensures
        r is Ok <==> forall|i: int| 0 <= i < outcomes.len() ==> #[trigger] outcomes[i] is Ok,
        r matches Err(e) ==> exists|i: int|
            0 <= i < outcomes.len() && (forall|j: int| 0 <= j < i ==> #[trigger] outcomes[j] is Ok)
                && (#[trigger] outcomes[i] matches Err(f) && f@ == e@),
{
    let mut i: usize = 0;
    while i < outcomes.len()
        invariant
            i <= outcomes.len(),
            forall|j: int| 0 <= j < i ==> #[trigger] outcomes[j] is Ok,
        decreases outcomes.len() - i,
    {
        match &outcomes[i] {
            Ok(()) => {},
            Err(e) => {
                return Err(e.clone());
            },
        }
        i = i + 1;
    }
    Ok(())
}

} // verus!

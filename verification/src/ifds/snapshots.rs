//! Immutable repository snapshots and the validation a query passes before
//! analysis.
use vstd::prelude::*;
use crate::ifds::model::{
    BindingSelector, CapabilitySet, FileChange, FileChangeKind, InputError, ModelVersion,
    SnapshotHandle, SnapshotId, SnapshotSide, VariableFlowQuery, span_valid,
};
use vstd::string::StringSliceAdditionalSpecFns;
use crate::ifds::adapters::typescript::lowering::{trim, trimmed, white_space};
use crate::ifds::adapters::typescript::syntax::str_equal;

verus! {

/// The effective analysis configuration used for one side of a comparison.
#[derive(Debug, Clone, PartialEq, Eq)]
pub struct AnalysisEnvironment {
    pub capabilities: CapabilitySet,
    pub summaries: Vec<ModelVersion>,
}

/// Read access to immutable repository objects, implemented by the caller.
pub trait SnapshotProvider {
    fn resolve(&self, handle: &SnapshotHandle) -> Result<SnapshotId, InputError>;

    /// Repository-relative paths with their content identities.
    fn files(&self, handle: &SnapshotHandle) -> Result<Vec<(String, String)>, InputError>;

    fn read_file(&self, handle: &SnapshotHandle, path: &str) -> Result<Vec<u8>, InputError>;
}

// ---------------------------------------------------------------------------
// Paths.

/// A `..` segment starts at position `i`.
pub open spec fn parent_segment_at(s: Seq<char>, i: int) -> bool {
    &&& 0 <= i && i + 2 <= s.len()
    &&& s[i] == '.' && s[i + 1] == '.'
    &&& (i == 0 || s[i - 1] == '/')
    &&& (i + 2 == s.len() || s[i + 2] == '/')
}

/// A normalized repository-relative path: not empty, not absolute, not
/// starting with the current directory, and without parent segments.
pub open spec fn path_normal(s: Seq<char>) -> bool {
    &&& s.len() > 0
    &&& s[0] != '/'
    &&& !(s[0] == '.' && (s.len() == 1 || s[1] == '/'))
    &&& forall|i: int| !#[trigger] parent_segment_at(s, i)
}

/// Accepts exactly the normalized repository-relative paths.
pub fn validate_path(path: &str) -> (res: Result<(), InputError>)
    ensures
        res is Ok <==> path_normal(path@),
        res matches Err(e) ==> e is InvalidSelector,
{
    let n = path.unicode_len();
    if n == 0 {
        return Err(InputError::InvalidSelector(String::from_str("path must not be empty")));
    }
    let first = path.get_char(0);
    if first == '/' {
        return Err(
            InputError::InvalidSelector(
                String::from_str("path must be repository-relative, not absolute"),
            ),
        );
    }
    if first == '.' && (n == 1 || path.get_char(1) == '/') {
        return Err(InputError::InvalidSelector(String::from_str("path must be normalized")));
    }
    let mut i: usize = 0;
    while i < n
        invariant
            n == path@.len(),
            i <= n,
            forall|j: int| 0 <= j < i ==> !#[trigger] parent_segment_at(path@, j),
        decreases n - i,
    {
        if n - i >= 2 && path.get_char(i) == '.' && path.get_char(i + 1) == '.' && (i == 0
            || path.get_char(i - 1) == '/') && (n - i == 2 || path.get_char(i + 2) == '/') {
            proof {
                assert(parent_segment_at(path@, i as int));
            }
            return Err(
                InputError::InvalidSelector(String::from_str("path must not leave the repository")),
            );
        }
        i = i + 1;
    }
    proof {
        assert forall|j: int| !#[trigger] parent_segment_at(path@, j) by {
            if 0 <= j < n {
            }
        }
    }
    Ok(())
}

// ---------------------------------------------------------------------------
// The snapshot pair and the analysis environments.

/// Both handles belong to one repository and sit on their own sides.
pub open spec fn snapshot_pair_shape_ok(q: VariableFlowQuery) -> bool {
    &&& q.before.repository_id@ == q.after.repository_id@
    &&& q.before.id.side == SnapshotSide::Before
    &&& q.after.id.side == SnapshotSide::After
}

/// Checks the two handles before anything is resolved.
pub fn check_snapshot_pair_shape(query: &VariableFlowQuery) -> (res: Result<(), InputError>)
    ensures
        res is Ok <==> snapshot_pair_shape_ok(*query),
        res matches Err(e) ==> e is SnapshotMismatch,
{
    if query.before.repository_id != query.after.repository_id {
        return Err(
            InputError::SnapshotMismatch(
                String::from_str("before and after snapshots belong to different repositories"),
            ),
        );
    }
    if query.before.id.side != SnapshotSide::Before || query.after.id.side != SnapshotSide::After {
        return Err(
            InputError::SnapshotMismatch(
                String::from_str("snapshot handles are assigned to the wrong sides"),
            ),
        );
    }
    Ok(())
}

/// Accepts what a provider resolved for a handle exactly when it is the
/// handle's own identity; a provider error is passed on.
pub fn check_resolved(handle: &SnapshotHandle, resolved: Result<SnapshotId, InputError>) -> (res:
    Result<(), InputError>)
    ensures
        resolved matches Err(e) ==> res == Err::<(), InputError>(e),
        resolved matches Ok(id) ==> (res is Ok <==> id@ == handle.id@),
        resolved matches Ok(id) && id@ != handle.id@ ==> res->Err_0 is SnapshotMismatch,
{
    match resolved {
        Err(e) => Err(e),
        Ok(id) => {
            if id.same(&handle.id) {
                Ok(())
            } else {
                Err(
                    InputError::SnapshotMismatch(
                        String::from_str("the provider resolved a different snapshot"),
                    ),
                )
            }
        },
    }
}

/// The texts a list holds, as a set.
pub open spec fn text_set(v: Seq<String>) -> Set<Seq<char>> {
    Set::new(|t: Seq<char>| exists|i: int| 0 <= i < v.len() && v[i]@ == t)
}

/// The value of a model version.
pub open spec fn model_value(m: ModelVersion) -> (Seq<char>, Seq<char>, Seq<char>) {
    (m.name@, m.version@, m.digest@)
}

/// The model versions a list holds, as a set.
pub open spec fn model_set(v: Seq<ModelVersion>) -> Set<(Seq<char>, Seq<char>, Seq<char>)> {
    Set::new(|t: (Seq<char>, Seq<char>, Seq<char>)| exists|i: int| 0 <= i < v.len() && model_value(v[i]) == t)
}

/// Two capability sets with the same stage, capabilities and version.
pub open spec fn capabilities_same(a: CapabilitySet, b: CapabilitySet) -> bool {
    a.stage == b.stage && text_set(a.capabilities@) == text_set(b.capabilities@) && a.version@
        == b.version@
}

/// Two environments with the same capabilities and model versions.
pub open spec fn environments_same(a: AnalysisEnvironment, b: AnalysisEnvironment) -> bool {
    capabilities_same(a.capabilities, b.capabilities) && model_set(a.summaries@) == model_set(
        b.summaries@,
    )
}

/// Both sides use one environment, and it is the one the query asks for.
pub open spec fn environments_ok(
    q: VariableFlowQuery,
    before: AnalysisEnvironment,
    after: AnalysisEnvironment,
) -> bool {
    &&& environments_same(before, after)
    &&& capabilities_same(before.capabilities, q.capabilities)
    &&& model_set(before.summaries@) == model_set(q.summaries@)
}

fn text_contained(a: &Vec<String>, b: &Vec<String>) -> (res: bool)
    ensures
        res == text_set(a@).subset_of(text_set(b@)),
{
    let mut i: usize = 0;
    while i < a.len()
        invariant
            i <= a.len(),
            forall|j: int| 0 <= j < i ==> text_set(b@).contains(#[trigger] a@[j]@),
        decreases a.len() - i,
    {
        let mut found = false;
        let mut k: usize = 0;
        while k < b.len()
            invariant
                i < a.len(),
                k <= b.len(),
                found ==> text_set(b@).contains(a@[i as int]@),
                !found ==> forall|c: int| 0 <= c < k ==> b@[c]@ != a@[i as int]@,
            decreases b.len() - k,
        {
            if b[k] == a[i] {
                found = true;
                proof {
                    assert(b@[k as int]@ == a@[i as int]@);
                }
            }
            k = k + 1;
        }
        if !found {
            proof {
                assert(text_set(a@).contains(a@[i as int]@));
            }
            return false;
        }
        i = i + 1;
    }
    proof {
        assert forall|t: Seq<char>| text_set(a@).contains(t) implies text_set(b@).contains(t) by {
            let j = choose|j: int| 0 <= j < a@.len() && a@[j]@ == t;
            assert(text_set(b@).contains(a@[j]@));
        }
    }
    true
}

fn models_contained(a: &Vec<ModelVersion>, b: &Vec<ModelVersion>) -> (res: bool)
    ensures
        res == model_set(a@).subset_of(model_set(b@)),
{
    let mut i: usize = 0;
    while i < a.len()
        invariant
            i <= a.len(),
            forall|j: int| 0 <= j < i ==> model_set(b@).contains(#[trigger] model_value(a@[j])),
        decreases a.len() - i,
    {
        let mut found = false;
        let mut k: usize = 0;
        while k < b.len()
            invariant
                i < a.len(),
                k <= b.len(),
                found ==> model_set(b@).contains(model_value(a@[i as int])),
                !found ==> forall|c: int| 0 <= c < k ==> model_value(b@[c]) != model_value(a@[i as int]),
            decreases b.len() - k,
        {
            if b[k].name == a[i].name && b[k].version == a[i].version && b[k].digest == a[i].digest {
                found = true;
                proof {
                    assert(model_value(b@[k as int]) == model_value(a@[i as int]));
                }
            }
            k = k + 1;
        }
        if !found {
            proof {
                assert(model_set(a@).contains(model_value(a@[i as int])));
            }
            return false;
        }
        i = i + 1;
    }
    proof {
        assert forall|t| model_set(a@).contains(t) implies model_set(b@).contains(t) by {
            let j = choose|j: int| 0 <= j < a@.len() && model_value(a@[j]) == t;
            assert(model_set(b@).contains(model_value(a@[j])));
        }
    }
    true
}

fn texts_same(a: &Vec<String>, b: &Vec<String>) -> (res: bool)
    ensures
        res == (text_set(a@) == text_set(b@)),
{
    let r = text_contained(a, b) && text_contained(b, a);
    proof {
        if text_set(a@).subset_of(text_set(b@)) && text_set(b@).subset_of(text_set(a@)) {
            assert(text_set(a@) =~= text_set(b@));
        }
    }
    r
}

fn models_same(a: &Vec<ModelVersion>, b: &Vec<ModelVersion>) -> (res: bool)
    ensures
        res == (model_set(a@) == model_set(b@)),
{
    let r = models_contained(a, b) && models_contained(b, a);
    proof {
        if model_set(a@).subset_of(model_set(b@)) && model_set(b@).subset_of(model_set(a@)) {
            assert(model_set(a@) =~= model_set(b@));
        }
    }
    r
}

fn capability_sets_same(a: &CapabilitySet, b: &CapabilitySet) -> (res: bool)
    ensures
        res == capabilities_same(*a, *b),
{
    a.stage == b.stage && texts_same(&a.capabilities, &b.capabilities) && a.version == b.version
}

/// Refuses environments that differ between the sides or from the query.
pub fn validate_environments(
    query: &VariableFlowQuery,
    before: &AnalysisEnvironment,
    after: &AnalysisEnvironment,
) -> (res: Result<(), InputError>)
    ensures
        res is Ok <==> environments_ok(*query, *before, *after),
        res matches Err(e) ==> e is CapabilityMismatch,
{
    if !(capability_sets_same(&before.capabilities, &after.capabilities) && models_same(
        &before.summaries,
        &after.summaries,
    )) {
        return Err(
            InputError::CapabilityMismatch(
                String::from_str("before and after effective capabilities or model versions differ"),
            ),
        );
    }
    if !capability_sets_same(&before.capabilities, &query.capabilities) || !models_same(
        &before.summaries,
        &query.summaries,
    ) {
        return Err(
            InputError::CapabilityMismatch(
                String::from_str("effective analysis environment does not match the query"),
            ),
        );
    }
    Ok(())
}

// ---------------------------------------------------------------------------
// The diff.

/// The content identity listed for `path`: that of its first entry.
pub open spec fn lookup_is(files: Seq<(String, String)>, path: Seq<char>, r: Option<Seq<char>>) -> bool {
    match r {
        None => forall|i: int| 0 <= i < files.len() ==> (#[trigger] files[i]).0@ != path,
        Some(v) => exists|i: int|
            0 <= i < files.len() && (#[trigger] files[i]).0@ == path && files[i].1@ == v && forall|
                j: int,
            |
                0 <= j < i ==> (#[trigger] files[j]).0@ != path,
    }
}

pub open spec fn lookup(files: Seq<(String, String)>, path: Seq<char>) -> Option<Seq<char>> {
    choose|r: Option<Seq<char>>| lookup_is(files, path, r)
}

pub open spec fn listed(files: Seq<(String, String)>, path: Seq<char>) -> bool {
    exists|i: int| 0 <= i < files.len() && (#[trigger] files[i]).0@ == path
}

fn find_file(files: &Vec<(String, String)>, path: &str) -> (res: Option<usize>)
    ensures
        match res {
            Some(i) => i < files@.len() && files@[i as int].0@ == path@ && forall|j: int|
                0 <= j < i ==> (#[trigger] files@[j]).0@ != path@,
            None => !listed(files@, path@),
        },
        lookup_is(files@, path@, lookup(files@, path@)),
        lookup(files@, path@) == match res {
            Some(i) => Some(files@[i as int].1@),
            None => None::<Seq<char>>,
        },
{
    let key = path.to_owned();
    let mut i: usize = 0;
    while i < files.len()
        invariant
            key@ == path@,
            i <= files.len(),
            forall|j: int| 0 <= j < i ==> (#[trigger] files@[j]).0@ != path@,
        decreases files.len() - i,
    {
        if files[i].0 == key {
            proof {
                let r = Some(files@[i as int].1@);
                assert(lookup_is(files@, path@, r));
                lemma_lookup_unique(files@, path@, r);
            }
            return Some(i);
        }
        i = i + 1;
    }
    proof {
        assert(lookup_is(files@, path@, None));
        lemma_lookup_unique(files@, path@, None);
    }
    None
}

proof fn lemma_lookup_unique(files: Seq<(String, String)>, path: Seq<char>, r: Option<Seq<char>>)
    requires
        lookup_is(files, path, r),
    ensures
        lookup(files, path) == r,
{
    let c = lookup(files, path);
    assert(lookup_is(files, path, c));
    match (c, r) {
        (Some(a), Some(b)) => {
            let i = choose|i: int|
                0 <= i < files.len() && (#[trigger] files[i]).0@ == path && files[i].1@ == a
                    && forall|j: int| 0 <= j < i ==> (#[trigger] files[j]).0@ != path;
            let k = choose|k: int|
                0 <= k < files.len() && (#[trigger] files[k]).0@ == path && files[k].1@ == b
                    && forall|j: int| 0 <= j < k ==> (#[trigger] files[j]).0@ != path;
            if i < k {
                assert(files[i].0@ != path);
            } else if k < i {
                assert(files[k].0@ != path);
            }
        },
        (Some(a), None) => {
            let i = choose|i: int|
                0 <= i < files.len() && (#[trigger] files[i]).0@ == path && files[i].1@ == a
                    && forall|j: int| 0 <= j < i ==> (#[trigger] files[j]).0@ != path;
            assert(files[i].0@ != path);
        },
        (None, Some(b)) => {
            let k = choose|k: int|
                0 <= k < files.len() && (#[trigger] files[k]).0@ == path && files[k].1@ == b
                    && forall|j: int| 0 <= j < k ==> (#[trigger] files[j]).0@ != path;
            assert(files[k].0@ != path);
        },
        (None, None) => {},
    }
}

pub open spec fn opt_text(o: Option<String>) -> Option<Seq<char>> {
    match o {
        Some(s) => Some(s@),
        None => None,
    }
}

/// A record names exactly the paths and contents its kind needs, and
/// modifications and renames really change content or path.
pub open spec fn change_shape_ok(c: FileChange) -> bool {
    let (has_before, has_after) = match c.kind {
        FileChangeKind::Added => (false, true),
        FileChangeKind::Deleted => (true, false),
        _ => (true, true),
    };
    &&& c.before_path.is_some() == has_before
    &&& c.after_path.is_some() == has_after
    &&& c.before_content_id.is_some() == has_before
    &&& c.after_content_id.is_some() == has_after
    &&& c.kind == FileChangeKind::Modified ==> opt_text(c.before_path) == opt_text(c.after_path)
    &&& c.kind == FileChangeKind::Modified ==> opt_text(c.before_content_id) != opt_text(
        c.after_content_id,
    )
    &&& c.kind == FileChangeKind::Renamed ==> opt_text(c.before_path) != opt_text(c.after_path)
}

/// One side of a record: its path is normalized, not claimed by an earlier
/// record, and listed with the stated content.
pub open spec fn side_ok(
    changes: Seq<FileChange>,
    k: int,
    path: Option<String>,
    content: Option<String>,
    files: Seq<(String, String)>,
    before: bool,
) -> bool {
    match (path, content) {
        (Some(p), Some(c)) => {
            &&& path_normal(p@)
            &&& forall|j: int|
                0 <= j < k ==> opt_text(
                    if before {
                        (#[trigger] changes[j]).before_path
                    } else {
                        changes[j].after_path
                    },
                ) != Some(p@)
            &&& lookup(files, p@) == Some(c@)
        },
        _ => true,
    }
}

/// A record is consistent with the two file lists.
pub open spec fn change_ok(
    changes: Seq<FileChange>,
    k: int,
    before_files: Seq<(String, String)>,
    after_files: Seq<(String, String)>,
) -> bool {
    let c = changes[k];
    &&& change_shape_ok(c)
    &&& side_ok(changes, k, c.before_path, c.before_content_id, before_files, true)
    &&& side_ok(changes, k, c.after_path, c.after_content_id, after_files, false)
    &&& (c.kind == FileChangeKind::Deleted || c.kind == FileChangeKind::Renamed) ==> match c.before_path {
        Some(p) => !listed(after_files, p@),
        None => true,
    }
    &&& (c.kind == FileChangeKind::Added || c.kind == FileChangeKind::Renamed) ==> match c.after_path {
        Some(p) => !listed(before_files, p@),
        None => true,
    }
}

/// A path some record names on the given side.
pub open spec fn covered(changes: Seq<FileChange>, path: Seq<char>) -> bool {
    exists|k: int|
        0 <= k < changes.len() && (opt_text((#[trigger] changes[k]).before_path) == Some(path)
            || opt_text(changes[k].after_path) == Some(path))
}

/// The diff is bound to the two contents, every record is consistent, and
/// every path whose content differs between the sides is named by a record.
pub open spec fn diff_ok(
    q: VariableFlowQuery,
    before_files: Seq<(String, String)>,
    after_files: Seq<(String, String)>,
) -> bool {
    let changes = q.diff.changes@;
    &&& q.diff.before_content_id@ == q.before.id.content_id@
    &&& q.diff.after_content_id@ == q.after.id.content_id@
    &&& forall|k: int| 0 <= k < changes.len() ==> #[trigger] change_ok(changes, k, before_files, after_files)
    &&& forall|p: Seq<char>|
        (listed(before_files, p) || listed(after_files, p)) && #[trigger] lookup(before_files, p)
            != lookup(after_files, p) ==> covered(changes, p)
}

fn opt_str_equal(a: &Option<String>, b: &Option<String>) -> (res: bool)
    ensures
        res == (opt_text(*a) == opt_text(*b)),
{
    match (a, b) {
        (Some(x), Some(y)) => *x == *y,
        (None, None) => true,
        _ => false,
    }
}

fn check_change_shape(change: &FileChange) -> (res: Result<(), InputError>)
    ensures
        res is Ok <==> change_shape_ok(*change),
        res matches Err(e) ==> e is InvalidDiff,
{
    let (has_before, has_after) = match change.kind {
        FileChangeKind::Added => (false, true),
        FileChangeKind::Deleted => (true, false),
        _ => (true, true),
    };
    if change.before_path.is_some() != has_before || change.after_path.is_some() != has_after
        || change.before_content_id.is_some() != has_before || change.after_content_id.is_some()
        != has_after {
        return Err(InputError::InvalidDiff(String::from_str("invalid file change record shape")));
    }
    if change.kind == FileChangeKind::Modified && !opt_str_equal(
        &change.before_path,
        &change.after_path,
    ) {
        return Err(
            InputError::InvalidDiff(String::from_str("modified records must keep the same path")),
        );
    }
    if change.kind == FileChangeKind::Modified && opt_str_equal(
        &change.before_content_id,
        &change.after_content_id,
    ) {
        return Err(
            InputError::InvalidDiff(String::from_str("modified records must change file content")),
        );
    }
    if change.kind == FileChangeKind::Renamed && opt_str_equal(
        &change.before_path,
        &change.after_path,
    ) {
        return Err(InputError::InvalidDiff(String::from_str("renamed records must change path")));
    }
    Ok(())
}

fn earlier_claims(changes: &Vec<FileChange>, k: usize, path: &String, before: bool) -> (res: bool)
    requires
        k <= changes@.len(),
    ensures
        res == exists|j: int|
            0 <= j < k && opt_text(
                if before {
                    (#[trigger] changes@[j]).before_path
                } else {
                    changes@[j].after_path
                },
            ) == Some(path@),
{
    let mut j: usize = 0;
    while j < k
        invariant
            k <= changes@.len(),
            j <= k,
            forall|a: int|
                0 <= a < j ==> opt_text(
                    if before {
                        (#[trigger] changes@[a]).before_path
                    } else {
                        changes@[a].after_path
                    },
                ) != Some(path@),
        decreases k - j,
    {
        let candidate = if before {
            &changes[j].before_path
        } else {
            &changes[j].after_path
        };
        match candidate {
            Some(p) => {
                if *p == *path {
                    return true;
                }
            },
            None => {},
        }
        j = j + 1;
    }
    false
}

fn check_side(
    changes: &Vec<FileChange>,
    k: usize,
    path: &Option<String>,
    content: &Option<String>,
    files: &Vec<(String, String)>,
    before: bool,
) -> (res: Result<(), InputError>)
    requires
        k <= changes@.len(),
    ensures
        res is Ok <==> side_ok(changes@, k as int, *path, *content, files@, before),
        res matches Err(e) ==> (e is InvalidDiff || e is InvalidSelector),
        res matches Err(e) ==> (e is InvalidSelector <==> (path matches Some(p) && content is Some
            && !path_normal(p@))),
{
    match (path, content) {
        (Some(p), Some(c)) => {
            if let Err(e) = validate_path(p.as_str()) {
                return Err(e);
            }
            if earlier_claims(changes, k, p, before) {
                return Err(
                    InputError::InvalidDiff(String::from_str("a path occurs more than once in the diff")),
                );
            }
            match find_file(files, p.as_str()) {
                Some(i) => {
                    if files[i].1 != *c {
                        return Err(
                            InputError::InvalidDiff(
                                String::from_str("a diff path has different content"),
                            ),
                        );
                    }
                },
                None => {
                    return Err(
                        InputError::InvalidDiff(String::from_str("a diff path does not exist")),
                    );
                },
            }
            Ok(())
        },
        _ => Ok(()),
    }
}

/// Checks one record of the diff against the two file lists.
fn validate_change(
    changes: &Vec<FileChange>,
    k: usize,
    before_files: &Vec<(String, String)>,
    after_files: &Vec<(String, String)>,
) -> (res: Result<(), InputError>)
    requires
        k < changes@.len(),
    ensures
        res is Ok <==> change_ok(changes@, k as int, before_files@, after_files@),
        res matches Err(e) ==> (e is InvalidDiff || e is InvalidSelector),
        res matches Err(e) ==> (e is InvalidSelector ==> exists|p: String|
            (changes@[k as int].before_path == Some(p) || changes@[k as int].after_path == Some(p))
                && !path_normal(p@)),
{
    let change = &changes[k];
    if let Err(e) = check_change_shape(change) {
        return Err(e);
    }
    if let Err(e) = check_side(
        changes,
        k,
        &change.before_path,
        &change.before_content_id,
        before_files,
        true,
    ) {
        return Err(e);
    }
    if let Err(e) = check_side(
        changes,
        k,
        &change.after_path,
        &change.after_content_id,
        after_files,
        false,
    ) {
        return Err(e);
    }
    if change.kind == FileChangeKind::Deleted || change.kind == FileChangeKind::Renamed {
        if let Some(p) = &change.before_path {
            if find_file(after_files, p.as_str()).is_some() {
                return Err(
                    InputError::InvalidDiff(String::from_str("an old path still exists after")),
                );
            }
        }
    }
    if change.kind == FileChangeKind::Added || change.kind == FileChangeKind::Renamed {
        if let Some(p) = &change.after_path {
            if find_file(before_files, p.as_str()).is_some() {
                return Err(
                    InputError::InvalidDiff(String::from_str("a new path already exists before")),
                );
            }
        }
    }
    Ok(())
}

fn is_covered(changes: &Vec<FileChange>, path: &String) -> (res: bool)
    ensures
        res == covered(changes@, path@),
{
    let mut k: usize = 0;
    while k < changes.len()
        invariant
            k <= changes@.len(),
            forall|j: int|
                0 <= j < k ==> opt_text((#[trigger] changes@[j]).before_path) != Some(path@)
                    && opt_text(changes@[j].after_path) != Some(path@),
        decreases changes.len() - k,
    {
        if opt_str_equal(&changes[k].before_path, &Some(path.clone())) || opt_str_equal(
            &changes[k].after_path,
            &Some(path.clone()),
        ) {
            return true;
        }
        k = k + 1;
    }
    false
}

/// Checks that each path of `listing` with differing content is covered.
fn check_listing_covered(
    changes: &Vec<FileChange>,
    listing: &Vec<(String, String)>,
    before_files: &Vec<(String, String)>,
    after_files: &Vec<(String, String)>,
) -> (res: bool)
    ensures
        res == forall|i: int|
            0 <= i < listing@.len() && #[trigger] lookup(before_files@, listing@[i].0@) != lookup(
                after_files@,
                listing@[i].0@,
            ) ==> covered(changes@, listing@[i].0@),
{
    let mut i: usize = 0;
    while i < listing.len()
        invariant
            i <= listing@.len(),
            forall|a: int|
                0 <= a < i && #[trigger] lookup(before_files@, listing@[a].0@) != lookup(
                    after_files@,
                    listing@[a].0@,
                ) ==> covered(changes@, listing@[a].0@),
        decreases listing.len() - i,
    {
        let path = &listing[i].0;
        let b = find_file(before_files, path.as_str());
        let a = find_file(after_files, path.as_str());
        let same = match (b, a) {
            (Some(x), Some(y)) => before_files[x].1 == after_files[y].1,
            (None, None) => true,
            _ => false,
        };
        if !same && !is_covered(changes, path) {
            return false;
        }
        i = i + 1;
    }
    true
}

/// Accepts the diff exactly when it is bound to the two snapshot contents,
/// every record is consistent with the file lists, and every changed path
/// is named by a record.
pub fn validate_diff(
    query: &VariableFlowQuery,
    before_files: &Vec<(String, String)>,
    after_files: &Vec<(String, String)>,
) -> (res: Result<(), InputError>)
    ensures
        res is Ok <==> diff_ok(*query, before_files@, after_files@),
        res matches Err(e) ==> (e is InvalidDiff || e is InvalidSelector),
{
    if query.diff.before_content_id != query.before.id.content_id || query.diff.after_content_id
        != query.after.id.content_id {
        return Err(
            InputError::InvalidDiff(String::from_str("diff is bound to different snapshot contents")),
        );
    }
    let changes = &query.diff.changes;
    let mut k: usize = 0;
    while k < changes.len()
        invariant
            k <= changes@.len(),
            changes == query.diff.changes,
            forall|j: int| 0 <= j < k ==> #[trigger] change_ok(changes@, j, before_files@, after_files@),
        decreases changes.len() - k,
    {
        if let Err(e) = validate_change(changes, k, before_files, after_files) {
            return Err(e);
        }
        k = k + 1;
    }
    let before_ok = check_listing_covered(changes, before_files, before_files, after_files);
    let after_ok = check_listing_covered(changes, after_files, before_files, after_files);
    proof {
        if before_ok && after_ok {
            assert forall|p: Seq<char>|
                (listed(before_files@, p) || listed(after_files@, p)) && #[trigger] lookup(
                    before_files@,
                    p,
                ) != lookup(after_files@, p) implies covered(changes@, p) by {
                if listed(before_files@, p) {
                    let i = choose|i: int| 0 <= i < before_files@.len() && (#[trigger] before_files@[i]).0@ == p;
                    assert(lookup(before_files@, before_files@[i].0@) != lookup(after_files@, before_files@[i].0@));
                } else {
                    let i = choose|i: int| 0 <= i < after_files@.len() && (#[trigger] after_files@[i]).0@ == p;
                    assert(lookup(before_files@, after_files@[i].0@) != lookup(after_files@, after_files@[i].0@));
                }
            }
        }
        if !before_ok {
            let i = choose|i: int|
                0 <= i < before_files@.len() && #[trigger] lookup(before_files@, before_files@[i].0@)
                    != lookup(after_files@, before_files@[i].0@) && !covered(changes@, before_files@[i].0@);
            assert(listed(before_files@, before_files@[i].0@));
        }
        if !after_ok {
            let i = choose|i: int|
                0 <= i < after_files@.len() && #[trigger] lookup(before_files@, after_files@[i].0@)
                    != lookup(after_files@, after_files@[i].0@) && !covered(changes@, after_files@[i].0@);
            assert(listed(after_files@, after_files@[i].0@));
        }
    }
    if !before_ok || !after_ok {
        return Err(
            InputError::InvalidDiff(String::from_str("a changed path is missing from the diff")),
        );
    }
    Ok(())
}

// ---------------------------------------------------------------------------
// Selectors.

/// The handle of the side a selector names.
pub open spec fn selector_handle(q: VariableFlowQuery, s: BindingSelector) -> SnapshotHandle {
    match s.snapshot.side {
        SnapshotSide::Before => q.before,
        SnapshotSide::After => q.after,
    }
}

/// What a selector must satisfy before its file is read: it names the
/// query's snapshot of its side, a valid span, a normalized path, and a
/// non-empty byte range.
pub open spec fn selector_shape_ok(q: VariableFlowQuery, s: BindingSelector) -> bool {
    &&& s.snapshot@ == selector_handle(q, s).id@
    &&& span_valid(s.declaration)
    &&& path_normal(s.declaration.path@)
    &&& s.declaration.byte_start != s.declaration.byte_end
}

/// Checks a selector against the query before its file is read.
pub fn check_selector_shape(selector: &BindingSelector, query: &VariableFlowQuery) -> (res: Result<
    (),
    InputError,
>)
    ensures
        res is Ok <==> selector_shape_ok(*query, *selector),
        res matches Err(e) ==> (e is SnapshotMismatch <==> selector.snapshot@ != selector_handle(
            *query,
            *selector,
        ).id@),
        res matches Err(e) ==> (e is SnapshotMismatch || e is InvalidSelector),
{
    let handle = match selector.snapshot.side {
        SnapshotSide::Before => &query.before,
        SnapshotSide::After => &query.after,
    };
    if !selector.snapshot.same(&handle.id) {
        return Err(
            InputError::SnapshotMismatch(
                String::from_str("selector snapshot does not match the query snapshot"),
            ),
        );
    }
    if selector.declaration.validate().is_err() {
        return Err(InputError::InvalidSelector(String::from_str("the declaration span is invalid")));
    }
    if let Err(e) = validate_path(selector.declaration.path.as_str()) {
        return Err(e);
    }
    if selector.declaration.byte_start == selector.declaration.byte_end {
        return Err(
            InputError::InvalidSelector(String::from_str("declaration span must not be empty")),
        );
    }
    Ok(())
}

/// Whether `bytes` are well-formed UTF-8 (`std::str::from_utf8` succeeds).
#[verifier::external_body]
pub(crate) fn is_utf8(bytes: &[u8]) -> (res: bool)
    ensures
        res == vstd::utf8::valid_utf8(bytes@),
{
    std::str::from_utf8(bytes).is_ok()
}

/// The span lies within the file, the file is UTF-8, and the span does not
/// split a character.
pub open spec fn selector_bytes_ok(start: u64, end: u64, bytes: Seq<u8>) -> bool {
    &&& end <= bytes.len()
    &&& vstd::utf8::valid_utf8(bytes)
    &&& vstd::utf8::is_char_boundary(bytes, start as int)
    &&& vstd::utf8::is_char_boundary(bytes, end as int)
}

pub(crate) fn char_boundary(bytes: &Vec<u8>, index: usize) -> (res: bool)
    requires
        vstd::utf8::valid_utf8(bytes@),
    ensures
        res == vstd::utf8::is_char_boundary(bytes@, index as int),
{
    proof {
        vstd::utf8::is_char_boundary_start_end_of_seq(bytes@);
    }
    if index == 0 || index == bytes.len() {
        true
    } else if index > bytes.len() {
        proof {
            reveal_with_fuel(vstd::utf8::is_char_boundary, 1);
        }
        false
    } else {
        proof {
            vstd::utf8::is_char_boundary_iff_not_is_continuation_byte(bytes@, index as int);
        }
        !(0x80u8 <= bytes[index] && bytes[index] <= 0xbfu8)
    }
}

/// Checks the bytes of the selected file against a declaration span.
pub fn check_selector_bytes(byte_start: u64, byte_end: u64, bytes: &Vec<u8>) -> (res: Result<
    (),
    InputError,
>)
    ensures
        res is Ok <==> selector_bytes_ok(byte_start, byte_end, bytes@),
        res matches Err(e) ==> e is InvalidSelector,
{
    if byte_end > bytes.len() as u64 {
        return Err(
            InputError::InvalidSelector(
                String::from_str("the declaration span ends beyond the file"),
            ),
        );
    }
    if !is_utf8(bytes.as_slice()) {
        return Err(InputError::InvalidSelector(String::from_str("selected source is not UTF-8")));
    }
    if byte_start > bytes.len() as u64 {
        proof {
            reveal_with_fuel(vstd::utf8::is_char_boundary, 1);
        }
        return Err(
            InputError::InvalidSelector(String::from_str("declaration span splits a UTF-8 code point")),
        );
    }
    let start = byte_start as usize;
    let end = byte_end as usize;
    if !char_boundary(bytes, start) || !char_boundary(bytes, end) {
        return Err(
            InputError::InvalidSelector(String::from_str("declaration span splits a UTF-8 code point")),
        );
    }
    Ok(())
}

/// Reads the file a selector names and checks it.
fn validate_selector<P: SnapshotProvider>(
    selector: &BindingSelector,
    query: &VariableFlowQuery,
    provider: &P,
) -> (res: Result<(), InputError>)
    ensures
        res is Ok ==> selector_shape_ok(*query, *selector),
        !selector_shape_ok(*query, *selector) ==> res is Err,
{
    if let Err(e) = check_selector_shape(selector, query) {
        return Err(e);
    }
    let handle = match selector.snapshot.side {
        SnapshotSide::Before => &query.before,
        SnapshotSide::After => &query.after,
    };
    let bytes = match provider.read_file(handle, selector.declaration.path.as_str()) {
        Ok(bytes) => bytes,
        Err(e) => {
            return Err(e);
        },
    };
    check_selector_bytes(selector.declaration.byte_start, selector.declaration.byte_end, &bytes)
}

/// What a query must satisfy whatever the provider answers: both handles
/// in one repository on their own sides, one environment that the query
/// asks for, a diff bound to the two contents, well-formed selectors, and a
/// counterpart (if any) on the opposite side.
pub open spec fn query_shape_ok(
    q: VariableFlowQuery,
    before: AnalysisEnvironment,
    after: AnalysisEnvironment,
) -> bool {
    &&& snapshot_pair_shape_ok(q)
    &&& environments_ok(q, before, after)
    &&& q.diff.before_content_id@ == q.before.id.content_id@
    &&& q.diff.after_content_id@ == q.after.id.content_id@
    &&& selector_shape_ok(q, q.selected_binding)
    &&& q.counterpart matches Some(c) ==> (c.snapshot.side != q.selected_binding.snapshot.side
        && selector_shape_ok(q, c))
}

/// Validates a query against immutable snapshots before analysis: the
/// snapshot pair (resolving both handles), the environments, the diff (from
/// both file lists) and the selectors (reading their files). The provider
/// is asked in that order and nothing else is read.
pub fn validate_query<P: SnapshotProvider>(
    query: &VariableFlowQuery,
    provider: &P,
    before_environment: &AnalysisEnvironment,
    after_environment: &AnalysisEnvironment,
) -> (res: Result<(), InputError>)
    ensures
        res is Ok ==> query_shape_ok(*query, *before_environment, *after_environment),
        !snapshot_pair_shape_ok(*query) ==> (res matches Err(e) && e is SnapshotMismatch),
{
    if let Err(e) = check_snapshot_pair_shape(query) {
        return Err(e);
    }
    if let Err(e) = check_resolved(&query.before, provider.resolve(&query.before)) {
        return Err(e);
    }
    if let Err(e) = check_resolved(&query.after, provider.resolve(&query.after)) {
        return Err(e);
    }
    if let Err(e) = validate_environments(query, before_environment, after_environment) {
        return Err(e);
    }
    if query.diff.before_content_id != query.before.id.content_id || query.diff.after_content_id
        != query.after.id.content_id {
        return Err(
            InputError::InvalidDiff(String::from_str("diff is bound to different snapshot contents")),
        );
    }
    let before_files = match provider.files(&query.before) {
        Ok(files) => files,
        Err(e) => {
            return Err(e);
        },
    };
    let after_files = match provider.files(&query.after) {
        Ok(files) => files,
        Err(e) => {
            return Err(e);
        },
    };
    if let Err(e) = validate_diff(query, &before_files, &after_files) {
        return Err(e);
    }
    if let Err(e) = validate_selector(&query.selected_binding, query, provider) {
        return Err(e);
    }
    if let Some(counterpart) = &query.counterpart {
        if counterpart.snapshot.side == query.selected_binding.snapshot.side {
            return Err(
                InputError::InvalidSelector(
                    String::from_str("selected binding and counterpart must be on opposite sides"),
                ),
            );
        }
        if let Err(e) = validate_selector(counterpart, query, provider) {
            return Err(e);
        }
    }
    Ok(())
}

// ---------------------------------------------------------------------------
// An in-memory provider.

/// One snapshot held in memory: repository-relative path to content
/// identity and bytes.
#[derive(Debug, Clone, PartialEq, Eq)]
pub struct InMemorySnapshot {
    pub handle: SnapshotHandle,
    pub files: Vec<(String, (String, Vec<u8>))>,
}

/// Snapshots held in memory, found by repository and revision; a later
/// snapshot with the same repository and revision replaces an earlier one.
#[derive(Debug, Clone, Default)]
pub struct InMemorySnapshotProvider {
    pub snapshots: Vec<InMemorySnapshot>,
}

/// The position of the snapshot a handle finds: the last one with the
/// handle's repository and revision.
pub open spec fn snapshot_found_at(s: Seq<InMemorySnapshot>, h: SnapshotHandle, i: int) -> bool {
    &&& 0 <= i < s.len()
    &&& s[i].handle.repository_id@ == h.repository_id@
    &&& s[i].handle.id.revision@ == h.id.revision@
    &&& forall|j: int|
        i < j < s.len() ==> !((#[trigger] s[j]).handle.repository_id@ == h.repository_id@
            && s[j].handle.id.revision@ == h.id.revision@)
}

pub open spec fn snapshot_missing(s: Seq<InMemorySnapshot>, h: SnapshotHandle) -> bool {
    forall|j: int|
        0 <= j < s.len() ==> !((#[trigger] s[j]).handle.repository_id@ == h.repository_id@
            && s[j].handle.id.revision@ == h.id.revision@)
}

impl InMemorySnapshotProvider {
    pub fn new(snapshots: Vec<InMemorySnapshot>) -> (res: Self)
        ensures
            res.snapshots == snapshots,
    {
        InMemorySnapshotProvider { snapshots }
    }

    fn get(&self, handle: &SnapshotHandle) -> (res: Option<usize>)
        ensures
            match res {
                Some(i) => snapshot_found_at(self.snapshots@, *handle, i as int),
                None => snapshot_missing(self.snapshots@, *handle),
            },
    {
        let mut i: usize = self.snapshots.len();
        while i > 0
            invariant
                i <= self.snapshots@.len(),
                forall|j: int|
                    i <= j < self.snapshots@.len() ==> !((#[trigger] self.snapshots@[j]).handle.repository_id@
                        == handle.repository_id@ && self.snapshots@[j].handle.id.revision@
                        == handle.id.revision@),
            decreases i,
        {
            i = i - 1;
            if self.snapshots[i].handle.repository_id == handle.repository_id
                && self.snapshots[i].handle.id.revision == handle.id.revision {
                return Some(i);
            }
        }
        None
    }
}

impl SnapshotProvider for InMemorySnapshotProvider {
    fn resolve(&self, handle: &SnapshotHandle) -> (res: Result<SnapshotId, InputError>)
        ensures
            res matches Ok(id) ==> exists|i: int|
                snapshot_found_at(self.snapshots@, *handle, i) && id == self.snapshots@[i].handle.id,
            res is Err <==> snapshot_missing(self.snapshots@, *handle),
            res matches Err(e) ==> e is SnapshotMismatch,
    {
        match self.get(handle) {
            Some(i) => Ok(self.snapshots[i].handle.id.clone()),
            None => Err(
                InputError::SnapshotMismatch(
                    String::from_str("the revision is unavailable in the repository"),
                ),
            ),
        }
    }

    fn files(&self, handle: &SnapshotHandle) -> (res: Result<Vec<(String, String)>, InputError>)
        ensures
            res matches Ok(list) ==> exists|i: int|
                snapshot_found_at(self.snapshots@, *handle, i) && list@.len()
                    == self.snapshots@[i].files@.len() && forall|k: int|
                    0 <= k < list@.len() ==> (#[trigger] list@[k]).0 == self.snapshots@[i].files@[k].0
                        && list@[k].1 == self.snapshots@[i].files@[k].1.0,
            res is Err <==> snapshot_missing(self.snapshots@, *handle),
            res matches Err(e) ==> e is SnapshotMismatch,
    {
        match self.get(handle) {
            Some(i) => {
                let files = &self.snapshots[i].files;
                let mut list: Vec<(String, String)> = Vec::new();
                let mut k: usize = 0;
                while k < files.len()
                    invariant
                        k <= files@.len(),
                        list@.len() == k,
                        forall|c: int|
                            0 <= c < k ==> (#[trigger] list@[c]).0 == files@[c].0 && list@[c].1
                                == files@[c].1.0,
                    decreases files.len() - k,
                {
                    list.push((files[k].0.clone(), files[k].1.0.clone()));
                    k = k + 1;
                }
                Ok(list)
            },
            None => Err(
                InputError::SnapshotMismatch(
                    String::from_str("the revision is unavailable in the repository"),
                ),
            ),
        }
    }

    fn read_file(&self, handle: &SnapshotHandle, path: &str) -> (res: Result<Vec<u8>, InputError>)
        ensures
            !path_normal(path@) ==> (res matches Err(e) && e is InvalidSelector),
            res matches Ok(bytes) ==> exists|i: int, k: int|
                snapshot_found_at(self.snapshots@, *handle, i) && 0 <= k
                    < self.snapshots@[i].files@.len() && self.snapshots@[i].files@[k].0@ == path@
                    && bytes@ == self.snapshots@[i].files@[k].1.1@,
    {
        if let Err(e) = validate_path(path) {
            return Err(e);
        }
        match self.get(handle) {
            Some(i) => {
                let files = &self.snapshots[i].files;
                let key = path.to_owned();
                let mut k: usize = 0;
                while k < files.len()
                    invariant
                        k <= files@.len(),
                        key@ == path@,
                        path_normal(path@),
                        i < self.snapshots@.len(),
                        snapshot_found_at(self.snapshots@, *handle, i as int),
                        files == self.snapshots@[i as int].files,
                    decreases files.len() - k,
                {
                    if files[k].0 == key {
                        let bytes = files[k].1.1.clone();
                        return Ok(bytes);
                    }
                    k = k + 1;
                }
                Err(InputError::InvalidSelector(String::from_str("the file does not exist")))
            },
            None => Err(
                InputError::SnapshotMismatch(
                    String::from_str("the revision is unavailable in the repository"),
                ),
            ),
        }
    }
}


/// The hexadecimal digit of a value below sixteen.
/// The lowercase hexadecimal digit of a value below sixteen.
pub open spec fn hex_char(v: u64) -> char {
    if v < 10 {
        ((48 + v) as u8) as char
    } else {
        ((87 + v) as u8) as char
    }
}

/// The last `n` hexadecimal digits of a value, most significant first.
pub open spec fn hex_spec(v: u64, n: nat) -> Seq<char>
    decreases n,
{
    if n == 0 {
        Seq::empty()
    } else {
        hex_spec(v / 16, (n - 1) as nat) + seq![hex_char(v % 16)]
    }
}

fn hex_digit(v: u64) -> (res: char)
    requires
        v < 16,
    ensures
        res == hex_char(v),
{
    if v < 10 {
        (48u8 + (v as u8)) as char
    } else {
        (87u8 + (v as u8)) as char
    }
}

fn hex_digits(v: u64, n: usize) -> (res: String)
    ensures
        res@ == hex_spec(v, n as nat),
    decreases n,
{
    if n == 0 {
        String::new()
    } else {
        hex_digits(v / 16, n - 1).concat(crate::ifds::branches::char_text(hex_digit(v % 16)).as_str())
    }
}

/// The sixteen lowercase hexadecimal digits of a value, most significant
/// first.
pub fn hex16(value: u64) -> (res: String)
    ensures
        res@ == hex_spec(value, 16),
        res@.len() == 16,
{
    proof {
        lemma_hex_len(value, 16);
    }
    hex_digits(value, 16)
}

proof fn lemma_hex_len(v: u64, n: nat)
    ensures
        hex_spec(v, n).len() == n,
    decreases n,
{
    if n > 0 {
        lemma_hex_len(v / 16, (n - 1) as nat);
    }
}

/// The 64-bit FNV-1a hash of bytes.
pub open spec fn fnv1a_spec(bytes: Seq<u8>) -> u64
    decreases bytes.len(),
{
    if bytes.len() == 0 {
        0xcbf29ce484222325u64
    } else {
        (fnv1a_spec(bytes.drop_last()) ^ (bytes.last() as u64)).wrapping_mul(0x100000001b3u64)
    }
}

/// A content identity: the FNV-1a hash of the bytes, in hexadecimal.
pub fn content_digest(bytes: &[u8]) -> (res: String)
    ensures
        res@ == "fnv1a64-"@ + hex_spec(fnv1a_spec(bytes@), 16),
{
    let mut hash: u64 = 0xcbf29ce484222325;
    let mut k: usize = 0;
    while k < bytes.len()
        invariant
            k <= bytes@.len(),
            hash == fnv1a_spec(bytes@.take(k as int)),
        decreases bytes.len() - k,
    {
        proof {
            assert(bytes@.take(k + 1).drop_last() =~= bytes@.take(k as int));
        }
        hash = (hash ^ (bytes[k] as u64)).wrapping_mul(0x100000001b3);
        k = k + 1;
    }
    proof {
        assert(bytes@.take(k as int) =~= bytes@);
        reveal_strlit("fnv1a64-");
    }
    String::from_str("fnv1a64-").concat(hex16(hash).as_str())
}

// ---------------------------------------------------------------------------
// Git snapshots: the checks and parsing around the `git` commands.

pub open spec fn hex_digit_char(c: char) -> bool {
    ('0' <= c && c <= '9') || ('a' <= c && c <= 'f') || ('A' <= c && c <= 'F')
}

/// A full Git object ID: forty or sixty-four hexadecimal digits.
pub open spec fn full_object_id(s: Seq<char>) -> bool {
    &&& (s.len() == 40 || s.len() == 64)
    &&& forall|i: int| 0 <= i < s.len() ==> hex_digit_char(#[trigger] s[i])
}

/// Accepts a revision only as a full Git object ID.
pub fn verify_revision(revision: &str) -> (res: Result<(), InputError>)
    ensures
        res is Ok <==> full_object_id(revision@),
        res matches Err(e) ==> e is SnapshotMismatch,
{
    let n = revision.unicode_len();
    let mut ok = n == 40 || n == 64;
    let mut k: usize = 0;
    while ok && k < n
        invariant
            n == revision@.len(),
            k <= n,
            ok ==> (n == 40 || n == 64),
            ok ==> forall|i: int| 0 <= i < k ==> hex_digit_char(#[trigger] revision@[i]),
            !ok ==> !full_object_id(revision@),
        decreases n - k,
    {
        let c = revision.get_char(k);
        if !(('0' <= c && c <= '9') || ('a' <= c && c <= 'f') || ('A' <= c && c <= 'F')) {
            ok = false;
        }
        k = k + 1;
    }
    if ok {
        Ok(())
    } else {
        Err(InputError::SnapshotMismatch(String::from_str("revision must be a full Git object ID")))
    }
}

/// Trimmed texts of one text are equal.
proof fn lemma_trim_unique(s: Seq<char>, a: int, b: int, c: int, d: int)
    requires
        trimmed(s, a, b),
        trimmed(s, c, d),
    ensures
        s.subrange(a, b) == s.subrange(c, d),
{
    if a < b && c < d {
        if a < c {
            assert(white_space(s[a]));
        }
        if c < a {
            assert(white_space(s[c]));
        }
        if b < d {
            assert(white_space(s[d - 1]));
        }
        if d < b {
            assert(white_space(s[b - 1]));
        }
    } else if a == b && c < d {
        if c < a {
            assert(white_space(s[c]));
        } else {
            assert(white_space(s[c]));
        }
    } else if c == d && a < b {
        if a < c {
            assert(white_space(s[a]));
        } else {
            assert(white_space(s[a]));
        }
    }
    assert(s.subrange(a, b) =~= s.subrange(c, d));
}

/// The text without white space at either end is `expected`.
pub open spec fn trims_to(text: Seq<char>, expected: Seq<char>) -> bool {
    exists|a: int, b: int| trimmed(text, a, b) && text.subrange(a, b) == expected
}

fn trims_to_text(text: &str, expected: &str) -> (res: bool)
    ensures
        res == trims_to(text@, expected@),
{
    let t = trim(text);
    let res = str_equal(t.as_str(), expected);
    proof {
        let (a, b) = choose|a: int, b: int| trimmed(text@, a, b) && t@ == text@.subrange(a, b);
        if trims_to(text@, expected@) {
            let (c, d) = choose|c: int, d: int| trimmed(text@, c, d) && text@.subrange(c, d) == expected@;
            lemma_trim_unique(text@, a, b, c, d);
        }
    }
    res
}

/// Checks what `git` resolved a revision to (white space around it
/// ignored): the revision itself.
pub fn resolved_commit(handle: &SnapshotHandle, commit: &str) -> (res: Result<(), InputError>)
    ensures
        res is Ok <==> trims_to(commit@, handle.id.revision@),
        res matches Err(e) ==> e is SnapshotMismatch,
{
    if trims_to_text(commit, handle.id.revision.as_str()) {
        Ok(())
    } else {
        Err(
            InputError::SnapshotMismatch(
                String::from_str("revision resolved to ").concat(trim(commit).as_str()).concat(", not ").concat(
                    handle.id.revision.as_str(),
                ),
            ),
        )
    }
}

/// The identity of a Git snapshot: its handle's, when the tree `git`
/// printed for the revision (white space around it ignored) is the
/// handle's content identity.
pub fn resolved_tree(handle: &SnapshotHandle, tree: &str) -> (res: Result<SnapshotId, InputError>)
    ensures
        res is Ok <==> trims_to(tree@, handle.id.content_id@),
        res matches Ok(id) ==> id == handle.id,
        res matches Err(e) ==> e is SnapshotMismatch,
{
    if trims_to_text(tree, handle.id.content_id.as_str()) {
        Ok(handle.id.clone())
    } else {
        Err(
            InputError::SnapshotMismatch(
                String::from_str("revision ").concat(handle.id.revision.as_str()).concat(" has tree ").concat(
                    trim(tree).as_str(),
                ).concat(", not ").concat(handle.id.content_id.as_str()),
            ),
        )
    }
}

/// ASCII white space as `git` separates metadata fields.
pub open spec fn ascii_space_spec(b: u8) -> bool {
    b == 32 || b == 9 || b == 10 || b == 12 || b == 13
}

/// The end of the field that continues at `k`: the next white space or
/// the end.
pub open spec fn field_end(bytes: Seq<u8>, k: int) -> int
    decreases bytes.len() - k,
{
    if k >= bytes.len() || ascii_space_spec(bytes[k]) {
        k
    } else {
        field_end(bytes, k + 1)
    }
}

/// The fields of `bytes` from `k` on: its maximal runs without white space.
pub open spec fn fields_from(bytes: Seq<u8>, k: int) -> Seq<Seq<u8>>
    decreases bytes.len() - k,
{
    if k >= bytes.len() {
        Seq::empty()
    } else if ascii_space_spec(bytes[k]) {
        fields_from(bytes, k + 1)
    } else {
        let e = field_end(bytes, k + 1);
        if k < e <= bytes.len() {
            seq![bytes.subrange(k, e)] + fields_from(bytes, e)
        } else {
            Seq::empty()
        }
    }
}

proof fn lemma_field_end(bytes: Seq<u8>, k: int)
    requires
        0 <= k,
    ensures
        k <= field_end(bytes, k),
        k <= bytes.len() ==> field_end(bytes, k) <= bytes.len(),
    decreases bytes.len() - k,
{
    if !(k >= bytes.len() || ascii_space_spec(bytes[k])) {
        lemma_field_end(bytes, k + 1);
    }
}

fn ascii_space(b: u8) -> (res: bool)
    ensures
        res == ascii_space_spec(b),
{
    b == 32 || b == 9 || b == 10 || b == 12 || b == 13
}

fn bytes_between(bytes: &Vec<u8>, start: usize, end: usize) -> (res: Vec<u8>)
    requires
        start <= end <= bytes@.len(),
    ensures
        res@ == bytes@.subrange(start as int, end as int),
{
    let mut out: Vec<u8> = Vec::new();
    let mut k: usize = start;
    while k < end
        invariant
            start <= k <= end <= bytes@.len(),
            out@ == bytes@.subrange(start as int, k as int),
        decreases end - k,
    {
        out.push(bytes[k]);
        proof {
            assert(bytes@.subrange(start as int, k + 1) =~= bytes@.subrange(start as int, k as int).push(bytes@[k as int]));
        }
        k = k + 1;
    }
    out
}

/// The fields of metadata separated by ASCII white space.
fn ascii_fields(bytes: &Vec<u8>) -> (res: Vec<Vec<u8>>)
    ensures
        res@.map_values(|f: Vec<u8>| f@) == fields_from(bytes@, 0),
{
    let mut fields: Vec<Vec<u8>> = Vec::new();
    let mut k: usize = 0;
    proof {
        assert(fields@.map_values(|f: Vec<u8>| f@) + fields_from(bytes@, 0) =~= fields_from(bytes@, 0));
    }
    while k < bytes.len()
        invariant
            k <= bytes@.len(),
            fields@.map_values(|f: Vec<u8>| f@) + fields_from(bytes@, k as int) == fields_from(bytes@, 0),
        decreases bytes.len() - k,
    {
        if ascii_space(bytes[k]) {
            k = k + 1;
        } else {
            let start = k;
            k = k + 1;
            proof {
                lemma_field_end(bytes@, k as int);
            }
            while k < bytes.len() && !ascii_space(bytes[k])
                invariant
                    start < k <= bytes@.len(),
                    field_end(bytes@, start + 1) == field_end(bytes@, k as int),
                decreases bytes.len() - k,
            {
                k = k + 1;
            }
            let ghost before = fields@.map_values(|f: Vec<u8>| f@);
            let field = bytes_between(bytes, start, k);
            let ghost fv = field@;
            fields.push(field);
            proof {
                assert(field_end(bytes@, k as int) == k);
                assert(fields_from(bytes@, start as int) == seq![fv] + fields_from(bytes@, k as int));
                assert(fields@.map_values(|f: Vec<u8>| f@) =~= before.push(fv));
                assert(before.push(fv) + fields_from(bytes@, k as int) =~= before + (seq![fv] + fields_from(
                    bytes@,
                    k as int,
                )));
            }
        }
    }
    proof {
        assert(fields@.map_values(|f: Vec<u8>| f@) + fields_from(bytes@, k as int) =~= fields@.map_values(
            |f: Vec<u8>| f@,
        ));
    }
    fields
}

/// The type name `blob`.
pub open spec fn blob_name() -> Seq<u8> {
    seq![98u8, 108u8, 111u8, 98u8]
}

/// The first tab of a record is at `t`.
pub open spec fn first_tab(record: Seq<u8>, t: int) -> bool {
    0 <= t < record.len() && record[t] == 9 && forall|i: int| 0 <= i < t ==> record[i] != 9
}

/// What a record of `git ls-tree -r -z` gives: none for a malformed record,
/// else the path and object ID of a blob, or nothing for another entry.
pub open spec fn record_reading(record: Seq<u8>) -> Option<Option<(Seq<u8>, Seq<u8>)>> {
    if !(exists|t: int| first_tab(record, t)) {
        None
    } else {
        let t = choose|t: int| first_tab(record, t);
        let metadata = record.subrange(0, t);
        let path = record.subrange(t + 1, record.len() as int);
        let fields = fields_from(metadata, 0);
        if !vstd::utf8::valid_utf8(metadata) || !vstd::utf8::valid_utf8(path) {
            None
        } else if fields.len() >= 2 && fields[1] == blob_name() {
            if fields.len() < 3 || !vstd::utf8::valid_utf8(fields[2]) {
                None
            } else {
                Some(Some((path, fields[2])))
            }
        } else {
            Some(None)
        }
    }
}

/// The records of a listing from `start`, split at zero bytes scanning from
/// `k`; empty records are skipped.
pub open spec fn listing_records(listing: Seq<u8>, start: int, k: int) -> Seq<Seq<u8>>
    decreases listing.len() + 1 - k,
{
    if k > listing.len() {
        Seq::empty()
    } else if k == listing.len() {
        if k > start {
            seq![listing.subrange(start, k)]
        } else {
            Seq::empty()
        }
    } else if listing[k] == 0 {
        (if k > start {
            seq![listing.subrange(start, k)]
        } else {
            Seq::empty()
        }) + listing_records(listing, k + 1, k + 1)
    } else {
        listing_records(listing, start, k + 1)
    }
}

/// The blobs of the records in order; none if a record is malformed.
pub open spec fn blobs_reading(records: Seq<Seq<u8>>) -> Option<Seq<(Seq<u8>, Seq<u8>)>>
    decreases records.len(),
{
    if records.len() == 0 {
        Some(Seq::empty())
    } else {
        match (blobs_reading(records.drop_last()), record_reading(records.last())) {
            (Some(blobs), Some(Some(entry))) => Some(blobs.push(entry)),
            (Some(blobs), Some(None)) => Some(blobs),
            _ => None,
        }
    }
}

proof fn lemma_blobs_none(a: Seq<Seq<u8>>, b: Seq<Seq<u8>>)
    requires
        blobs_reading(a) is None,
    ensures
        blobs_reading(a + b) is None,
    decreases b.len(),
{
    if b.len() == 0 {
        assert(a + b =~= a);
    } else {
        lemma_blobs_none(a, b.drop_last());
        assert((a + b).drop_last() =~= a + b.drop_last());
    }
}

/// A blob entry by the bytes of its path and object ID.
pub open spec fn entry_bytes(e: (String, String)) -> (Seq<u8>, Seq<u8>) {
    (vstd::utf8::encode_utf8(e.0@), vstd::utf8::encode_utf8(e.1@))
}

fn is_blob(field: &Vec<u8>) -> (res: bool)
    ensures
        res == (field@ == blob_name()),
{
    let res = field.len() == 4 && field[0] == 98 && field[1] == 108 && field[2] == 111 && field[3] == 98;
    proof {
        if res {
            assert(field@ =~= blob_name());
        }
    }
    res
}

fn tree_error(text: &str) -> (res: InputError)
    ensures
        res is SnapshotMismatch,
{
    InputError::SnapshotMismatch(String::from_str(text))
}

/// One record of `git ls-tree -r -z`: metadata, a tab and the path. Blobs
/// give their path and object ID; other entries give nothing.
fn tree_record(record: &Vec<u8>) -> (res: Result<Option<(String, String)>, InputError>)
    ensures
        res matches Err(e) ==> e is SnapshotMismatch,
        res matches Ok(Some(entry)) ==> exists|t: int|
            0 <= t < record@.len() && record@[t] == 9 && vstd::utf8::encode_utf8(entry.0@) == record@.subrange(
                t + 1,
                record@.len() as int,
            ) && forall|i: int| 0 <= i < t ==> record@[i] != 9,
        match record_reading(record@) {
            None => res is Err,
            Some(None) => res matches Ok(None),
            Some(Some(entry)) => res matches Ok(Some(e)) && entry_bytes(e) == entry,
        },
{
    let mut tab: usize = 0;
    while tab < record.len() && record[tab] != 9
        invariant
            tab <= record@.len(),
            forall|i: int| 0 <= i < tab ==> record@[i] != 9,
        decreases record.len() - tab,
    {
        tab = tab + 1;
    }
    if tab == record.len() {
        proof {
            if exists|t: int| first_tab(record@, t) {
                let t = choose|t: int| first_tab(record@, t);
                assert(record@[t] != 9);
            }
        }
        return Err(tree_error("invalid git ls-tree record"));
    }
    proof {
        assert(first_tab(record@, tab as int));
        let t = choose|t: int| first_tab(record@, t);
        if t < tab {
            assert(record@[t] != 9);
        }
        if t > tab {
            assert(record@[tab as int] != 9);
        }
        assert(t == tab);
    }
    let metadata_bytes = bytes_between(record, 0, tab);
    let metadata = match crate::ifds::analysis::utf8_string(metadata_bytes) {
        Ok(_) => bytes_between(record, 0, tab),
        Err(_) => {
            return Err(tree_error("non-UTF-8 tree metadata"));
        },
    };
    let path = match crate::ifds::analysis::utf8_string(bytes_between(record, tab + 1, record.len())) {
        Ok(text) => text,
        Err(_) => {
            return Err(tree_error("non-UTF-8 paths are unsupported"));
        },
    };
    let fields = ascii_fields(&metadata);
    if fields.len() >= 2 && is_blob(&fields[1]) {
        if fields.len() < 3 {
            return Err(tree_error("missing blob ID"));
        }
        let oid = match crate::ifds::analysis::utf8_string(fields[2].clone()) {
            Ok(text) => text,
            Err(_) => {
                return Err(tree_error("non-UTF-8 tree metadata"));
            },
        };
        return Ok(Some((path, oid)));
    }
    Ok(None)
}

/// The blobs of a snapshot from the output of `git ls-tree -r -z`: each
/// record ends with a zero byte, and each blob gives its path and object
/// ID, in order.
pub fn tree_blobs(listing: &Vec<u8>) -> (res: Result<Vec<(String, String)>, InputError>)
    ensures
        res matches Err(e) ==> e is SnapshotMismatch,
        match blobs_reading(listing_records(listing@, 0, 0)) {
            None => res is Err,
            Some(entries) => res matches Ok(files) && files@.map_values(|e: (String, String)| entry_bytes(e)) == entries,
        },
{
    let mut files: Vec<(String, String)> = Vec::new();
    let mut start: usize = 0;
    let mut k: usize = 0;
    let ghost mut done: Seq<Seq<u8>> = Seq::empty();
    proof {
        assert(done + listing_records(listing@, 0, 0) =~= listing_records(listing@, 0, 0));
    }
    while k <= listing.len()
        invariant_except_break
            start <= k,
            k <= listing@.len() + 1,
            start <= listing@.len(),
            listing_records(listing@, 0, 0) == done + listing_records(listing@, start as int, k as int),
        invariant
            blobs_reading(done) == Some(files@.map_values(|e: (String, String)| entry_bytes(e))),
        ensures
            listing_records(listing@, 0, 0) == done,
        decreases listing.len() + 1 - k,
    {
        if k == listing.len() || listing[k] == 0 {
            let ghost rest = if k == listing.len() {
                Seq::<Seq<u8>>::empty()
            } else {
                listing_records(listing@, k + 1, k + 1)
            };
            if k > start {
                let record = bytes_between(listing, start, k);
                let ghost rv = record@;
                proof {
                    assert(listing_records(listing@, start as int, k as int) == seq![rv] + rest);
                    assert(done + (seq![rv] + rest) =~= done.push(rv) + rest);
                    assert(done.push(rv).drop_last() =~= done);
                    assert(done.push(rv).last() == rv);
                }
                let ghost before = files@.map_values(|e: (String, String)| entry_bytes(e));
                match tree_record(&record) {
                    Ok(Some(entry)) => {
                        let ghost eb = entry_bytes(entry);
                        files.push(entry);
                        proof {
                            assert(files@.map_values(|e: (String, String)| entry_bytes(e)) =~= before.push(eb));
                        }
                    },
                    Ok(None) => {},
                    Err(e) => {
                        proof {
                            assert(blobs_reading(done.push(rv)) is None);
                            lemma_blobs_none(done.push(rv), rest);
                        }
                        return Err(e);
                    },
                }
                proof {
                    done = done.push(rv);
                }
            } else {
                proof {
                    assert(listing_records(listing@, start as int, k as int) == rest);
                }
            }
            if k == listing.len() {
                proof {
                    assert(done + rest =~= done);
                }
                break;
            }
            start = k + 1;
        } else {
            proof {
                assert(listing_records(listing@, start as int, k as int) == listing_records(listing@, start as int, k + 1));
            }
        }
        k = k + 1;
    }
    Ok(files)
}

} // verus!

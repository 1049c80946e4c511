//! Candidate discovery: filtering directory listings down to Markdown
//! regular files, building scope-prefixed display paths, and ordering the
//! candidates deterministically (global scope first, each scope sorted by
//! the UTF-8 bytes of its display paths). Repository-root selection from a
//! probed ancestor chain lives here as well.

use crate::text::lex_le;
use crate::text::lex_le_bytes;
use crate::text::str_bytes;
use crate::types::DirEntry;
use crate::types::DirListing;
use crate::types::DirState;
use crate::types::DirStateModel;
use crate::types::DiscoveryModel;
use crate::types::EntryKind;
use crate::types::EntryModel;
use crate::types::FileModel;
use crate::types::ListingModel;
use crate::types::SteeringDiscovery;
use crate::types::SteeringFile;
use crate::types::SteeringScope;
use crate::types::files_view;
use vstd::prelude::*;
use vstd::string::StrSliceExecFns;
use vstd::string::StringExecFns;
use vstd::string::StringSliceAdditionalSpecFns;

verus! {

/// Display-path prefix of one scope.
pub open spec fn scope_display_prefix(scope: SteeringScope) -> Seq<char> {
    match scope {
        SteeringScope::Global => "$CODEX_HOME/steering/"@,
        SteeringScope::Project => ".codex/steering/"@,
    }
}

/// A path joined with a trailing component, the way a path join works: the
/// separator is added only when the base is non-empty and does not already
/// end with one. The conditions are stated over the base's UTF-8 bytes.
pub open spec fn join_path_spec(dir: Seq<char>, name: Seq<char>) -> Seq<char> {
    let b = str_bytes(dir);
    if b.len() == 0 {
        name
    } else if b.last() == 0x2fu8 {
        dir + name
    } else {
        dir + "/"@ + name
    }
}

/// Joins a directory path and a child component.
pub fn join_path(dir: &str, name: &str) -> (r: String)
    ensures
        r@ == join_path_spec(dir@, name@),
{
    let db = dir.as_bytes();
    let n = db.len();
    if n == 0 {
        name.to_owned()
    } else if db[n - 1] == 0x2fu8 {
        dir.to_owned().concat(name)
    } else {
        dir.to_owned().concat("/").concat(name)
    }
}

/// True when a file name carries the Markdown extension: its UTF-8 bytes end
/// in `.md` and the dot is not the first byte. This matches how a path's
/// extension is read from its file name.
pub open spec fn is_md_name(name: Seq<char>) -> bool {
    let b = str_bytes(name);
    b.len() >= 4 && b[b.len() - 3] == 0x2eu8 && b[b.len() - 2] == 0x6du8 && b[b.len() - 1]
        == 0x64u8
}

/// Decides [`is_md_name`] on a file name.
pub fn is_md_file_name(name: &str) -> (r: bool)
    ensures
        r == is_md_name(name@),
{
    let b = name.as_bytes();
    let n = b.len();
    n >= 4 && b[n - 3] == 0x2eu8 && b[n - 2] == 0x6du8 && b[n - 1] == 0x64u8
}

/// A directory entry survives filtering when it is a regular file (probed
/// without following symbolic links) and carries the Markdown extension.
pub open spec fn keep_entry(e: EntryModel) -> bool {
    e.kind == EntryKind::RegularFile && is_md_name(e.name)
}

/// The candidate built from one surviving entry.
pub open spec fn candidate_model(scope: SteeringScope, dir: Seq<char>, e: EntryModel) -> FileModel {
    FileModel {
        scope,
        path: join_path_spec(dir, e.name),
        display: scope_display_prefix(scope) + e.name,
    }
}

/// The candidates of a listed directory, in listing order.
pub open spec fn candidate_seq(scope: SteeringScope, dir: Seq<char>, entries: Seq<EntryModel>) -> Seq<
    FileModel,
>
    decreases entries.len(),
{
    if entries.len() == 0 {
        Seq::empty()
    } else {
        candidate_seq(scope, dir, entries.drop_last()) + if keep_entry(entries.last()) {
            seq![candidate_model(scope, dir, entries.last())]
        } else {
            Seq::empty()
        }
    }
}

/// The candidates a listing contributes: none unless it was actually listed.
pub open spec fn listing_candidates(scope: SteeringScope, dir: Seq<char>, l: ListingModel) -> Seq<
    FileModel,
> {
    match l {
        ListingModel::Listed(es) => candidate_seq(scope, dir, es),
        _ => Seq::empty(),
    }
}

/// The recorded health of a scanned directory.
pub open spec fn listing_state(l: ListingModel) -> DirStateModel {
    match l {
        ListingModel::Missing => DirStateModel::Missing,
        ListingModel::Unreadable(m) => DirStateModel::Error(m),
        ListingModel::Listed(_) => DirStateModel::Present,
    }
}

/// Ordering of candidates: byte-lexicographic on display paths.
pub open spec fn file_le(a: FileModel, b: FileModel) -> bool {
    lex_le(str_bytes(a.display), str_bytes(b.display))
}

/// Inserts a candidate in front of the first element it compares
/// less-than-or-equal to.
pub open spec fn insert_sorted(x: FileModel, s: Seq<FileModel>) -> Seq<FileModel>
    decreases s.len(),
{
    if s.len() == 0 {
        seq![x]
    } else if file_le(x, s[0]) {
        seq![x] + s
    } else {
        seq![s[0]] + insert_sorted(x, s.drop_first())
    }
}

/// Insertion sort by display path.
pub open spec fn sort_files(s: Seq<FileModel>) -> Seq<FileModel>
    decreases s.len(),
{
    if s.len() == 0 {
        s
    } else {
        insert_sorted(s.last(), sort_files(s.drop_last()))
    }
}

/// True when the candidates come in display-path order.
pub open spec fn sorted_by_display(s: Seq<FileModel>) -> bool {
    forall|i: int, j: int| 0 <= i < j < s.len() ==> file_le(s[i], s[j])
}

/// `insert_sorted` places the new element at the first position whose
/// element it precedes.
proof fn lemma_insert_sorted_at(x: FileModel, s: Seq<FileModel>, j: int)
    requires
        0 <= j <= s.len(),
        forall|k: int| 0 <= k < j ==> !file_le(x, s[k]),
        j < s.len() ==> file_le(x, s[j]),
    ensures
        insert_sorted(x, s) == s.take(j) + seq![x] + s.skip(j),
    decreases s.len(),
{
    if s.len() == 0 {
        assert(insert_sorted(x, s) =~= s.take(j) + seq![x] + s.skip(j));
    } else if j == 0 {
        assert(file_le(x, s[0]));
        assert(insert_sorted(x, s) =~= s.take(0) + seq![x] + s.skip(0));
    } else {
        assert(!file_le(x, s[0]));
        let d = s.drop_first();
        assert(forall|k: int| 0 <= k < j - 1 ==> d[k] == s[k + 1] && !file_le(x, d[k]));
        lemma_insert_sorted_at(x, d, j - 1);
        assert(insert_sorted(x, s) == seq![s[0]] + (d.take(j - 1) + seq![x] + d.skip(j - 1)));
        assert(seq![s[0]] + (d.take(j - 1) + seq![x] + d.skip(j - 1)) =~= s.take(j) + seq![x]
            + s.skip(j));
    }
}

/// Inserts one file into an already built prefix, keeping display order.
fn insert_file(out: &mut Vec<SteeringFile>, x: SteeringFile)
    ensures
        files_view(final(out)@) == insert_sorted(x@, files_view(old(out)@)),
{
    let ghost s = files_view(old(out)@);
    let n = out.len();
    let mut j: usize = 0;
    while j < n && !lex_le_bytes(x.display_path.as_str(), out[j].display_path.as_str())
        invariant
            j <= n,
            n == out@.len(),
            out@ == old(out)@,
            s == files_view(old(out)@),
            forall|k: int| 0 <= k < j ==> !file_le(x@, s[k]),
        decreases n - j,
    {
        assert(!file_le(x@, s[j as int]));
        j += 1;
    }
    proof {
        lemma_insert_sorted_at(x@, s, j as int);
    }
    out.insert(j, x);
    proof {
        assert(files_view(final(out)@) =~= s.take(j as int) + seq![x@] + s.skip(j as int));
    }
}

/// Sorts candidates by the UTF-8 bytes of their display paths.
fn sort_by_display(v: Vec<SteeringFile>) -> (r: Vec<SteeringFile>)
    ensures
        files_view(r@) == sort_files(files_view(v@)),
{
    let ghost orig = files_view(v@);
    let mut rest = v;
    let mut out: Vec<SteeringFile> = Vec::new();
    proof {
        assert(files_view(rest@) =~= orig.skip(0));
        assert(files_view(out@) =~= sort_files(orig.take(0)));
    }
    while rest.len() > 0
        invariant
            rest@.len() <= orig.len(),
            files_view(rest@) == orig.skip(orig.len() - rest@.len()),
            files_view(out@) == sort_files(orig.take(orig.len() - rest@.len())),
        decreases rest@.len(),
    {
        let ghost i = orig.len() - rest@.len();
        let x = rest.remove(0);
        proof {
            assert(files_view(rest@) =~= orig.skip(i).remove(0));
            assert(orig.skip(i).remove(0) =~= orig.skip(i + 1));
            assert(x@ == orig.skip(i)[0]);
            assert(orig.skip(i)[0] == orig[i]);
        }
        insert_file(&mut out, x);
        proof {
            let t = orig.take(i + 1);
            assert(t.len() > 0);
            assert(t.last() == orig[i]);
            assert(t.drop_last() =~= orig.take(i));
            assert(sort_files(t) == insert_sorted(orig[i], sort_files(orig.take(i))));
        }
    }
    proof {
        assert(orig.take(orig.len() - rest@.len()) =~= orig);
    }
    out
}

/// Everything discovery determines, as a function of the configuration
/// strings and the two directory listings: the derived directory paths, the
/// health of each directory, and the ordered candidate list — sorted global
/// candidates first, sorted project candidates after them.
pub open spec fn spec_discovery(
    codex_home: Seq<char>,
    repo_root: Seq<char>,
    gl: ListingModel,
    pl: ListingModel,
) -> DiscoveryModel {
    let global_dir = join_path_spec(codex_home, "steering"@);
    let project_dir = join_path_spec(repo_root, ".codex/steering"@);
    DiscoveryModel {
        codex_home,
        repo_root,
        global_dir,
        project_dir,
        files: sort_files(listing_candidates(SteeringScope::Global, global_dir, gl)) + sort_files(
            listing_candidates(SteeringScope::Project, project_dir, pl),
        ),
        global_dir_state: listing_state(gl),
        project_dir_state: listing_state(pl),
    }
}

/// Turns one listed directory into its recorded state and its candidates,
/// in listing order (not yet sorted).
fn scope_candidates(scope: SteeringScope, dir: &str, listing: DirListing) -> (r: (
    DirState,
    Vec<SteeringFile>,
))
    ensures
        r.0@ == listing_state(listing@),
        files_view(r.1@) == listing_candidates(scope, dir@, listing@),
{
    match listing {
        DirListing::Missing => {
            let empty: Vec<SteeringFile> = Vec::new();
            proof {
                assert(files_view(empty@) =~= Seq::<FileModel>::empty());
            }
            (DirState::Missing, empty)
        },
        DirListing::Unreadable(m) => {
            let empty: Vec<SteeringFile> = Vec::new();
            proof {
                assert(files_view(empty@) =~= Seq::<FileModel>::empty());
            }
            (DirState::Error(m), empty)
        },
        DirListing::Listed(entries) => {
            let ghost orig = crate::types::entries_view(entries@);
            let mut rest = entries;
            let mut out: Vec<SteeringFile> = Vec::new();
            proof {
                assert(crate::types::entries_view(rest@) =~= orig.skip(0));
                assert(files_view(out@) =~= candidate_seq(scope, dir@, orig.take(0)));
            }
            while rest.len() > 0
                invariant
                    rest@.len() <= orig.len(),
                    crate::types::entries_view(rest@) == orig.skip(orig.len() - rest@.len()),
                    files_view(out@) == candidate_seq(scope, dir@, orig.take(
                        orig.len() - rest@.len(),
                    )),
                decreases rest@.len(),
            {
                let ghost i = orig.len() - rest@.len();
                let e = rest.remove(0);
                proof {
                    assert(crate::types::entries_view(rest@) =~= orig.skip(i).remove(0));
                    assert(orig.skip(i).remove(0) =~= orig.skip(i + 1));
                    assert(e@ == orig.skip(i)[0]);
                    assert(orig.skip(i)[0] == orig[i]);
                }
                let keep = matches!(e.kind, EntryKind::RegularFile) && is_md_file_name(
                    e.name.as_str(),
                );
                if keep {
                    let prefix: &str = match scope {
                        SteeringScope::Global => "$CODEX_HOME/steering/",
                        SteeringScope::Project => ".codex/steering/",
                    };
                    let file = SteeringFile {
                        scope,
                        path: join_path(dir, e.name.as_str()),
                        display_path: prefix.to_owned().concat(e.name.as_str()),
                    };
                    assert(file@ == candidate_model(scope, dir@, orig[i]));
                    out.push(file);
                } else {
                    assert(!keep_entry(orig[i]));
                }
                proof {
                    let t = orig.take(i + 1);
                    assert(t.len() > 0);
                    assert(t.last() == orig[i]);
                    assert(t.drop_last() =~= orig.take(i));
                    assert(files_view(out@) =~= candidate_seq(scope, dir@, t));
                }
            }
            proof {
                assert(orig.take(orig.len() - rest@.len()) =~= orig);
            }
            (DirState::Present, out)
        },
    }
}

/// Discovers candidate steering files from the two scanned directories.
///
/// The caller resolves the repository root and lists the two directories;
/// this function derives the directory paths, filters and orders the
/// candidates, and records each directory's health.
pub fn discover_steering_files(
    codex_home: String,
    repo_root: String,
    global_listing: DirListing,
    project_listing: DirListing,
) -> (r: SteeringDiscovery)
    ensures
        r@ == spec_discovery(codex_home@, repo_root@, global_listing@, project_listing@),
{
    let global_dir = join_path(codex_home.as_str(), "steering");
    let project_dir = join_path(repo_root.as_str(), ".codex/steering");
    let (global_state, global_files) = scope_candidates(
        SteeringScope::Global,
        global_dir.as_str(),
        global_listing,
    );
    let (project_state, project_files) = scope_candidates(
        SteeringScope::Project,
        project_dir.as_str(),
        project_listing,
    );
    let mut files = sort_by_display(global_files);
    let mut sorted_project = sort_by_display(project_files);
    files.append(&mut sorted_project);
    let r = SteeringDiscovery {
        codex_home,
        repo_root,
        global_dir,
        project_dir,
        files,
        global_dir_state: global_state,
        project_dir_state: project_state,
    };
    proof {
        assert(files_view(r.files@) =~= spec_discovery(
            codex_home@,
            repo_root@,
            global_listing@,
            project_listing@,
        ).files);
        assert(r@ =~= spec_discovery(codex_home@, repo_root@, global_listing@, project_listing@));
    }
    r
}

/// The repository root chosen from an ancestor chain: the first ancestor
/// whose probe found a version-control marker, or the working directory
/// itself when none did.
pub open spec fn spec_repo_root(
    cwd: Seq<char>,
    ancestors: Seq<Seq<char>>,
    has_marker: Seq<bool>,
) -> Seq<char>
    decreases ancestors.len(),
{
    if ancestors.len() == 0 || ancestors.len() != has_marker.len() {
        cwd
    } else if has_marker[0] {
        ancestors[0]
    } else {
        spec_repo_root(cwd, ancestors.drop_first(), has_marker.drop_first())
    }
}

/// Maps a sequence of exec strings to their character sequences.
pub open spec fn strings_view(s: Seq<String>) -> Seq<Seq<char>> {
    s.map_values(|x: String| x@)
}

/// Selects the repository root from a probed ancestor chain.
///
/// `ancestors` is the working directory followed by its parents, nearest
/// first; `has_marker[i]` says whether a version-control marker was found in
/// `ancestors[i]`. Returns the nearest marked ancestor, or `cwd` unchanged
/// when none is marked.
pub fn resolve_repo_root(cwd: &String, ancestors: &Vec<String>, has_marker: &Vec<bool>) -> (r:
    String)
    requires
        ancestors@.len() == has_marker@.len(),
    ensures
        r@ == spec_repo_root(cwd@, strings_view(ancestors@), has_marker@),
{
    let ghost anc = strings_view(ancestors@);
    let ghost marks = has_marker@;
    let n = ancestors.len();
    let mut i: usize = 0;
    proof {
        assert(anc.skip(0) =~= anc);
        assert(marks.skip(0) =~= marks);
    }
    loop
        invariant
            i <= n,
            n == anc.len(),
            n == marks.len(),
            anc == strings_view(ancestors@),
            marks == has_marker@,
            spec_repo_root(cwd@, anc, marks) == spec_repo_root(cwd@, anc.skip(i as int), marks.skip(
                i as int,
            )),
        decreases n - i,
    {
        if i == n {
            assert(anc.skip(i as int).len() == 0);
            return cwd.clone();
        }
        if has_marker[i] {
            assert(anc.skip(i as int)[0] == anc[i as int]);
            assert(marks.skip(i as int)[0] == marks[i as int]);
            assert(anc.skip(i as int).len() == marks.skip(i as int).len());
            return ancestors[i].clone();
        }
        proof {
            let sa = anc.skip(i as int);
            let sm = marks.skip(i as int);
            assert(sa.len() == sm.len());
            assert(sa.len() != 0);
            assert(!sm[0]);
            assert(sa.drop_first() =~= anc.skip(i + 1));
            assert(sm.drop_first() =~= marks.skip(i + 1));
        }
        i += 1;
    }
}

} // verus!

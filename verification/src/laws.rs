//! The library's stated laws, proved over the same specification functions
//! its executable contracts use.

use crate::discovery::candidate_model;
use crate::discovery::candidate_seq;
use crate::discovery::file_le;
use crate::discovery::insert_sorted;
use crate::discovery::keep_entry;
use crate::discovery::sort_files;
use crate::discovery::sorted_by_display;
use crate::discovery::spec_discovery;
use crate::discovery::spec_repo_root;
use crate::encoding::lemma_scalar_shape_iff;
use crate::encoding::lemma_ws_prefix;
use crate::encoding::lemma_truncate_valid;
use crate::encoding::scalar_shape;
use crate::encoding::ws_only;
use crate::loader::data_prefix;
use crate::loader::file_status;
use crate::loader::spec_load;
use crate::text::lemma_lex_le_total;
use crate::text::lemma_lex_le_trans;
use crate::text::str_bytes;
use crate::types::DiscoveryModel;
use crate::types::EntryModel;
use crate::types::FileModel;
use crate::types::ListingModel;
use crate::types::LoadModel;
use crate::types::ReadModel;
use crate::types::ReasonModel;
use crate::types::StatusModel;
use crate::types::SteeringScope;
use vstd::prelude::*;
use vstd::seq_lib::lemma_multiset_commutative;
use vstd::utf8::valid_first_scalar;
use vstd::utf8::valid_utf8;

verus! {

broadcast use vstd::seq_lib::group_seq_properties;

/// Re-running loading on the same discovery, reads and configuration gives
/// the same report: the loading contract pins its result completely, so any
/// two results of equal inputs are equal.
pub proof fn law_load_deterministic(
    r1: LoadModel,
    r2: LoadModel,
    enabled: bool,
    max_bytes: int,
    disc: DiscoveryModel,
    reads: Seq<ReadModel>,
)
    requires
        r1 == spec_load(enabled, max_bytes, disc, reads),
        r2 == spec_load(enabled, max_bytes, disc, reads),
    ensures
        r1 == r2,
{
}

/// When loading is disabled or the budget is zero, every discovered file is
/// omitted as disabled and no combined text is produced.
pub proof fn law_disabled_short_circuit(
    enabled: bool,
    max_bytes: int,
    disc: DiscoveryModel,
    reads: Seq<ReadModel>,
)
    requires
        !enabled || max_bytes == 0,
    ensures
        spec_load(enabled, max_bytes, disc, reads).combined is None,
        !spec_load(enabled, max_bytes, disc, reads).enabled,
        spec_load(enabled, max_bytes, disc, reads).files.len() == disc.files.len(),
        forall|j: int|
            0 <= j < disc.files.len() ==> #[trigger] spec_load(
                enabled,
                max_bytes,
                disc,
                reads,
            ).files[j].status == (StatusModel::Omitted { reason: ReasonModel::Disabled }),
{
}

/// Re-running discovery on the same configuration and listings gives the
/// same result: the discovery contract pins its result completely.
pub proof fn law_discovery_deterministic(
    d1: DiscoveryModel,
    d2: DiscoveryModel,
    codex_home: Seq<char>,
    repo_root: Seq<char>,
    gl: ListingModel,
    pl: ListingModel,
)
    requires
        d1 == spec_discovery(codex_home, repo_root, gl, pl),
        d2 == spec_discovery(codex_home, repo_root, gl, pl),
    ensures
        d1 == d2,
{
}

/// The repository root is the nearest marked ancestor: if some ancestor in
/// the probed chain carries the marker, the first such one is returned;
/// with no marker anywhere the working directory comes back unchanged.
pub proof fn law_repo_root_nearest(cwd: Seq<char>, anc: Seq<Seq<char>>, marks: Seq<bool>, i: int)
    requires
        anc.len() == marks.len(),
        0 <= i < marks.len(),
        marks[i],
        forall|j: int| 0 <= j < i ==> !marks[j],
    ensures
        spec_repo_root(cwd, anc, marks) == anc[i],
    decreases i,
{
    if i > 0 {
        law_repo_root_nearest(cwd, anc.drop_first(), marks.drop_first(), i - 1);
        assert(anc.drop_first()[i - 1] == anc[i]);
    }
}

/// With no marker anywhere in the chain, the working directory is returned
/// unchanged.
pub proof fn law_repo_root_fallback(cwd: Seq<char>, anc: Seq<Seq<char>>, marks: Seq<bool>)
    requires
        anc.len() == marks.len(),
        forall|j: int| 0 <= j < marks.len() ==> !marks[j],
    ensures
        spec_repo_root(cwd, anc, marks) == cwd,
    decreases anc.len(),
{
    if anc.len() > 0 {
        law_repo_root_fallback(cwd, anc.drop_first(), marks.drop_first());
    }
}

/// A whitespace-only or empty file reached with budget left is always
/// omitted as empty, even when its read was cut by the budget: a salvaged
/// prefix of whitespace is still whitespace.
pub proof fn law_empty_omitted(rd: ReadModel, content: Seq<u8>, rem: int)
    requires
        rd == ReadModel::Content(content),
        rem > 0,
        valid_utf8(content),
        ws_only(content),
    ensures
        file_status(rd, rem) == (StatusModel::Omitted { reason: ReasonModel::Empty }),
{
    if content.len() > rem {
        lemma_ws_prefix(content, rem);
        lemma_truncate_valid(content, rem);
    }
}

/// A file whose bytes are not valid UTF-8 is rejected as such whenever its
/// read was not cut short by the budget: no salvage is attempted.
pub proof fn law_non_utf8_rejected(rd: ReadModel, content: Seq<u8>, rem: int)
    requires
        rd == ReadModel::Content(content),
        rem > 0,
        content.len() <= rem,
        !valid_utf8(content),
    ensures
        file_status(rd, rem) == (StatusModel::Omitted { reason: ReasonModel::NonUtf8 }),
{
}

/// A file of valid UTF-8 text whose read was cut by the budget is never
/// rejected as invalid: the cut leaves either whole text or a salvageable
/// incomplete trailing scalar, so the file is included (truncated) unless
/// what survived is only whitespace.
pub proof fn law_truncated_valid_salvaged(rd: ReadModel, content: Seq<u8>, rem: int)
    requires
        rd == ReadModel::Content(content),
        0 < rem < content.len(),
        valid_utf8(content),
    ensures
        file_status(rd, rem) != (StatusModel::Omitted { reason: ReasonModel::NonUtf8 }),
        file_status(rd, rem) != (StatusModel::Omitted { reason: ReasonModel::OverBudget }),
        file_status(rd, rem) != (StatusModel::Omitted { reason: ReasonModel::Disabled }),
        forall|b: int, t: bool|
            file_status(rd, rem) == (StatusModel::Included { bytes: b, truncated: t }) ==> t,
{
    lemma_truncate_valid(content, rem);
}

/// Every byte below 0x80 encodes one scalar, so such a sequence is valid
/// UTF-8 and parses to its full length.
pub proof fn lemma_ascii_valid(s: Seq<u8>)
    requires
        forall|k: int| 0 <= k < s.len() ==> s[k] <= 0x7f,
    ensures
        valid_utf8(s),
    decreases s.len(),
{
    if s.len() > 0 {
        lemma_scalar_shape_iff(s);
        assert(scalar_shape(s));
        assert(valid_first_scalar(s));
        let rest = vstd::utf8::pop_first_scalar(s);
        assert(rest =~= s.skip(1));
        lemma_ascii_valid(rest);
    }
}

/// Budget accounting for a file reached with `rem` bytes remaining, for
/// plain one-byte-per-scalar content that is not whitespace-only: included
/// in full when it fits, included truncated to exactly the remaining bytes
/// when it straddles the boundary, and omitted over budget when nothing
/// remains. `rem_after` threads this very accounting through the candidate
/// sequence, so the running consumed total is `budget - rem`.
pub proof fn law_budget_accounting(rd: ReadModel, content: Seq<u8>, rem: int)
    requires
        rd == ReadModel::Content(content),
        forall|k: int| 0 <= k < content.len() ==> content[k] <= 0x7f,
        rem > 0 ==> !ws_only(data_prefix(content, rem)),
    ensures
        rem == 0 ==> file_status(rd, rem) == (StatusModel::Omitted {
            reason: ReasonModel::OverBudget,
        }),
        rem >= content.len() && rem > 0 ==> file_status(rd, rem) == (StatusModel::Included {
            bytes: content.len() as int,
            truncated: false,
        }),
        0 < rem < content.len() ==> file_status(rd, rem) == (StatusModel::Included {
            bytes: rem,
            truncated: true,
        }),
{
    if rem > 0 {
        let data = data_prefix(content, rem);
        assert(forall|k: int| 0 <= k < data.len() ==> data[k] <= 0x7f);
        lemma_ascii_valid(data);
        if rem < content.len() {
            assert(data.len() == rem);
        }
    }
}

/// Inserting keeps exactly the elements: one more copy of the inserted
/// file, nothing else changed.
proof fn lemma_insert_sorted_multiset(x: FileModel, s: Seq<FileModel>)
    ensures
        insert_sorted(x, s).to_multiset() == s.to_multiset().insert(x),
    decreases s.len(),
{
    broadcast use vstd::seq_lib::group_to_multiset_ensures;

    if s.len() == 0 {
        assert(seq![x] =~= Seq::<FileModel>::empty().push(x));
        assert(Seq::<FileModel>::empty() =~= s);
        assert(insert_sorted(x, s).to_multiset() =~= s.to_multiset().insert(x));
    } else if file_le(x, s[0]) {
        lemma_multiset_commutative(seq![x], s);
        assert(seq![x] =~= Seq::<FileModel>::empty().push(x));
        assert(insert_sorted(x, s).to_multiset() =~= s.to_multiset().insert(x));
    } else {
        let d = s.drop_first();
        lemma_insert_sorted_multiset(x, d);
        lemma_multiset_commutative(seq![s[0]], insert_sorted(x, d));
        lemma_multiset_commutative(seq![s[0]], d);
        assert(s =~= seq![s[0]] + d);
        assert(insert_sorted(x, s).to_multiset() =~= s.to_multiset().insert(x));
    }
}

/// Inserting into a sorted sequence keeps it sorted.
proof fn lemma_insert_sorted_sorted(x: FileModel, s: Seq<FileModel>)
    requires
        sorted_by_display(s),
    ensures
        sorted_by_display(insert_sorted(x, s)),
    decreases s.len(),
{
    broadcast use vstd::seq_lib::group_to_multiset_ensures;

    if s.len() == 0 {
    } else if file_le(x, s[0]) {
        let r = seq![x] + s;
        assert forall|i: int, j: int| 0 <= i < j < r.len() implies file_le(r[i], r[j]) by {
            if i == 0 {
                if j == 1 {
                    assert(file_le(x, s[0]));
                } else {
                    assert(file_le(s[0], s[j - 1]));
                    lemma_lex_le_trans(
                        str_bytes(x.display),
                        str_bytes(s[0].display),
                        str_bytes(s[j - 1].display),
                    );
                }
            }
        }
    } else {
        let d = s.drop_first();
        assert(forall|i: int, j: int|
            0 <= i < j < d.len() ==> file_le(s[i + 1], s[j + 1]) && d[i] == s[i + 1] && d[j] == s[j
                + 1]);
        lemma_insert_sorted_sorted(x, d);
        lemma_insert_sorted_multiset(x, d);
        lemma_lex_le_total(str_bytes(x.display), str_bytes(s[0].display));
        assert(file_le(s[0], x));
        let t = insert_sorted(x, d);
        let r = seq![s[0]] + t;
        assert(insert_sorted(x, s) == r);
        assert forall|i: int, j: int| 0 <= i < j < r.len() implies file_le(r[i], r[j]) by {
            if i == 0 {
                let e = t[j - 1];
                assert(t.contains(e));
                assert(t.to_multiset().count(e) > 0);
                assert(d.to_multiset().insert(x).count(e) > 0);
                if e == x {
                    assert(file_le(s[0], e));
                } else {
                    assert(d.to_multiset().count(e) > 0);
                    assert(d.contains(e));
                    let k = choose|k: int| 0 <= k < d.len() && d[k] == e;
                    assert(file_le(s[0], s[k + 1]));
                }
            } else {
                assert(r[i] == t[i - 1] && r[j] == t[j - 1]);
            }
        }
    }
}

/// Sorting gives a display-ordered permutation of the candidates, of the
/// same length.
pub proof fn lemma_sort_files_props(s: Seq<FileModel>)
    ensures
        sorted_by_display(sort_files(s)),
        sort_files(s).to_multiset() == s.to_multiset(),
        sort_files(s).len() == s.len(),
    decreases s.len(),
{
    broadcast use vstd::seq_lib::group_to_multiset_ensures;

    if s.len() > 0 {
        let d = s.drop_last();
        lemma_sort_files_props(d);
        lemma_insert_sorted_sorted(s.last(), sort_files(d));
        lemma_insert_sorted_multiset(s.last(), sort_files(d));
        assert(s =~= d.push(s.last()));
        assert(s.to_multiset() =~= d.to_multiset().insert(s.last()));
        assert(sort_files(s).len() == sort_files(s).to_multiset().len());
        assert(s.len() == s.to_multiset().len());
    }
}

/// A file is a candidate of a listed directory exactly when some entry of
/// the listing survives filtering and builds it.
pub proof fn lemma_candidate_members(
    scope: SteeringScope,
    dir: Seq<char>,
    entries: Seq<EntryModel>,
    f: FileModel,
)
    ensures
        candidate_seq(scope, dir, entries).contains(f) <==> exists|k: int|
            0 <= k < entries.len() && keep_entry(#[trigger] entries[k]) && f == candidate_model(
                scope,
                dir,
                entries[k],
            ),
    decreases entries.len(),
{
    if entries.len() > 0 {
        let d = entries.drop_last();
        let last = entries.last();
        lemma_candidate_members(scope, dir, d, f);
        let pre = candidate_seq(scope, dir, d);
        let whole = candidate_seq(scope, dir, entries);
        assert(forall|k: int| 0 <= k < d.len() ==> d[k] == entries[k]);
        if keep_entry(last) {
            assert(whole == pre + seq![candidate_model(scope, dir, last)]);
            if whole.contains(f) {
                let i = choose|i: int| 0 <= i < whole.len() && whole[i] == f;
                if i < pre.len() {
                    assert(pre[i] == f);
                    assert(pre.contains(f));
                } else {
                    assert(f == candidate_model(scope, dir, last));
                    assert(0 <= entries.len() - 1 < entries.len() && keep_entry(
                        entries[entries.len() - 1],
                    ) && f == candidate_model(scope, dir, entries[entries.len() - 1]));
                }
            }
            if exists|k: int|
                0 <= k < entries.len() && keep_entry(#[trigger] entries[k]) && f
                    == candidate_model(scope, dir, entries[k]) {
                let k = choose|k: int|
                    0 <= k < entries.len() && keep_entry(#[trigger] entries[k]) && f
                        == candidate_model(scope, dir, entries[k]);
                if k < d.len() {
                    assert(pre.contains(f));
                    let i = choose|i: int| 0 <= i < pre.len() && pre[i] == f;
                    assert(whole[i] == f);
                    assert(whole.contains(f));
                } else {
                    assert(whole[whole.len() - 1] == f);
                    assert(whole.contains(f));
                }
            }
        } else {
            assert(whole == pre + Seq::<FileModel>::empty());
            assert(whole =~= pre);
            if exists|k: int|
                0 <= k < entries.len() && keep_entry(#[trigger] entries[k]) && f
                    == candidate_model(scope, dir, entries[k]) {
                let k = choose|k: int|
                    0 <= k < entries.len() && keep_entry(#[trigger] entries[k]) && f
                        == candidate_model(scope, dir, entries[k]);
                assert(k < d.len());
            }
        }
    }
}

/// The candidates a listing contributes all carry that scope.
proof fn lemma_candidates_scope(scope: SteeringScope, dir: Seq<char>, l: ListingModel)
    ensures
        forall|i: int|
            0 <= i < crate::discovery::listing_candidates(scope, dir, l).len()
                ==> #[trigger] crate::discovery::listing_candidates(scope, dir, l)[i].scope
                == scope,
{
    broadcast use vstd::seq_lib::group_to_multiset_ensures;

    let cs = crate::discovery::listing_candidates(scope, dir, l);
    assert forall|i: int| 0 <= i < cs.len() implies #[trigger] cs[i].scope == scope by {
        assert(cs.contains(cs[i]));
        match l {
            ListingModel::Listed(es) => {
                lemma_candidate_members(scope, dir, es, cs[i]);
            },
            _ => {},
        }
    }
}

/// Discovery order: the sorted global candidates come first, the sorted
/// project candidates after them, each scope's block a display-ordered
/// permutation of what filtering kept, regardless of listing order.
pub proof fn law_discovery_order(
    codex_home: Seq<char>,
    repo_root: Seq<char>,
    gl: ListingModel,
    pl: ListingModel,
)
    ensures
        ({
            let d = spec_discovery(codex_home, repo_root, gl, pl);
            let gc = crate::discovery::listing_candidates(
                SteeringScope::Global,
                d.global_dir,
                gl,
            );
            let pc = crate::discovery::listing_candidates(
                SteeringScope::Project,
                d.project_dir,
                pl,
            );
            &&& d.files == sort_files(gc) + sort_files(pc)
            &&& sorted_by_display(sort_files(gc))
            &&& sorted_by_display(sort_files(pc))
            &&& sort_files(gc).to_multiset() == gc.to_multiset()
            &&& sort_files(pc).to_multiset() == pc.to_multiset()
            &&& forall|i: int|
                0 <= i < gc.len() ==> (#[trigger] d.files[i]).scope == SteeringScope::Global
            &&& forall|i: int|
                gc.len() <= i < d.files.len() ==> (#[trigger] d.files[i]).scope
                    == SteeringScope::Project
        }),
{
    broadcast use vstd::seq_lib::group_to_multiset_ensures;

    let d = spec_discovery(codex_home, repo_root, gl, pl);
    let gc = crate::discovery::listing_candidates(SteeringScope::Global, d.global_dir, gl);
    let pc = crate::discovery::listing_candidates(SteeringScope::Project, d.project_dir, pl);
    lemma_sort_files_props(gc);
    lemma_sort_files_props(pc);
    lemma_candidates_scope(SteeringScope::Global, d.global_dir, gl);
    lemma_candidates_scope(SteeringScope::Project, d.project_dir, pl);
    let g = sort_files(gc);
    let p = sort_files(pc);
    assert forall|i: int| 0 <= i < gc.len() implies (#[trigger] d.files[i]).scope
        == SteeringScope::Global by {
        assert(d.files[i] == g[i]);
        assert(g.contains(g[i]));
        assert(g.to_multiset().count(g[i]) > 0);
        assert(gc.contains(g[i]));
    }
    assert forall|i: int| gc.len() <= i < d.files.len() implies (#[trigger] d.files[i]).scope
        == SteeringScope::Project by {
        assert(d.files[i] == p[i - g.len()]);
        assert(p.contains(p[i - g.len()]));
        assert(p.to_multiset().count(p[i - g.len()]) > 0);
        assert(pc.contains(p[i - g.len()]));
    }
}

/// The entries of a listing; none unless it was actually listed.
pub open spec fn listing_entries(l: ListingModel) -> Seq<EntryModel> {
    match l {
        ListingModel::Listed(es) => es,
        _ => Seq::empty(),
    }
}

/// True when some entry of the listing survives filtering (a regular file
/// with the Markdown extension) and builds `f`.
pub open spec fn from_listing(
    scope: SteeringScope,
    dir: Seq<char>,
    l: ListingModel,
    f: FileModel,
) -> bool {
    exists|k: int|
        0 <= k < listing_entries(l).len() && keep_entry(#[trigger] listing_entries(l)[k]) && f
            == candidate_model(scope, dir, listing_entries(l)[k])
}

/// Only Markdown-named regular files ever become candidates: everything in
/// a discovery's file list was built from a listing entry that the probe
/// reported as a regular file (symbolic links and directories are not) and
/// whose name carries the Markdown extension; see `keep_entry`.
pub proof fn law_candidates_filtered(
    codex_home: Seq<char>,
    repo_root: Seq<char>,
    gl: ListingModel,
    pl: ListingModel,
    f: FileModel,
)
    requires
        spec_discovery(codex_home, repo_root, gl, pl).files.contains(f),
    ensures
        f.scope == SteeringScope::Global ==> from_listing(
            SteeringScope::Global,
            spec_discovery(codex_home, repo_root, gl, pl).global_dir,
            gl,
            f,
        ),
        f.scope == SteeringScope::Project ==> from_listing(
            SteeringScope::Project,
            spec_discovery(codex_home, repo_root, gl, pl).project_dir,
            pl,
            f,
        ),
{
    broadcast use vstd::seq_lib::group_to_multiset_ensures;

    let d = spec_discovery(codex_home, repo_root, gl, pl);
    let gc = crate::discovery::listing_candidates(SteeringScope::Global, d.global_dir, gl);
    let pc = crate::discovery::listing_candidates(SteeringScope::Project, d.project_dir, pl);
    lemma_sort_files_props(gc);
    lemma_sort_files_props(pc);
    let g = sort_files(gc);
    let p = sort_files(pc);
    let i = choose|i: int| 0 <= i < d.files.len() && d.files[i] == f;
    if i < g.len() {
        assert(g[i] == f);
        assert(g.contains(f));
        assert(g.to_multiset().count(f) > 0);
        assert(gc.contains(f));
        match gl {
            ListingModel::Listed(es) => {
                lemma_candidate_members(SteeringScope::Global, d.global_dir, es, f);
                assert(from_listing(SteeringScope::Global, d.global_dir, gl, f));
                let k = choose|k: int|
                    0 <= k < es.len() && keep_entry(#[trigger] es[k]) && f == candidate_model(
                        SteeringScope::Global,
                        d.global_dir,
                        es[k],
                    );
                assert(f.scope == SteeringScope::Global);
            },
            _ => {
                assert(false);
            },
        }
    } else {
        assert(p[i - g.len()] == f);
        assert(p.contains(f));
        assert(p.to_multiset().count(f) > 0);
        assert(pc.contains(f));
        match pl {
            ListingModel::Listed(es) => {
                lemma_candidate_members(SteeringScope::Project, d.project_dir, es, f);
                assert(from_listing(SteeringScope::Project, d.project_dir, pl, f));
                let k = choose|k: int|
                    0 <= k < es.len() && keep_entry(#[trigger] es[k]) && f == candidate_model(
                        SteeringScope::Project,
                        d.project_dir,
                        es[k],
                    );
                assert(f.scope == SteeringScope::Project);
            },
            _ => {
                assert(false);
            },
        }
    }
}


} // verus!

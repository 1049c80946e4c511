//! The budget-constrained loader: walks the discovered candidates in order,
//! spends a shared byte budget, decodes file contents UTF-8-safely (with
//! salvage of a budget-cut trailing scalar), classifies every file's
//! outcome, and assembles the combined text with per-file headers and a
//! trailing note for budget omissions.

use crate::encoding::Utf8Check;
use crate::encoding::check_utf8;
use crate::encoding::incomplete_tail;
use crate::encoding::utf8_prefix_len;
use crate::encoding::whitespace_only;
use crate::encoding::ws_only;
use crate::text::dec_chars;
use crate::text::join_blocks;
use crate::text::push_decimal;
use crate::types::DiscoveryModel;
use crate::types::FileModel;
use crate::types::FileRead;
use crate::types::LoadModel;
use crate::types::OmissionReason;
use crate::types::OutcomeModel;
use crate::types::ReadModel;
use crate::types::ReasonModel;
use crate::types::StatusModel;
use crate::types::SteeringDiscovery;
use crate::types::SteeringFileOutcome;
use crate::types::SteeringFileStatus;
use crate::types::SteeringLoadResult;
use crate::types::SteeringScope;
use crate::types::outcomes_view;
use crate::types::reads_view;
use crate::types::spec_scope_str;
use vstd::prelude::*;
use vstd::string::StrSliceExecFns;
use vstd::string::StringExecFns;
use vstd::utf8::decode_utf8;
use vstd::utf8::valid_utf8;

verus! {

/// The one-line header that precedes a file's text in the combined output.
pub open spec fn header_chars(scope: SteeringScope, display: Seq<char>, truncated: bool) -> Seq<
    char,
> {
    "[Steering: scope="@ + spec_scope_str(scope) + " file="@ + display + (if truncated {
        " truncated=true"@
    } else {
        Seq::empty()
    }) + "]"@
}

/// The bytes actually read for a file: its content, capped at the remaining
/// budget.
pub open spec fn data_prefix(content: Seq<u8>, rem: int) -> Seq<u8> {
    if content.len() <= rem {
        content
    } else {
        content.take(rem)
    }
}

/// UTF-8-safe decoding of the read bytes. Fully valid bytes are kept as
/// they are. Bytes whose only flaw is an incomplete trailing scalar
/// encoding are salvaged down to their valid prefix, but only when the read
/// was cut by the budget; any other invalidity rejects the file.
pub open spec fn salvage(data: Seq<u8>, truncated: bool) -> Option<Seq<u8>> {
    if valid_utf8(data) {
        Some(data)
    } else if truncated && incomplete_tail(data.skip(utf8_prefix_len(data))) {
        Some(data.take(utf8_prefix_len(data)))
    } else {
        None
    }
}

/// What happens to one candidate, given its read outcome and the budget
/// remaining when it is reached.
pub open spec fn file_status(rd: ReadModel, rem: int) -> StatusModel {
    if rem <= 0 {
        StatusModel::Omitted { reason: ReasonModel::OverBudget }
    } else {
        match rd {
            ReadModel::OpenFailed(m) => StatusModel::Omitted { reason: ReasonModel::Io(m) },
            ReadModel::Content(c) => {
                let truncated = c.len() > rem;
                let data = data_prefix(c, rem);
                match salvage(data, truncated) {
                    Option::None => StatusModel::Omitted { reason: ReasonModel::NonUtf8 },
                    Option::Some(t) => if ws_only(t) {
                        StatusModel::Omitted { reason: ReasonModel::Empty }
                    } else {
                        StatusModel::Included { bytes: t.len() as int, truncated }
                    },
                }
            },
        }
    }
}

/// The decoded text a candidate contributes (empty unless it is included).
pub open spec fn included_text(rd: ReadModel, rem: int) -> Seq<u8> {
    match rd {
        ReadModel::Content(c) => {
            match salvage(data_prefix(c, rem), c.len() > rem) {
                Option::Some(t) => t,
                Option::None => Seq::empty(),
            }
        },
        ReadModel::OpenFailed(_) => Seq::empty(),
    }
}

/// How much of the budget a status consumes.
pub open spec fn status_cost(st: StatusModel) -> int {
    match st {
        StatusModel::Included { bytes, .. } => bytes,
        _ => 0,
    }
}

/// True for an included file.
pub open spec fn is_included(st: StatusModel) -> bool {
    match st {
        StatusModel::Included { .. } => true,
        _ => false,
    }
}

/// True for a file omitted because the budget ran out.
pub open spec fn is_over_budget(st: StatusModel) -> bool {
    st == (StatusModel::Omitted { reason: ReasonModel::OverBudget })
}

/// The budget remaining when the file at position `i` is reached: earlier
/// included files have consumed their decoded byte length, never driving
/// the count below zero.
pub open spec fn rem_after(reads: Seq<ReadModel>, budget: int, i: int) -> int
    decreases i,
{
    if i <= 0 {
        budget
    } else {
        let r = rem_after(reads, budget, i - 1);
        let c = status_cost(file_status(reads[i - 1], r));
        if r - c >= 0 {
            r - c
        } else {
            0
        }
    }
}

/// The report for the file at position `j`.
pub open spec fn outcome_at(
    files: Seq<FileModel>,
    reads: Seq<ReadModel>,
    budget: int,
    j: int,
) -> OutcomeModel {
    let f = files[j];
    OutcomeModel {
        scope: f.scope,
        path: f.path,
        display: f.display,
        status: file_status(reads[j], rem_after(reads, budget, j)),
    }
}

/// All file reports, in candidate order.
pub open spec fn spec_outcomes(files: Seq<FileModel>, reads: Seq<ReadModel>, budget: int) -> Seq<
    OutcomeModel,
> {
    Seq::new(files.len(), |j: int| outcome_at(files, reads, budget, j))
}

/// The text block an included file contributes: its header, a newline, and
/// its decoded (possibly salvaged) text.
pub open spec fn block_at(
    files: Seq<FileModel>,
    reads: Seq<ReadModel>,
    budget: int,
    j: int,
) -> Seq<char> {
    let f = files[j];
    let rem = rem_after(reads, budget, j);
    let truncated = match reads[j] {
        ReadModel::Content(c) => c.len() > rem,
        ReadModel::OpenFailed(_) => false,
    };
    header_chars(f.scope, f.display, truncated) + "\n"@ + decode_utf8(included_text(reads[j], rem))
}

/// The blocks of the first `i` candidates that were included.
pub open spec fn blocks_upto(
    files: Seq<FileModel>,
    reads: Seq<ReadModel>,
    budget: int,
    i: int,
) -> Seq<Seq<char>>
    decreases i,
{
    if i <= 0 {
        Seq::empty()
    } else {
        let pre = blocks_upto(files, reads, budget, i - 1);
        if is_included(file_status(reads[i - 1], rem_after(reads, budget, i - 1))) {
            pre.push(block_at(files, reads, budget, i - 1))
        } else {
            pre
        }
    }
}

/// The scope and display path of each of the first `i` candidates omitted
/// for budget, in order.
pub open spec fn over_budget_upto(
    files: Seq<FileModel>,
    reads: Seq<ReadModel>,
    budget: int,
    i: int,
) -> Seq<(SteeringScope, Seq<char>)>
    decreases i,
{
    if i <= 0 {
        Seq::empty()
    } else {
        let pre = over_budget_upto(files, reads, budget, i - 1);
        if is_over_budget(file_status(reads[i - 1], rem_after(reads, budget, i - 1))) {
            pre.push((files[i - 1].scope, files[i - 1].display))
        } else {
            pre
        }
    }
}

/// One line of the trailing note, naming a budget-omitted file.
pub open spec fn note_line(p: (SteeringScope, Seq<char>)) -> Seq<char> {
    "\n- scope="@ + spec_scope_str(p.0) + " file="@ + p.1 + " reason=over-budget"@
}

/// The per-file lines of the trailing note.
pub open spec fn note_lines(pairs: Seq<(SteeringScope, Seq<char>)>) -> Seq<char>
    decreases pairs.len(),
{
    if pairs.len() == 0 {
        Seq::empty()
    } else {
        note_lines(pairs.drop_last()) + note_line(pairs.last())
    }
}

/// The trailing note block listing files omitted for budget.
pub open spec fn note_chars(max_bytes: int, pairs: Seq<(SteeringScope, Seq<char>)>) -> Seq<char> {
    "[Steering: note]\nOmitted "@ + dec_chars(pairs.len() as int)
        + " file(s) due to steering.doc_max_bytes="@ + dec_chars(max_bytes) + "."@ + note_lines(
        pairs,
    )
}

/// The combined text: included blocks joined by blank lines, followed by
/// the trailing note when any file was omitted for budget; absent when
/// there is neither.
pub open spec fn spec_combined(files: Seq<FileModel>, reads: Seq<ReadModel>, budget: int) -> Option<
    Seq<char>,
> {
    let blocks = blocks_upto(files, reads, budget, files.len() as int);
    let pairs = over_budget_upto(files, reads, budget, files.len() as int);
    if pairs.len() == 0 {
        if blocks.len() == 0 {
            None
        } else {
            Some(join_blocks(blocks))
        }
    } else if blocks.len() == 0 {
        Some(note_chars(budget, pairs))
    } else {
        Some(join_blocks(blocks) + "\n\n"@ + note_chars(budget, pairs))
    }
}

/// The report when loading is switched off: every candidate is omitted as
/// disabled and no text is produced.
pub open spec fn disabled_outcomes(files: Seq<FileModel>) -> Seq<OutcomeModel> {
    Seq::new(
        files.len(),
        |j: int|
            OutcomeModel {
                scope: files[j].scope,
                path: files[j].path,
                display: files[j].display,
                status: StatusModel::Omitted { reason: ReasonModel::Disabled },
            },
    )
}

/// The complete loading report as a function of the enable flag, the byte
/// budget, the discovery, and each candidate's read outcome.
pub open spec fn spec_load(
    enabled: bool,
    max_bytes: int,
    disc: DiscoveryModel,
    reads: Seq<ReadModel>,
) -> LoadModel {
    if !enabled || max_bytes == 0 {
        LoadModel {
            enabled: false,
            max_bytes,
            discovery: disc,
            files: disabled_outcomes(disc.files),
            combined: None,
        }
    } else {
        LoadModel {
            enabled: true,
            max_bytes,
            discovery: disc,
            files: spec_outcomes(disc.files, reads, max_bytes),
            combined: spec_combined(disc.files, reads, max_bytes),
        }
    }
}

/// The model of an exec pair list.
pub open spec fn pairs_view(s: Seq<(SteeringScope, String)>) -> Seq<(SteeringScope, Seq<char>)> {
    s.map_values(|p: (SteeringScope, String)| (p.0, p.1@))
}

/// Relies on `String::from_utf8`: a vector of valid UTF-8 bytes decodes to
/// the string made of exactly the scalars those bytes encode.
#[verifier::external_body]
fn bytes_to_string(v: Vec<u8>) -> (r: String)
    requires
        valid_utf8(v@),
    ensures
        r@ == decode_utf8(v@),
{
    match String::from_utf8(v) {
        Ok(s) => s,
        Err(_) => String::new(),
    }
}

/// Renders the trailing note block naming the files omitted for budget.
pub fn format_omission_note(max_bytes: usize, omitted: &Vec<(SteeringScope, String)>) -> (r:
    String)
    ensures
        r@ == note_chars(max_bytes as int, pairs_view(omitted@)),
{
    let ghost pairs = pairs_view(omitted@);
    let mut out = String::new();
    out.append("[Steering: note]\nOmitted ");
    push_decimal(&mut out, omitted.len());
    out.append(" file(s) due to steering.doc_max_bytes=");
    push_decimal(&mut out, max_bytes);
    out.append(".");
    let ghost head = out@;
    let n = omitted.len();
    let mut i: usize = 0;
    proof {
        assert(out@ =~= head + note_lines(pairs.take(0)));
    }
    while i < n
        invariant
            i <= n,
            n == pairs.len(),
            pairs == pairs_view(omitted@),
            out@ == head + note_lines(pairs.take(i as int)),
            head == "[Steering: note]\nOmitted "@ + dec_chars(n as int)
                + " file(s) due to steering.doc_max_bytes="@ + dec_chars(max_bytes as int) + "."@,
        decreases n - i,
    {
        out.append("\n- scope=");
        out.append(omitted[i].0.as_str());
        out.append(" file=");
        out.append(omitted[i].1.as_str());
        out.append(" reason=over-budget");
        proof {
            let t = pairs.take(i + 1);
            assert(t.drop_last() =~= pairs.take(i as int));
            assert(t.last() == pairs[i as int]);
            assert(out@ =~= head + note_lines(t));
        }
        i += 1;
    }
    proof {
        assert(pairs.take(n as int) =~= pairs);
    }
    out
}

/// Loads the discovered candidates against the enable flag and byte
/// budget.
///
/// The caller opens and reads each candidate in discovery order and hands
/// the outcomes in; this function spends the budget, decodes and salvages
/// text, reports every candidate exactly once, and assembles the combined
/// text.
pub fn load_steering_docs(
    enabled: bool,
    max_bytes: usize,
    discovery: SteeringDiscovery,
    reads: &Vec<FileRead>,
) -> (r: SteeringLoadResult)
    requires
        reads@.len() == discovery@.files.len(),
    ensures
        r@ == spec_load(enabled, max_bytes as int, discovery@, reads_view(reads@)),
{
    let ghost fm = discovery@.files;
    let ghost rm = reads_view(reads@);
    let ghost budget = max_bytes as int;
    let n = discovery.files.len();
    proof {
        assert(fm.len() == n);
        assert(rm.len() == n);
    }
    if !enabled || max_bytes == 0 {
        let mut outcomes: Vec<SteeringFileOutcome> = Vec::new();
        let mut i: usize = 0;
        proof {
            assert(outcomes_view(outcomes@) =~= disabled_outcomes(fm).take(0));
        }
        while i < n
            invariant
                i <= n,
                n == fm.len(),
                fm == discovery@.files,
                n == discovery.files@.len(),
                outcomes_view(outcomes@) == disabled_outcomes(fm).take(i as int),
            decreases n - i,
        {
            let f = &discovery.files[i];
            let ghost prev = outcomes@;
            outcomes.push(
                SteeringFileOutcome {
                    scope: f.scope,
                    path: f.path.clone(),
                    display_path: f.display_path.clone(),
                    status: SteeringFileStatus::Omitted { reason: OmissionReason::Disabled },
                },
            );
            proof {
                assert(f@ == fm[i as int]);
                assert(disabled_outcomes(fm).len() == fm.len());
                assert(outcomes_view(prev).len() == prev.len());
                assert(prev.len() == i as int);
                assert(outcomes_view(outcomes@).len() == outcomes@.len());
                assert(outcomes_view(outcomes@) =~~= disabled_outcomes(fm).take(i + 1));
            }
            i += 1;
        }
        let r = SteeringLoadResult {
            enabled: false,
            max_bytes,
            discovery,
            files: outcomes,
            combined: None,
        };
        proof {
            assert(disabled_outcomes(fm).take(n as int) =~= disabled_outcomes(fm));
            assert(r@ =~= spec_load(enabled, max_bytes as int, discovery@, rm));
        }
        return r;
    }
    let mut remaining: usize = max_bytes;
    let mut outcomes: Vec<SteeringFileOutcome> = Vec::new();
    let mut over_pairs: Vec<(SteeringScope, String)> = Vec::new();
    let mut body = String::new();
    let mut has_block = false;
    let mut i: usize = 0;
    proof {
        assert(outcomes_view(outcomes@) =~= spec_outcomes(fm, rm, budget).take(0));
        assert(pairs_view(over_pairs@) =~= over_budget_upto(fm, rm, budget, 0));
        assert(body@ =~= join_blocks(blocks_upto(fm, rm, budget, 0)));
    }
    while i < n
        invariant
            i <= n,
            n == fm.len(),
            n == rm.len(),
            fm == discovery@.files,
            rm == reads_view(reads@),
            n == discovery.files@.len(),
            n == reads@.len(),
            budget == max_bytes as int,
            remaining as int == rem_after(rm, budget, i as int),
            outcomes_view(outcomes@) == spec_outcomes(fm, rm, budget).take(i as int),
            pairs_view(over_pairs@) == over_budget_upto(fm, rm, budget, i as int),
            body@ == join_blocks(blocks_upto(fm, rm, budget, i as int)),
            has_block == (blocks_upto(fm, rm, budget, i as int).len() > 0),
        decreases n - i,
    {
        let f = &discovery.files[i];
        proof {
            assert(f@ == fm[i as int]);
            assert(reads@[i as int]@ == rm[i as int]);
        }
        let ghost rem0 = rem_after(rm, budget, i as int);
        let status: SteeringFileStatus;
        if remaining == 0 {
            let ghost prev_pairs = over_pairs@;
            over_pairs.push((f.scope, f.display_path.clone()));
            status = SteeringFileStatus::Omitted { reason: OmissionReason::OverBudget };
            proof {
                assert(status@ == file_status(rm[i as int], rem0));
                assert(pairs_view(prev_pairs).len() == prev_pairs.len());
                assert(pairs_view(over_pairs@).len() == over_pairs@.len());
            }
        } else {
            match &reads[i] {
                FileRead::OpenFailed(m) => {
                    status = SteeringFileStatus::Omitted {
                        reason: OmissionReason::Io(m.clone()),
                    };
                    proof {
                        assert(status@ == file_status(rm[i as int], rem0));
                    }
                },
                FileRead::Content(c) => {
                    let ghost cm = c@;
                    let clen = c.len();
                    let truncated = clen > remaining;
                    let take_n = if truncated {
                        remaining
                    } else {
                        clen
                    };
                    let mut data: Vec<u8> = Vec::new();
                    let mut j: usize = 0;
                    proof {
                        assert(data@ =~= cm.take(0));
                    }
                    while j < take_n
                        invariant
                            j <= take_n,
                            take_n <= c@.len(),
                            c@ == cm,
                            data@ == cm.take(j as int),
                        decreases take_n - j,
                    {
                        let b = c[j];
                        data.push(b);
                        proof {
                            assert(data@ =~= cm.take(j + 1));
                        }
                        j += 1;
                    }
                    proof {
                        assert(data@ == data_prefix(cm, rem0));
                        assert(truncated == (cm.len() > rem0));
                    }
                    let text_opt: Option<Vec<u8>> = match check_utf8(&data) {
                        Utf8Check::Valid => Some(data),
                        Utf8Check::Invalid { valid_up_to, incomplete } => {
                            if truncated && incomplete {
                                let mut salvaged = data;
                                salvaged.truncate(valid_up_to);
                                proof {
                                    assert(salvaged@ =~= data_prefix(cm, rem0).take(
                                        utf8_prefix_len(data_prefix(cm, rem0)),
                                    ));
                                }
                                Some(salvaged)
                            } else {
                                None
                            }
                        },
                    };
                    match text_opt {
                        None => {
                            status = SteeringFileStatus::Omitted {
                                reason: OmissionReason::NonUtf8,
                            };
                            proof {
                                assert(salvage(data_prefix(cm, rem0), cm.len() > rem0) is None);
                                assert(status@ == file_status(rm[i as int], rem0));
                            }
                        },
                        Some(text) => {
                            proof {
                                assert(Some(text@) == salvage(
                                    data_prefix(cm, rem0),
                                    cm.len() > rem0,
                                ));
                                assert(valid_utf8(text@));
                                assert(text@ == included_text(rm[i as int], rem0));
                            }
                            if whitespace_only(&text) {
                                status = SteeringFileStatus::Omitted {
                                    reason: OmissionReason::Empty,
                                };
                                proof {
                                    assert(status@ == file_status(rm[i as int], rem0));
                                }
                            } else {
                                let tlen = text.len();
                                assert(tlen <= remaining);
                                let mut block = String::new();
                                block.append("[Steering: scope=");
                                block.append(f.scope.as_str());
                                block.append(" file=");
                                block.append(f.display_path.as_str());
                                if truncated {
                                    block.append(" truncated=true");
                                }
                                block.append("]");
                                block.append("\n");
                                let text_str = bytes_to_string(text);
                                block.append(text_str.as_str());
                                proof {
                                    assert(block@ =~= block_at(fm, rm, budget, i as int));
                                }
                                let ghost blocks0 = blocks_upto(fm, rm, budget, i as int);
                                if has_block {
                                    body.append("\n\n");
                                } else {
                                    has_block = true;
                                }
                                body.append(block.as_str());
                                proof {
                                    let nb = blocks0.push(block_at(fm, rm, budget, i as int));
                                    assert(nb.drop_last() =~= blocks0);
                                    assert(body@ =~= join_blocks(nb));
                                }
                                status = SteeringFileStatus::Included { bytes: tlen, truncated };
                                remaining = remaining - tlen;
                                proof {
                                    assert(status@ == file_status(rm[i as int], rem0));
                                }
                            }
                        },
                    }
                },
            }
        }
        let ghost prev = outcomes@;
        outcomes.push(
            SteeringFileOutcome {
                scope: f.scope,
                path: f.path.clone(),
                display_path: f.display_path.clone(),
                status,
            },
        );
        proof {
            let st = file_status(rm[i as int], rem0);
            assert(status@ == st);
            assert(spec_outcomes(fm, rm, budget).len() == fm.len());
            assert(outcomes_view(prev).len() == prev.len());
            assert(prev.len() == i as int);
            assert(outcomes_view(outcomes@).len() == outcomes@.len());
            assert(outcomes_view(outcomes@) =~~= spec_outcomes(fm, rm, budget).take(i + 1));
            assert(rem_after(rm, budget, i + 1) == remaining as int);
            if !is_over_budget(st) {
                assert(over_budget_upto(fm, rm, budget, i + 1) == over_budget_upto(
                    fm,
                    rm,
                    budget,
                    i as int,
                ));
            } else {
                assert(pairs_view(over_pairs@) =~= over_budget_upto(fm, rm, budget, i + 1));
            }
            if !is_included(st) {
                assert(blocks_upto(fm, rm, budget, i + 1) == blocks_upto(fm, rm, budget, i as int));
            }
        }
        i += 1;
    }
    proof {
        assert(spec_outcomes(fm, rm, budget).take(n as int) =~= spec_outcomes(fm, rm, budget));
    }
    let combined: Option<String>;
    if over_pairs.len() == 0 {
        if has_block {
            combined = Some(body);
        } else {
            combined = None;
        }
    } else {
        let note = format_omission_note(max_bytes, &over_pairs);
        if has_block {
            let mut full = body;
            full.append("\n\n");
            full.append(note.as_str());
            combined = Some(full);
        } else {
            combined = Some(note);
        }
    }
    let r = SteeringLoadResult { enabled: true, max_bytes, discovery, files: outcomes, combined };
    proof {
        assert(r@ =~= spec_load(enabled, max_bytes as int, discovery@, rm));
    }
    r
}

} // verus!

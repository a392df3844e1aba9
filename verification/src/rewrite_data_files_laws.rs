//! What holds of every run of the rewrite-data-files action.

use vstd::prelude::*;

use crate::error::Error;
use crate::file_rewriter::{FileRewriter, RewriteFileGroup};
use crate::model::{
    DataContentType, DataFile, ManifestContentType, ManifestEntry, ManifestFile, ManifestStatus,
    Table,
};
use crate::rewrite_data_files;
use crate::rewrite_data_files::{
    GroupPlan, RewriteDataFiles, RewriteDataFilesResult, RewriteProgress, RewriteReads, RewriteRun,
    RewriteStep,
};
use crate::rewrite_files;
use crate::seqs;
use crate::storage;
use crate::storage::Storage;

verus! {

/// The files of groups, one group after the other.
pub open spec fn flat(packs: Seq<Seq<DataFile>>) -> Seq<DataFile>
    decreases packs.len(),
{
    if packs.len() == 0 {
        Seq::empty()
    } else {
        flat(packs.drop_last()) + packs.last()
    }
}

/// Packing neither loses, nor repeats, nor reorders files.
pub proof fn law_packing_keeps_files(files: Seq<DataFile>, max: nat)
    ensures
        flat(rewrite_data_files::packed(files, max)) == files,
    decreases files.len(),
{
    if files.len() > 0 {
        let before = rewrite_data_files::packed(files.drop_last(), max);
        let after = rewrite_data_files::packed(files, max);
        let file = files.last();
        law_packing_keeps_files(files.drop_last(), max);
        if before.len() > 0 && rewrite_data_files::total_size(before.last())
            + file.file_size_in_bytes <= max {
            assert(after.drop_last() =~= before.drop_last());
            assert(flat(after) =~= flat(before).push(file));
        } else {
            assert(after.drop_last() =~= before);
            assert(flat(after) =~= flat(before).push(file));
        }
        assert(flat(before).push(file) =~= files);
    }
}

/// No group is empty, a group of several files is within the limit, and the first file
/// of a group would not have fitted into the group before it.
pub proof fn law_packing_is_greedy(files: Seq<DataFile>, max: nat, i: int)
    requires
        0 <= i < rewrite_data_files::packed(files, max).len(),
    ensures
        ({
            let packs = rewrite_data_files::packed(files, max);
            &&& packs[i].len() > 0
            &&& packs[i].len() > 1 ==> rewrite_data_files::total_size(packs[i]) <= max
            &&& i > 0 ==> rewrite_data_files::total_size(packs[i - 1])
                + packs[i][0].file_size_in_bytes > max
        }),
    decreases files.len(),
{
    let before = rewrite_data_files::packed(files.drop_last(), max);
    let after = rewrite_data_files::packed(files, max);
    let file = files.last();
    if i < before.len() {
        law_packing_is_greedy(files.drop_last(), max, i);
    }
    if before.len() > 0 {
        law_packing_is_greedy(files.drop_last(), max, before.len() - 1);
    }
    if before.len() > 0 && rewrite_data_files::total_size(before.last()) + file.file_size_in_bytes
        <= max {
        if i == before.len() - 1 {
            assert(after[i].drop_last() =~= before[i]);
        }
    }
}

/// Whether groups keep to the limit: none is empty, and one of several files is within it.
pub open spec fn keeps_to_limit(packs: Seq<Seq<DataFile>>, max: nat) -> bool {
    forall|i: int|
        0 <= i < packs.len() ==> {
            &&& (#[trigger] packs[i]).len() > 0
            &&& packs[i].len() > 1 ==> rewrite_data_files::total_size(packs[i]) <= max
        }
}

/// The files of the last group come last.
proof fn lemma_last_pack(packs: Seq<Seq<DataFile>>)
    requires
        packs.len() > 0,
    ensures
        packs.last().len() <= flat(packs).len(),
        packs.last() == flat(packs).skip(flat(packs).len() - packs.last().len()),
{
    assert(packs.last() =~= flat(packs).skip(flat(packs).len() - packs.last().len()));
}

proof fn lemma_shorter_end_is_smaller(files: Seq<DataFile>, m: int, n: int)
    requires
        0 <= m <= n <= files.len(),
    ensures
        rewrite_data_files::total_size(files.skip(n)) <= rewrite_data_files::total_size(
            files.skip(m),
        ),
{
    assert(files.skip(m) =~= files.subrange(m, n) + files.skip(n));
    rewrite_data_files::lemma_total_size_add(files.subrange(m, n), files.skip(n));
}

/// Nothing that keeps to the limit is ahead of the packing.
proof fn lemma_packing_stays_ahead(files: Seq<DataFile>, max: nat, packs: Seq<Seq<DataFile>>)
    requires
        files.len() > 0,
        flat(packs) == files,
        keeps_to_limit(packs, max),
    ensures
        packs.len() > 0,
        ({
            let greedy = rewrite_data_files::packed(files, max);
            &&& greedy.len() > 0
            &&& greedy.len() <= packs.len()
            &&& greedy.len() == packs.len() ==> greedy.last().len() <= packs.last().len()
        }),
    decreases files.len(),
{
    let front = files.drop_last();
    let file = files.last();
    let last = packs.last();
    let before = rewrite_data_files::packed(front, max);
    assert(packs.len() > 0);
    assert(last == packs[packs.len() - 1]);
    assert(last.len() > 0);
    lemma_last_pack(packs);
    assert(last.last() == file);
    let shorter = if last.len() == 1 {
        packs.drop_last()
    } else {
        packs.drop_last().push(last.drop_last())
    };
    if last.len() == 1 {
        assert(flat(shorter) =~= front);
    } else {
        assert(shorter.drop_last() =~= packs.drop_last());
        assert(flat(shorter) =~= front);
        assert(rewrite_data_files::total_size(last) == rewrite_data_files::total_size(
            last.drop_last(),
        ) + file.file_size_in_bytes);
    }
    assert(keeps_to_limit(shorter, max)) by {
        assert forall|i: int| 0 <= i < shorter.len() implies {
            &&& (#[trigger] shorter[i]).len() > 0
            &&& shorter[i].len() > 1 ==> rewrite_data_files::total_size(shorter[i]) <= max
        } by {
            if i < packs.len() - 1 {
                assert(shorter[i] == packs[i]);
            }
        }
    }
    if front.len() > 0 {
        lemma_packing_stays_ahead(front, max, shorter);
        law_packing_keeps_files(front, max);
        lemma_last_pack(before);
        lemma_last_pack(shorter);
        if last.len() > 1 && before.len() == shorter.len() {
            lemma_shorter_end_is_smaller(
                front,
                front.len() - shorter.last().len(),
                front.len() - before.last().len(),
            );
        }
    }
}

/// Packing makes as few groups as can be: no other way to put the files into groups, in
/// their order and within the limit, has fewer.
pub proof fn law_packing_has_fewest_groups(
    files: Seq<DataFile>,
    max: nat,
    packs: Seq<Seq<DataFile>>,
)
    requires
        flat(packs) == files,
        keeps_to_limit(packs, max),
    ensures
        rewrite_data_files::packed(files, max).len() <= packs.len(),
{
    if files.len() > 0 {
        lemma_packing_stays_ahead(files, max, packs);
    }
}

/// In a plan, every file is undersized or oversized, has the partition of its group,
/// and is one of the files planned for; and its partition has enough candidates.
pub proof fn law_plan_selects_candidates<R: FileRewriter>(
    action: RewriteDataFiles<R>,
    files: Seq<DataFile>,
    g: int,
    i: int,
)
    requires
        0 <= g < action.plan(files).len(),
        0 <= i < action.plan(files)[g].files.len(),
    ensures
        ({
            let group = action.plan(files)[g];
            let file = group.files[i];
            &&& action.is_candidate(file)
            &&& file.partition@ == group.partition
            &&& files.contains(file)
            &&& action.candidates(files, group.partition).len() >= action.min_input_files
        }),
{
    lemma_plan_of(action, files, seqs::distinct(rewrite_data_files::partition_values(files)), g, i);
}

proof fn lemma_plan_of<R: FileRewriter>(
    action: RewriteDataFiles<R>,
    files: Seq<DataFile>,
    partitions: Seq<Seq<char>>,
    g: int,
    i: int,
)
    requires
        0 <= g < action.plan_of(files, partitions).len(),
        0 <= i < action.plan_of(files, partitions)[g].files.len(),
    ensures
        ({
            let group = action.plan_of(files, partitions)[g];
            let file = group.files[i];
            &&& action.is_candidate(file)
            &&& file.partition@ == group.partition
            &&& files.contains(file)
            &&& partitions.contains(group.partition)
            &&& action.candidates(files, group.partition).len() >= action.min_input_files
        }),
    decreases partitions.len(),
{
    let before = action.plan_of(files, partitions.drop_last());
    let last = partitions.last();
    assert(partitions =~= partitions.drop_last().push(last));
    if g < before.len() {
        lemma_plan_of(action, files, partitions.drop_last(), g, i);
        seqs::lemma_push_contains(partitions.drop_last(), last, before[g].partition);
    } else {
        let candidates = action.candidates(files, last);
        let max = action.max_file_group_size_bytes as nat;
        let packs = rewrite_data_files::packed(candidates, max);
        let k = g - before.len();
        seqs::lemma_push_contains(partitions.drop_last(), last, last);
        law_packing_keeps_files(candidates, max);
        lemma_flat_contains(packs, k, i);
        lemma_candidates(action, files, last, packs[k][i]);
    }
}

proof fn lemma_candidates<R: FileRewriter>(
    action: RewriteDataFiles<R>,
    files: Seq<DataFile>,
    partition: Seq<char>,
    file: DataFile,
)
    ensures
        action.candidates(files, partition).contains(file) <==> files.contains(file)
            && file.partition@ == partition && action.is_candidate(file),
{
    let inside = rewrite_data_files::in_partition(partition);
    seqs::lemma_filter_contains(files.filter(inside), action.candidate(), file);
    seqs::lemma_filter_contains(files, inside, file);
}

proof fn lemma_flat_contains(packs: Seq<Seq<DataFile>>, k: int, i: int)
    requires
        0 <= k < packs.len(),
        0 <= i < packs[k].len(),
    ensures
        flat(packs).contains(packs[k][i]),
    decreases packs.len(),
{
    let x = packs[k][i];
    seqs::lemma_add_contains(flat(packs.drop_last()), packs.last(), x);
    if k == packs.len() - 1 {
        assert(packs.last().contains(x));
    } else {
        lemma_flat_contains(packs.drop_last(), k, i);
    }
}

proof fn lemma_flat_where(packs: Seq<Seq<DataFile>>, x: DataFile) -> (k: int)
    requires
        flat(packs).contains(x),
    ensures
        0 <= k < packs.len(),
        packs[k].contains(x),
    decreases packs.len(),
{
    seqs::lemma_add_contains(flat(packs.drop_last()), packs.last(), x);
    if packs.last().contains(x) {
        packs.len() - 1
    } else {
        lemma_flat_where(packs.drop_last(), x)
    }
}

/// Every candidate in a partition that has enough of them is in some group.
pub proof fn law_plan_is_complete<R: FileRewriter>(
    action: RewriteDataFiles<R>,
    files: Seq<DataFile>,
    file: DataFile,
) -> (g: int)
    requires
        files.contains(file),
        action.is_candidate(file),
        action.candidates(files, file.partition@).len() >= action.min_input_files,
    ensures
        0 <= g < action.plan(files).len(),
        action.plan(files)[g].files.contains(file),
{
    let values = rewrite_data_files::partition_values(files);
    let i = choose|i: int| 0 <= i < files.len() && files[i] == file;
    assert(values[i] == file.partition@);
    assert(values.contains(file.partition@));
    seqs::lemma_extend_distinct(Seq::empty(), values);
    lemma_plan_of_is_complete(action, files, seqs::distinct(values), file)
}

proof fn lemma_plan_of_is_complete<R: FileRewriter>(
    action: RewriteDataFiles<R>,
    files: Seq<DataFile>,
    partitions: Seq<Seq<char>>,
    file: DataFile,
) -> (g: int)
    requires
        partitions.contains(file.partition@),
        files.contains(file),
        action.is_candidate(file),
        action.candidates(files, file.partition@).len() >= action.min_input_files,
    ensures
        0 <= g < action.plan_of(files, partitions).len(),
        action.plan_of(files, partitions)[g].files.contains(file),
    decreases partitions.len(),
{
    let last = partitions.last();
    let before = action.plan_of(files, partitions.drop_last());
    assert(partitions =~= partitions.drop_last().push(last));
    seqs::lemma_push_contains(partitions.drop_last(), last, file.partition@);
    if last == file.partition@ {
        let candidates = action.candidates(files, last);
        let max = action.max_file_group_size_bytes as nat;
        let packs = rewrite_data_files::packed(candidates, max);
        lemma_candidates(action, files, last, file);
        law_packing_keeps_files(candidates, max);
        let k = lemma_flat_where(packs, file);
        before.len() + k
    } else {
        lemma_plan_of_is_complete(action, files, partitions.drop_last(), file)
    }
}

/// The files of a plan, one group after the other.
pub open spec fn plan_files(plan: Seq<GroupPlan>) -> Seq<DataFile>
    decreases plan.len(),
{
    if plan.len() == 0 {
        Seq::empty()
    } else {
        plan_files(plan.drop_last()) + plan.last().files
    }
}

proof fn lemma_plan_files_of_packs(packs: Seq<Seq<DataFile>>, partition: Seq<char>)
    ensures
        plan_files(rewrite_data_files::group_plans(packs, partition)) == flat(packs),
    decreases packs.len(),
{
    if packs.len() > 0 {
        let plans = rewrite_data_files::group_plans(packs, partition);
        assert(plans.drop_last() =~= rewrite_data_files::group_plans(packs.drop_last(), partition));
        lemma_plan_files_of_packs(packs.drop_last(), partition);
    }
}

proof fn lemma_plan_files_add(a: Seq<GroupPlan>, b: Seq<GroupPlan>)
    ensures
        plan_files(a + b) == plan_files(a) + plan_files(b),
    decreases b.len(),
{
    if b.len() == 0 {
        assert(a + b =~= a);
        assert(plan_files(a) + plan_files(b) =~= plan_files(a));
    } else {
        assert((a + b).drop_last() =~= a + b.drop_last());
        lemma_plan_files_add(a, b.drop_last());
        assert(plan_files(a + b) =~= plan_files(a) + plan_files(b));
    }
}

proof fn lemma_filter_paths(files: Seq<DataFile>, keep: spec_fn(DataFile) -> bool)
    requires
        seqs::file_paths(files).no_duplicates(),
    ensures
        seqs::file_paths(files.filter(keep)).no_duplicates(),
{
    let path = |f: DataFile| f.file_path@;
    assert(files.map_values(path) =~= seqs::file_paths(files));
    seqs::lemma_filter_mapped(files, keep, path);
    assert(files.filter(keep).map_values(path) =~= seqs::file_paths(files.filter(keep)));
}

/// In a plan no file occurs twice, neither in one group nor in two.
pub proof fn law_plan_has_no_file_twice<R: FileRewriter>(
    action: RewriteDataFiles<R>,
    files: Seq<DataFile>,
)
    requires
        seqs::file_paths(files).no_duplicates(),
    ensures
        seqs::file_paths(plan_files(action.plan(files))).no_duplicates(),
{
    let partitions = seqs::distinct(rewrite_data_files::partition_values(files));
    seqs::lemma_extend_distinct(Seq::empty(), rewrite_data_files::partition_values(files));
    lemma_plan_of_no_file_twice(action, files, partitions);
}

proof fn lemma_plan_of_no_file_twice<R: FileRewriter>(
    action: RewriteDataFiles<R>,
    files: Seq<DataFile>,
    partitions: Seq<Seq<char>>,
)
    requires
        seqs::file_paths(files).no_duplicates(),
        partitions.no_duplicates(),
    ensures
        seqs::file_paths(plan_files(action.plan_of(files, partitions))).no_duplicates(),
        forall|f: DataFile| #[trigger]
            plan_files(action.plan_of(files, partitions)).contains(f) ==> files.contains(f)
                && partitions.contains(f.partition@),
    decreases partitions.len(),
{
    if partitions.len() > 0 {
        let front = partitions.drop_last();
        let last = partitions.last();
        let a = plan_files(action.plan_of(files, front));
        let plan = action.partition_plan(files, last);
        let b = plan_files(plan);
        let both = plan_files(action.plan_of(files, partitions));
        assert(partitions =~= front.push(last));
        assert(!front.contains(last)) by {
            if front.contains(last) {
                let i = choose|i: int| 0 <= i < front.len() && front[i] == last;
                assert(partitions[i] == partitions[partitions.len() - 1]);
            }
        }
        lemma_plan_of_no_file_twice(action, files, front);
        lemma_plan_files_add(action.plan_of(files, front), plan);
        let candidates = action.candidates(files, last);
        if candidates.len() >= action.min_input_files {
            let max = action.max_file_group_size_bytes as nat;
            lemma_plan_files_of_packs(rewrite_data_files::packed(candidates, max), last);
            law_packing_keeps_files(candidates, max);
            assert(b == candidates);
            lemma_filter_paths(files, rewrite_data_files::in_partition(last));
            lemma_filter_paths(
                files.filter(rewrite_data_files::in_partition(last)),
                action.candidate(),
            );
        } else {
            assert(b =~= Seq::<DataFile>::empty());
        }
        assert forall|f: DataFile| #[trigger] b.contains(f) implies files.contains(f)
            && f.partition@ == last by {
            lemma_candidates(action, files, last, f);
        }
        assert forall|f: DataFile| #[trigger] both.contains(f) implies files.contains(f)
            && partitions.contains(f.partition@) by {
            seqs::lemma_add_contains(a, b, f);
            seqs::lemma_push_contains(front, last, f.partition@);
        }
        let pa = seqs::file_paths(a);
        let pb = seqs::file_paths(b);
        let all = seqs::file_paths(both);
        assert(all =~= pa + pb);
        let paths = seqs::file_paths(files);
        assert forall|i: int, j: int|
            0 <= i < pa.len() && 0 <= j < pb.len() implies pa[i] != pb[j] by {
            assert(a.contains(a[i]));
            assert(b.contains(b[j]));
            let x = choose|x: int| 0 <= x < files.len() && files[x] == a[i];
            let y = choose|y: int| 0 <= y < files.len() && files[y] == b[j];
            if pa[i] == pb[j] {
                assert(paths[x] == paths[y]);
            }
        }
        assert forall|i: int, j: int|
            0 <= i < all.len() && 0 <= j < all.len() && i != j implies all[i] != all[j] by {
            if i < pa.len() && j < pa.len() {
                assert(pa[i] != pa[j]);
            } else if i >= pa.len() && j >= pa.len() {
                assert(pb[i - pa.len()] != pb[j - pa.len()]);
            } else if i < pa.len() {
                assert(pa[i] != pb[j - pa.len()]);
            } else {
                assert(pa[j] != pb[i - pa.len()]);
            }
        }
    }
}

/// Only data files of entries that are alive are planned for, and none twice.
pub proof fn law_live_files(entries: Seq<ManifestEntry>)
    ensures
        seqs::file_paths(rewrite_data_files::live_files(entries)).no_duplicates(),
        forall|f: DataFile| #[trigger]
            rewrite_data_files::live_files(entries).contains(f) ==> exists|i: int|
                0 <= i < entries.len() && (#[trigger] entries[i]).alive()
                    && entries[i].data_file == f && f.content == DataContentType::Data,
{
    let data = entries.filter(rewrite_data_files::is_data_entry());
    let first = seqs::distinct_entries(data);
    let alive = first.filter(rewrite_files::is_alive_entry());
    let files = rewrite_data_files::live_files(entries);
    seqs::lemma_distinct_entries(data);
    let path = |e: ManifestEntry| e.path();
    assert(first.map_values(path) =~= seqs::entry_paths(first));
    seqs::lemma_filter_mapped(first, rewrite_files::is_alive_entry(), path);
    assert(alive.map_values(path) =~= seqs::entry_paths(alive));
    assert(seqs::file_paths(files) =~= seqs::entry_paths(alive));
    assert forall|f: DataFile| #[trigger] files.contains(f) implies exists|i: int|
        0 <= i < entries.len() && (#[trigger] entries[i]).alive() && entries[i].data_file == f
            && f.content == DataContentType::Data by {
        let k = choose|k: int| 0 <= k < files.len() && files[k] == f;
        let e = alive[k];
        assert(alive.contains(e));
        seqs::lemma_filter_contains(first, rewrite_files::is_alive_entry(), e);
        seqs::lemma_filter_contains(entries, rewrite_data_files::is_data_entry(), e);
        let i = choose|i: int| 0 <= i < entries.len() && entries[i] == e;
        assert(entries[i].alive() && entries[i].data_file == f);
    }
}

/// How many files the groups have that are still to be rewritten.
pub open spec fn files_left(groups: Seq<GroupPlan>) -> int
    decreases groups.len(),
{
    if groups.len() == 0 {
        0
    } else {
        (groups[0].files.len() as u32) + files_left(groups.drop_first())
    }
}

/// The files that are rewritten, that have failed or that are still to be rewritten.
pub open spec fn accounted(progress: RewriteProgress) -> int {
    progress.result.rewritten_data_files_count + progress.result.failed_data_files_count
        + files_left(progress.groups)
}

/// With partial progress every file is accounted for: whatever becomes of a group, as
/// many files are rewritten, failed or left as before.
pub proof fn law_partial_progress_accounts_for_all(progress: RewriteProgress, new: Seq<DataFile>)
    requires
        progress.groups.len() > 0,
    ensures
        progress.can_count_failed(progress.groups[0].files.len()) ==> {
            &&& accounted(progress.skipped()) == accounted(progress)
            &&& accounted(progress.rewritten(true, new).failed()) == accounted(progress)
        },
        progress.rewritten(true, new).can_count_committed() ==> accounted(
            progress.rewritten(true, new).committed(),
        ) == accounted(progress),
{
}

/// With partial progress, once no group is left, the files rewritten and the files
/// failed are together as many as the plan had.
pub proof fn law_partial_progress_ends_complete(plan: Seq<GroupPlan>, progress: RewriteProgress)
    requires
        accounted(progress) == accounted(RewriteProgress::start(plan)),
        progress.groups.len() == 0,
    ensures
        progress.result.rewritten_data_files_count + progress.result.failed_data_files_count
            == files_left(plan),
{
}

/// The files that were replaced, where `ends` tells of each of the first groups what it
/// was replaced by, if it was.
pub open spec fn replaced_files(plan: Seq<GroupPlan>, ends: Seq<Option<Seq<DataFile>>>) -> Seq<
    DataFile,
>
    decreases ends.len(),
{
    if ends.len() == 0 {
        Seq::empty()
    } else {
        let before = replaced_files(plan, ends.drop_last());
        match ends.last() {
            Some(_) => before + plan[ends.len() - 1].files,
            None => before,
        }
    }
}

/// The files that were put in place of others.
pub open spec fn new_files(ends: Seq<Option<Seq<DataFile>>>) -> Seq<DataFile>
    decreases ends.len(),
{
    if ends.len() == 0 {
        Seq::empty()
    } else {
        let before = new_files(ends.drop_last());
        match ends.last() {
            Some(new) => before + new,
            None => before,
        }
    }
}

/// The files of the groups that failed.
pub open spec fn failed_files(plan: Seq<GroupPlan>, ends: Seq<Option<Seq<DataFile>>>) -> Seq<
    DataFile,
>
    decreases ends.len(),
{
    if ends.len() == 0 {
        Seq::empty()
    } else {
        let before = failed_files(plan, ends.drop_last());
        match ends.last() {
            Some(_) => before,
            None => before + plan[ends.len() - 1].files,
        }
    }
}

/// The counts are those of the groups that have come to an end, and the other groups
/// are left.
pub open spec fn tallies(
    plan: Seq<GroupPlan>,
    ends: Seq<Option<Seq<DataFile>>>,
    progress: RewriteProgress,
) -> bool {
    &&& ends.len() <= plan.len()
    &&& progress.groups == plan.skip(ends.len() as int)
    &&& progress.result.rewritten_data_files_count == replaced_files(plan, ends).len()
    &&& progress.result.added_data_files_count == new_files(ends).len()
    &&& progress.result.rewritten_bytes_count == rewrite_data_files::total_size(
        replaced_files(plan, ends),
    )
    &&& progress.result.failed_data_files_count == failed_files(plan, ends).len()
}

/// At the start nothing has been counted.
pub proof fn law_tally_starts_at_nothing(plan: Seq<GroupPlan>)
    ensures
        tallies(plan, Seq::empty(), RewriteProgress::start(plan)),
{
    assert(plan.skip(0) =~= plan);
}

/// With partial progress the result sums up the groups that were committed: the files
/// they had, their bytes and the files they were replaced by; and the files of the
/// groups that were not are counted as failed.
pub proof fn law_tally_of_groups(
    plan: Seq<GroupPlan>,
    ends: Seq<Option<Seq<DataFile>>>,
    progress: RewriteProgress,
    new: Seq<DataFile>,
)
    requires
        tallies(plan, ends, progress),
        progress.groups.len() > 0,
        progress.groups[0].files.len() <= u32::MAX,
        new.len() <= u32::MAX,
    ensures
        progress.can_count_failed(progress.groups[0].files.len()) ==> {
            &&& tallies(plan, ends.push(None), progress.skipped())
            &&& tallies(plan, ends.push(None), progress.rewritten(true, new).failed())
        },
        progress.rewritten(true, new).can_count_committed() ==> tallies(
            plan,
            ends.push(Some(new)),
            progress.rewritten(true, new).committed(),
        ),
{
    assert(ends.push(None).drop_last() =~= ends);
    assert(ends.push(Some(new)).drop_last() =~= ends);
    assert(progress.groups.drop_first() =~= plan.skip(1 + ends.len() as int));
    rewrite_data_files::lemma_total_size_add(
        replaced_files(plan, ends),
        plan[ends.len() as int].files,
    );
}

/// A group that fails adds nothing to what was rewritten.
pub proof fn law_failure_counts_nothing_else(progress: RewriteProgress)
    ensures
        progress.failed().result.rewritten_data_files_count
            == progress.result.rewritten_data_files_count,
        progress.failed().result.added_data_files_count == progress.result.added_data_files_count,
        progress.failed().result.rewritten_bytes_count == progress.result.rewritten_bytes_count,
        progress.failed().groups == progress.groups,
{
}

proof fn lemma_plan_files_first(plan: Seq<GroupPlan>)
    requires
        plan.len() > 0,
    ensures
        plan_files(plan) == plan[0].files + plan_files(plan.drop_first()),
{
    let one = seq![plan[0]];
    assert(plan =~= one + plan.drop_first());
    lemma_plan_files_add(one, plan.drop_first());
    reveal_with_fuel(plan_files, 2);
    assert(one.drop_last() =~= Seq::<GroupPlan>::empty());
    assert(plan_files(one) =~= plan[0].files);
}

/// Without partial progress, the files to remove and the files of the groups left are
/// together those of the plan, in their order; so the one commit removes them all.
pub proof fn law_one_commit_for_all(progress: RewriteProgress, new: Seq<DataFile>)
    requires
        progress.groups.len() > 0,
    ensures
        progress.rewritten(false, new).delete + plan_files(progress.rewritten(false, new).groups)
            == progress.delete + plan_files(progress.groups),
{
    lemma_plan_files_first(progress.groups);
    assert(progress.rewritten(false, new).delete + plan_files(
        progress.rewritten(false, new).groups,
    ) =~= progress.delete + plan_files(progress.groups));
}

/// Whether the entry at `i` is for data, and no earlier entry for data has its path.
pub open spec fn is_first_data(s: Seq<ManifestEntry>, i: int) -> bool {
    &&& 0 <= i < s.len()
    &&& s[i].data_file.content == DataContentType::Data
    &&& forall|j: int|
        0 <= j < i && (#[trigger] s[j]).data_file.content == DataContentType::Data
            ==> s[j].data_file.file_path@ != s[i].data_file.file_path@
}

/// Whether the file of an entry was added or existed before.
pub open spec fn is_there(e: ManifestEntry) -> bool {
    e.status == ManifestStatus::Added || e.status == ManifestStatus::Existing
}

/// The live files are those of the entries for data whose path no earlier one has and
/// which were added or existed before, all of them and in their order.
pub proof fn law_which_files_are_live(s: Seq<ManifestEntry>) -> (at: Seq<int>)
    ensures
        at.len() == rewrite_data_files::live_files(s).len(),
        forall|k: int|
            0 <= k < at.len() ==> is_first_data(s, #[trigger] at[k]) && is_there(s[at[k]])
                && s[at[k]].data_file == rewrite_data_files::live_files(s)[k],
        forall|i: int, j: int| 0 <= i < j < at.len() ==> #[trigger] at[i] < #[trigger] at[j],
        forall|i: int| #[trigger] is_first_data(s, i) && is_there(s[i]) ==> at.contains(i),
    decreases s.len(),
{
    let keep = rewrite_data_files::is_data_entry();
    let alive = rewrite_files::is_alive_entry();
    let file_of = |e: ManifestEntry| e.data_file;
    reveal(Seq::filter);
    if s.len() == 0 {
        assert(s.filter(keep) =~= Seq::<ManifestEntry>::empty());
        assert(seqs::distinct_entries(s.filter(keep)) =~= Seq::<ManifestEntry>::empty());
        Seq::empty()
    } else {
        let front = s.drop_last();
        let last = s.last();
        let n = front.len() as int;
        let before = law_which_files_are_live(front);
        let data = front.filter(keep);
        let first = seqs::distinct_entries(data);
        lemma_first_data_in_front(s);
        lemma_first_data_at_end(s);
        let fresh = keep(last) && !seqs::entry_paths(data).contains(last.path());
        assert(fresh <==> is_first_data(s, n));
        if keep(last) {
            assert(s.filter(keep) == data.push(last));
            assert(data.push(last).drop_last() =~= data);
        }
        if fresh {
            let longer = first.push(last);
            assert(seqs::distinct_entries(s.filter(keep)) == longer);
            assert(longer.drop_last() =~= first);
            assert(longer.filter(alive) == (if alive(last) {
                first.filter(alive).push(last)
            } else {
                first.filter(alive)
            }));
        } else {
            assert(seqs::distinct_entries(s.filter(keep)) == first);
        }
        let at = if fresh && alive(last) {
            before.push(n)
        } else {
            before
        };
        if fresh && alive(last) {
            assert(rewrite_data_files::live_files(s) =~= rewrite_data_files::live_files(front).push(
                last.data_file,
            ));
        } else {
            assert(rewrite_data_files::live_files(s) =~= rewrite_data_files::live_files(front));
        }
        assert forall|k: int| 0 <= k < at.len() implies is_first_data(s, #[trigger] at[k])
            && is_there(s[at[k]]) && s[at[k]].data_file == rewrite_data_files::live_files(
            s,
        )[k] by {
            if k < before.len() {
                assert(at[k] == before[k]);
                assert(is_first_data(front, before[k]));
                assert(front[before[k]] == s[before[k]]);
            }
        }
        assert forall|i: int, j: int| 0 <= i < j < at.len() implies #[trigger] at[i]
            < #[trigger] at[j] by {
            if j < before.len() {
                assert(before[i] < before[j]);
            } else {
                assert(is_first_data(front, before[i]));
            }
        }
        assert forall|i: int| #[trigger] is_first_data(s, i) && is_there(
            s[i],
        ) implies at.contains(i) by {
            seqs::lemma_push_contains(before, n, i);
            if i < n {
                assert(is_first_data(front, i));
                assert(front[i] == s[i]);
            }
        }
        at
    }
}

proof fn lemma_first_data_in_front(s: Seq<ManifestEntry>)
    requires
        s.len() > 0,
    ensures
        forall|i: int|
            i < s.len() - 1 ==> #[trigger] is_first_data(s, i) == is_first_data(s.drop_last(), i),
        forall|i: int|
            #[trigger] is_first_data(s.drop_last(), i) ==> is_first_data(s, i),
{
    let front = s.drop_last();
    assert forall|i: int| i < s.len() - 1 implies #[trigger] is_first_data(s, i)
        == is_first_data(front, i) by {
        lemma_first_data_same(s, i);
    }
    assert forall|i: int| #[trigger] is_first_data(front, i) implies is_first_data(s, i) by {
        lemma_first_data_same(s, i);
    }
}

proof fn lemma_first_data_same(s: Seq<ManifestEntry>, i: int)
    requires
        i < s.len() - 1,
    ensures
        is_first_data(s, i) == is_first_data(s.drop_last(), i),
{
    let front = s.drop_last();
    assert(forall|j: int| 0 <= j <= i ==> #[trigger] front[j] == s[j]);
    if is_first_data(front, i) {
        assert forall|j: int|
            0 <= j < i && (#[trigger] s[j]).data_file.content == DataContentType::Data implies
            s[j].data_file.file_path@ != s[i].data_file.file_path@ by {
            assert(front[j] == s[j]);
        }
    }
}

proof fn lemma_first_data_at_end(s: Seq<ManifestEntry>)
    requires
        s.len() > 0,
    ensures
        is_first_data(s, s.len() - 1) <==> s.last().data_file.content == DataContentType::Data
            && !seqs::entry_paths(
            s.drop_last().filter(rewrite_data_files::is_data_entry()),
        ).contains(s.last().path()),
{
    let front = s.drop_last();
    let keep = rewrite_data_files::is_data_entry();
    let data = front.filter(keep);
    let n = s.len() - 1;
    storage::lemma_entry_paths(data, s.last().path());
    if seqs::entry_paths(data).contains(s.last().path()) {
        let e = choose|e: ManifestEntry| #[trigger]
            data.contains(e) && e.data_file.file_path@ == s.last().path();
        seqs::lemma_filter_contains(front, keep, e);
        let j = choose|j: int| 0 <= j < front.len() && front[j] == e;
        assert(s[j] == e);
    } else {
        assert forall|j: int|
            0 <= j < n && (#[trigger] s[j]).data_file.content == DataContentType::Data implies
            s[j].data_file.file_path@ != s[n].data_file.file_path@ by {
            assert(front[j] == s[j]);
            assert(front.contains(s[j]));
            seqs::lemma_filter_contains(front, keep, s[j]);
        }
    }
}

/// The entries of the manifests for data in a manifest list, one manifest after the
/// other.
pub open spec fn data_entries(storage: Storage, list: Seq<ManifestFile>) -> Seq<ManifestEntry>
    decreases list.len(),
{
    if list.len() == 0 {
        Seq::empty()
    } else if list.last().content == ManifestContentType::Data {
        data_entries(storage, list.drop_last()) + (storage.manifests)(list.last().manifest_path@)
    } else {
        data_entries(storage, list.drop_last())
    }
}

/// The manifests of the current snapshot.
pub open spec fn current_list(table: Table, storage: Storage) -> Seq<ManifestFile> {
    (storage.lists)(table.metadata.current()->0.manifest_list@)
}

/// What has been read `n` manifests after the manifest list of the current snapshot.
pub open spec fn reads_after(table: Table, storage: Storage, n: nat) -> RewriteReads
    decreases n,
{
    if n == 0 {
        RewriteReads::start().with_list(current_list(table, storage))
    } else {
        let before = reads_after(table, storage, (n - 1) as nat);
        if before.queue.len() > 0 {
            before.with_entries((storage.manifests)(before.queue[0]))
        } else {
            before
        }
    }
}

proof fn lemma_data_entries(storage: Storage, list: Seq<ManifestFile>)
    ensures
        data_entries(storage, list) == storage::all_entries(
            storage,
            seqs::manifest_paths(list.filter(rewrite_data_files::reads_data())),
        ),
    decreases list.len(),
{
    reveal(Seq::filter);
    let keep = rewrite_data_files::reads_data();
    if list.len() > 0 {
        let front = list.drop_last();
        lemma_data_entries(storage, front);
        if keep(list.last()) {
            let paths = seqs::manifest_paths(list.filter(keep));
            assert(paths.drop_last() =~= seqs::manifest_paths(front.filter(keep)));
            assert(paths.last() == list.last().manifest_path@);
        }
    }
}

proof fn lemma_reads_agree(table: Table, storage: Storage, n: nat)
    ensures
        ({
            let paths = seqs::manifest_paths(
                current_list(table, storage).filter(rewrite_data_files::reads_data()),
            );
            let reads = reads_after(table, storage, n);
            let k = paths.len() - reads.queue.len();
            &&& 0 <= k
            &&& n <= paths.len() ==> k == n
            &&& n > paths.len() ==> k == paths.len()
            &&& reads.queue == paths.skip(k)
            &&& reads.entries == storage::all_entries(storage, paths.take(k))
        }),
    decreases n,
{
    let paths = seqs::manifest_paths(
        current_list(table, storage).filter(rewrite_data_files::reads_data()),
    );
    if n == 0 {
        assert(paths.skip(0) =~= paths);
        assert(paths.take(0) =~= Seq::<Seq<char>>::empty());
    } else {
        lemma_reads_agree(table, storage, (n - 1) as nat);
        let before = reads_after(table, storage, (n - 1) as nat);
        let k = paths.len() - before.queue.len();
        if before.queue.len() > 0 {
            assert(before.queue[0] == paths[k]);
            storage::lemma_all_entries_step(storage, paths, k);
            assert(before.queue.drop_first() =~= paths.skip(k + 1));
        }
    }
}

/// Every run reads the data manifests of the current snapshot, all of them and no other,
/// before it plans anything.
pub proof fn law_run_reads_all_data<'a, R: FileRewriter>(
    action: RewriteDataFiles<'a, R>,
    storage: Storage,
    n: nat,
    step: RewriteStep<'a, R>,
)
    requires
        rewrite_data_files::continues(action, reads_after(*action.table, storage, n), step),
        !(step is ReadManifest),
    ensures
        reads_after(*action.table, storage, n).entries == data_entries(
            storage,
            current_list(*action.table, storage),
        ),
{
    let list = current_list(*action.table, storage);
    let paths = seqs::manifest_paths(list.filter(rewrite_data_files::reads_data()));
    lemma_reads_agree(*action.table, storage, n);
    lemma_data_entries(storage, list);
    assert(paths.take(paths.len() as int) =~= paths);
}

/// Every run comes to an end of its reading.
pub proof fn law_every_run_stops_reading<'a, R: FileRewriter>(
    action: RewriteDataFiles<'a, R>,
    storage: Storage,
    step: RewriteStep<'a, R>,
)
    requires
        rewrite_data_files::continues(
            action,
            reads_after(*action.table, storage, current_list(*action.table, storage).len()),
            step,
        ),
    ensures
        !(step is ReadManifest),
{
    let list = current_list(*action.table, storage);
    lemma_reads_agree(*action.table, storage, list.len());
    lemma_filter_len(list, rewrite_data_files::reads_data());
}

proof fn lemma_filter_len(list: Seq<ManifestFile>, keep: spec_fn(ManifestFile) -> bool)
    ensures
        list.filter(keep).len() <= list.len(),
    decreases list.len(),
{
    reveal(Seq::filter);
    if list.len() > 0 {
        lemma_filter_len(list.drop_last(), keep);
    }
}

/// The total size of files is the sum of their sizes.
pub proof fn law_total_size(files: Seq<DataFile>, file: DataFile)
    ensures
        rewrite_data_files::total_size(Seq::empty()) == 0,
        rewrite_data_files::total_size(files.push(file)) == rewrite_data_files::total_size(files)
            + file.file_size_in_bytes,
{
    assert(files.push(file).drop_last() =~= files);
}

/// Lets through the files of a partition that are smaller than `min` or larger than `max`.
pub open spec fn off_size(partition: Seq<char>, min: u64, max: u64) -> spec_fn(DataFile) -> bool {
    |f: DataFile|
        f.partition.encoding@ == partition && (f.file_size_in_bytes < min || f.file_size_in_bytes
            > max)
}

/// The files of the groups of one partition, one group after the other.
pub open spec fn files_planned(plan: Seq<GroupPlan>, partition: Seq<char>) -> Seq<DataFile>
    decreases plan.len(),
{
    if plan.len() == 0 {
        Seq::empty()
    } else if plan.last().partition == partition {
        files_planned(plan.drop_last(), partition) + plan.last().files
    } else {
        files_planned(plan.drop_last(), partition)
    }
}

proof fn lemma_files_planned_add(a: Seq<GroupPlan>, b: Seq<GroupPlan>, partition: Seq<char>)
    ensures
        files_planned(a + b, partition) == files_planned(a, partition) + files_planned(
            b,
            partition,
        ),
    decreases b.len(),
{
    if b.len() == 0 {
        assert(a + b =~= a);
        assert(files_planned(a, partition) + files_planned(b, partition) =~= files_planned(
            a,
            partition,
        ));
    } else {
        assert((a + b).drop_last() =~= a + b.drop_last());
        lemma_files_planned_add(a, b.drop_last(), partition);
        assert(files_planned(a + b, partition) =~= files_planned(a, partition) + files_planned(
            b,
            partition,
        ));
    }
}

proof fn lemma_files_planned_of_packs(
    packs: Seq<Seq<DataFile>>,
    own: Seq<char>,
    partition: Seq<char>,
)
    ensures
        files_planned(rewrite_data_files::group_plans(packs, own), partition) == (if own
            == partition {
            flat(packs)
        } else {
            Seq::empty()
        }),
    decreases packs.len(),
{
    if packs.len() > 0 {
        let plans = rewrite_data_files::group_plans(packs, own);
        assert(plans.drop_last() =~= rewrite_data_files::group_plans(packs.drop_last(), own));
        lemma_files_planned_of_packs(packs.drop_last(), own, partition);
    }
}

proof fn lemma_filter_twice(
    files: Seq<DataFile>,
    p: spec_fn(DataFile) -> bool,
    q: spec_fn(DataFile) -> bool,
    both: spec_fn(DataFile) -> bool,
)
    requires
        forall|f: DataFile| #[trigger] both(f) == (p(f) && q(f)),
    ensures
        files.filter(p).filter(q) == files.filter(both),
    decreases files.len(),
{
    reveal(Seq::filter);
    if files.len() > 0 {
        let front = files.drop_last();
        let last = files.last();
        lemma_filter_twice(front, p, q, both);
        assert(both(last) == (p(last) && q(last)));
        if p(last) {
            assert(front.filter(p).push(last).drop_last() =~= front.filter(p));
        }
    }
}

proof fn lemma_candidates_off_size<R: FileRewriter>(
    action: RewriteDataFiles<R>,
    files: Seq<DataFile>,
    partition: Seq<char>,
)
    ensures
        action.candidates(files, partition) == files.filter(
            off_size(partition, action.min_file_size_bytes, action.max_file_size_bytes),
        ),
{
    let both = off_size(partition, action.min_file_size_bytes, action.max_file_size_bytes);
    let p = rewrite_data_files::in_partition(partition);
    let q = action.candidate();
    assert forall|f: DataFile| #[trigger] both(f) == (p(f) && q(f)) by {}
    lemma_filter_twice(files, p, q, both);
}

proof fn lemma_planned_of<R: FileRewriter>(
    action: RewriteDataFiles<R>,
    files: Seq<DataFile>,
    partitions: Seq<Seq<char>>,
    partition: Seq<char>,
)
    requires
        partitions.no_duplicates(),
    ensures
        ({
            let fit = files.filter(
                off_size(partition, action.min_file_size_bytes, action.max_file_size_bytes),
            );
            files_planned(action.plan_of(files, partitions), partition) == (
            if partitions.contains(partition) && fit.len() >= action.min_input_files {
                fit
            } else {
                Seq::empty()
            })
        }),
    decreases partitions.len(),
{
    let fit = files.filter(
        off_size(partition, action.min_file_size_bytes, action.max_file_size_bytes),
    );
    if partitions.len() > 0 {
        let front = partitions.drop_last();
        let last = partitions.last();
        assert(partitions =~= front.push(last));
        seqs::lemma_push_contains(front, last, partition);
        assert(!front.contains(last)) by {
            if front.contains(last) {
                let i = choose|i: int| 0 <= i < front.len() && front[i] == last;
                assert(partitions[i] == partitions[partitions.len() - 1]);
            }
        }
        lemma_planned_of(action, files, front, partition);
        let plan = action.partition_plan(files, last);
        lemma_files_planned_add(action.plan_of(files, front), plan, partition);
        lemma_candidates_off_size(action, files, last);
        let candidates = action.candidates(files, last);
        if candidates.len() >= action.min_input_files {
            let max = action.max_file_group_size_bytes as nat;
            let packs = rewrite_data_files::packed(candidates, max);
            lemma_files_planned_of_packs(packs, last, partition);
            law_packing_keeps_files(candidates, max);
        } else {
            assert(files_planned(plan, partition) =~= Seq::<DataFile>::empty());
        }
        let a = files_planned(action.plan_of(files, front), partition);
        let b = files_planned(plan, partition);
        if last == partition {
            assert(a + b =~= b);
        } else {
            assert(a + b =~= a);
        }
    }
}

/// The groups of a partition have its files that are smaller than the minimum or larger
/// than the maximum size, all of them and in their order, where there are enough of them
/// to begin with; otherwise the partition has no groups.
pub proof fn law_what_is_planned<R: FileRewriter>(
    action: RewriteDataFiles<R>,
    files: Seq<DataFile>,
    partition: Seq<char>,
)
    ensures
        ({
            let fit = files.filter(
                off_size(partition, action.min_file_size_bytes, action.max_file_size_bytes),
            );
            files_planned(action.plan(files), partition) == (if fit.len()
                >= action.min_input_files {
                fit
            } else {
                Seq::empty()
            })
        }),
{
    let values = rewrite_data_files::partition_values(files);
    let partitions = seqs::distinct(values);
    seqs::lemma_extend_distinct(Seq::empty(), values);
    lemma_planned_of(action, files, partitions, partition);
    let keep = off_size(partition, action.min_file_size_bytes, action.max_file_size_bytes);
    let fit = files.filter(keep);
    if fit.len() > 0 {
        assert(fit.contains(fit[0]));
        seqs::lemma_filter_contains(files, keep, fit[0]);
        let i = choose|i: int| 0 <= i < files.len() && files[i] == fit[0];
        assert(values[i] == partition);
        assert(values.contains(partition));
    } else {
        assert(fit =~= Seq::<DataFile>::empty());
    }
}

/// Every group of a plan has files, all of its partition; a group of several files is
/// within the maximum size of groups, and a group follows another one of its partition
/// only where its first file would have made that one too large.
pub proof fn law_how_it_is_grouped<R: FileRewriter>(
    action: RewriteDataFiles<R>,
    files: Seq<DataFile>,
    g: int,
)
    requires
        0 <= g < action.plan(files).len(),
    ensures
        ({
            let plan = action.plan(files);
            let max = action.max_file_group_size_bytes;
            &&& plan[g].files.len() > 0
            &&& forall|i: int|
                0 <= i < plan[g].files.len() ==> (#[trigger] plan[g].files[i]).partition.encoding@
                    == plan[g].partition
            &&& plan[g].files.len() > 1 ==> rewrite_data_files::total_size(plan[g].files) <= max
            &&& g > 0 && plan[g - 1].partition == plan[g].partition
                ==> rewrite_data_files::total_size(plan[g - 1].files)
                + plan[g].files[0].file_size_in_bytes > max
        }),
{
    let values = rewrite_data_files::partition_values(files);
    let partitions = seqs::distinct(values);
    seqs::lemma_extend_distinct(Seq::empty(), values);
    lemma_grouped_of(action, files, partitions, g);
    assert forall|i: int| 0 <= i < action.plan(files)[g].files.len() implies (
    #[trigger] action.plan(files)[g].files[i]).partition.encoding@ == action.plan(
        files,
    )[g].partition by {
        law_plan_selects_candidates(action, files, g, i);
    }
}

proof fn lemma_grouped_of<R: FileRewriter>(
    action: RewriteDataFiles<R>,
    files: Seq<DataFile>,
    partitions: Seq<Seq<char>>,
    g: int,
)
    requires
        partitions.no_duplicates(),
        0 <= g < action.plan_of(files, partitions).len(),
    ensures
        ({
            let plan = action.plan_of(files, partitions);
            let max = action.max_file_group_size_bytes;
            &&& plan[g].files.len() > 0
            &&& partitions.contains(plan[g].partition)
            &&& plan[g].files.len() > 1 ==> rewrite_data_files::total_size(plan[g].files) <= max
            &&& g > 0 && plan[g - 1].partition == plan[g].partition
                ==> rewrite_data_files::total_size(plan[g - 1].files)
                + plan[g].files[0].file_size_in_bytes > max
        }),
    decreases partitions.len(),
{
    let front = partitions.drop_last();
    let last = partitions.last();
    let before = action.plan_of(files, front);
    assert(partitions =~= front.push(last));
    assert(front.no_duplicates());
    if g < before.len() {
        lemma_grouped_of(action, files, front, g);
        seqs::lemma_push_contains(front, last, before[g].partition);
    } else {
        let max = action.max_file_group_size_bytes as nat;
        let candidates = action.candidates(files, last);
        let packs = rewrite_data_files::packed(candidates, max);
        let k = g - before.len();
        law_packing_is_greedy(candidates, max, k);
        seqs::lemma_push_contains(front, last, last);
        if k == 0 && g > 0 {
            lemma_grouped_of(action, files, front, g - 1);
            let at = before[g - 1].partition;
            assert(front.contains(at));
            if at == last {
                let i = choose|i: int| 0 <= i < front.len() && front[i] == last;
                assert(partitions[i] == partitions[partitions.len() - 1]);
            }
        }
    }
}

/// What the rewriter is given for a group of the plan: a task for each of its files, in
/// their order, the target size of the action, and the partition with the default spec
/// of the table.
pub proof fn law_what_the_rewriter_is_given<R: FileRewriter>(
    action: RewriteDataFiles<R>,
    g: RewriteFileGroup,
    plan: GroupPlan,
)
    requires
        action.is_group(g, plan),
    ensures
        g.tasks@.len() == plan.files.len(),
        forall|i: int|
            0 <= i < plan.files.len() ==> (#[trigger] g.tasks@[i]).data_file == plan.files[i],
        g.target_file_size_bytes == action.target_file_size_bytes,
        g.partition_spec == action.table.metadata.default_partition_spec,
        g.partition_value is Some,
        g.partition_value->0.encoding@ == plan.partition,
{
    assert(g.files().len() == g.tasks@.len());
    assert forall|i: int| 0 <= i < plan.files.len() implies (#[trigger] g.tasks@[i]).data_file
        == plan.files[i] by {
        assert(g.files()[i] == g.tasks@[i].data_file);
    }
}

/// With partial progress a group is committed by itself: its files are removed, the new
/// ones are added, and the other groups are left.
pub proof fn law_group_is_committed_by_itself(progress: RewriteProgress, new: Seq<DataFile>)
    requires
        progress.groups.len() > 0,
    ensures
        progress.rewritten(true, new).delete == progress.groups[0].files,
        progress.rewritten(true, new).add == new,
        progress.rewritten(true, new).groups == progress.groups.skip(1),
        progress.rewritten(true, new).result == progress.result,
        progress.skipped().groups == progress.groups.skip(1),
{
    assert(progress.groups.drop_first() =~= progress.groups.skip(1));
}

/// Without partial progress the files of each group are removed with those before it,
/// and its new files added with those before them.
pub proof fn law_groups_are_committed_together(progress: RewriteProgress, new: Seq<DataFile>)
    requires
        progress.groups.len() > 0,
    ensures
        progress.rewritten(false, new).delete == progress.delete + progress.groups[0].files,
        progress.rewritten(false, new).add == progress.add + new,
        progress.rewritten(false, new).groups == progress.groups.skip(1),
{
    assert(progress.groups.drop_first() =~= progress.groups.skip(1));
}

/// The result of one commit for all counts the files removed, their bytes and the files
/// added, and no failures.
pub proof fn law_result_of_one_commit(progress: RewriteProgress)
    requires
        progress.delete.len() <= u32::MAX,
        progress.add.len() <= u32::MAX,
        rewrite_data_files::total_size(progress.delete) <= u64::MAX,
    ensures
        progress.total().rewritten_data_files_count == progress.delete.len(),
        progress.total().added_data_files_count == progress.add.len(),
        progress.total().rewritten_bytes_count == rewrite_data_files::total_size(progress.delete),
        progress.total().failed_data_files_count == 0,
        progress.total().removed_delete_files_count == 0,
{
}

/// A run begins with all groups of the plan and nothing to remove or to add; and where
/// there is none it ends at once, with nothing done.
pub proof fn law_run_begins_with_the_plan<'a, R: FileRewriter>(
    action: RewriteDataFiles<'a, R>,
    reads: RewriteReads,
    step: RewriteStep<'a, R>,
)
    requires
        rewrite_data_files::continues(action, reads, step),
        reads.queue.len() == 0,
    ensures
        ({
            let plan = action.plan(rewrite_data_files::live_files(reads.entries));
            if plan.len() == 0 {
                &&& step is Finished
                &&& step->Finished_0 is Ok
                &&& step->Finished_0->Ok_0.rewritten_data_files_count == 0
                &&& step->Finished_0->Ok_0.added_data_files_count == 0
                &&& step->Finished_0->Ok_0.rewritten_bytes_count == 0
                &&& step->Finished_0->Ok_0.failed_data_files_count == 0
                &&& step->Finished_0->Ok_0.removed_delete_files_count == 0
            } else {
                let progress = step->Rewrite_0.run.progress();
                &&& step is Rewrite
                &&& step->Rewrite_0.run.action == action
                &&& progress.groups == plan
                &&& progress.delete.len() == 0
                &&& progress.add.len() == 0
                &&& progress.result.rewritten_data_files_count == 0
                &&& progress.result.added_data_files_count == 0
                &&& progress.result.rewritten_bytes_count == 0
                &&& progress.result.failed_data_files_count == 0
                &&& progress.result.removed_delete_files_count == 0
            }
        }),
{
}

/// Between groups the next one is rewritten; after the last one a run with partial
/// progress ends with its counts, and any other one commits all groups.
pub proof fn law_what_follows_a_group<'a, R: FileRewriter>(
    action: RewriteDataFiles<'a, R>,
    progress: RewriteProgress,
    step: RewriteStep<'a, R>,
)
    requires
        rewrite_data_files::next_group(action, progress, step),
    ensures
        progress.groups.len() > 0 ==> step is Rewrite && step->Rewrite_0.run.progress() == progress
            && step->Rewrite_0.run.action == action,
        progress.groups.len() == 0 && action.partial_progress ==> step is Finished
            && step->Finished_0 == Ok::<RewriteDataFilesResult, Error>(progress.result),
        progress.groups.len() == 0 && !action.partial_progress ==> step is Apply
            && step->Apply_0.run.progress() == progress && step->Apply_0.run.action == action,
{
}

/// Files can be counted as failed, and a group as committed, as long as the counts fit.
pub proof fn law_what_can_be_counted(progress: RewriteProgress, n: nat)
    requires
        n <= u32::MAX,
        progress.delete.len() <= u32::MAX,
        progress.add.len() <= u32::MAX,
    ensures
        progress.can_count_failed(n) <==> progress.result.failed_data_files_count + n <= u32::MAX,
        progress.can_count_committed() <==> {
            &&& progress.result.rewritten_data_files_count + progress.delete.len() <= u32::MAX
            &&& progress.result.added_data_files_count + progress.add.len() <= u32::MAX
            &&& progress.result.rewritten_bytes_count + rewrite_data_files::total_size(
                progress.delete,
            ) <= u64::MAX
        },
{
}

/// The progress of a run is that of its groups not yet done, the files to remove and to
/// add, and its counts.
pub proof fn law_progress_of_a_run<'a, R: FileRewriter>(run: RewriteRun<'a, R>)
    requires
        run.wf(),
    ensures
        run.progress().groups.len() == run.groups@.len() - run.groups_done,
        forall|k: int|
            0 <= k < run.groups@.len() - run.groups_done ==> {
                let g = run.groups@[run.groups_done + k];
                &&& (#[trigger] run.progress().groups[k]).files.len() == g.tasks@.len()
                &&& forall|i: int|
                    0 <= i < g.tasks@.len() ==> (#[trigger] run.progress().groups[k].files[i])
                        == g.tasks@[i].data_file
                &&& run.progress().groups[k].partition == g.partition_value->0.encoding@
            },
        run.progress().delete == run.delete@,
        run.progress().add == run.add@,
        run.progress().result == run.result,
{
}

} // verus!

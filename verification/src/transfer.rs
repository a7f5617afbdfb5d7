//! Carrying an upload out: the requests it takes, when to repeat them, and what answers mean.
use vstd::prelude::*;

use crate::json::{field_at, field_is_there, is_there, json_field, text_in, text_of_field};
use crate::ranking::{arranged, is_ranking, precedes, rank_desc, reversed};
use crate::text::{
    chars_of, concat2, concat3, decimal, decimal_of, opt_text, trim, trim_chars,
};
use crate::upload::{
    bundle_size, bundles_partition_files, bundles_stay_small, enumerate_files, enumerated, failure,
    files_at, is_packing, pack_small_bundles, packed, size_keys, sizes_of, Blame, Enumeration, Failure, FileView, PathListing, UploadError,
    UploadFile, MAX_MPU_BYTES, MAX_RETRIES, RETRY_BASE_DELAY_MS, SMALL_BUNDLE_TOTAL_THRESHOLD,
    SMALL_FILE_THRESHOLD,
};

verus! {

// ---------------------------------------------------------------------------------------------
// Routing
// ---------------------------------------------------------------------------------------------
/// One request, or one series of requests, of an upload.
pub enum UploadStep {
    /// All these files in a single request.
    Bundle(Vec<UploadFile>),
    /// This file in parts.
    Multipart(UploadFile),
}

/// What an upload takes.
pub struct UploadPlan {
    pub steps: Vec<UploadStep>,
    pub total_files: usize,
    pub total_bytes: u128,
}

/// The size of the first `n` files in all.
pub open spec fn total_size(files: Seq<FileView>, n: int) -> int
    decreases n,
{
    if n <= 0 {
        0
    } else {
        total_size(files, n - 1) + files[n - 1].size
    }
}

/// The first file from number `k` on that is larger than any upload may be.
pub open spec fn first_too_large(files: Seq<FileView>, k: int) -> Option<int>
    decreases files.len() - k,
{
    if k < 0 || k >= files.len() {
        None
    } else if files[k].size > MAX_MPU_BYTES {
        Some(k)
    } else {
        first_too_large(files, k + 1)
    }
}

/// Whether all files fit into one request: each is small, and so is the whole.
pub open spec fn fits_one_request(files: Seq<UploadFile>, total: int) -> bool {
    (forall|k: int| 0 <= k < files.len() ==> (#[trigger] files[k]).size < SMALL_FILE_THRESHOLD)
        && total < SMALL_BUNDLE_TOTAL_THRESHOLD
}

/// The large ones, or the small ones, among the first `n` files.
pub open spec fn only(files: Seq<UploadFile>, large: bool, n: int) -> Seq<UploadFile>
    decreases n,
{
    if n <= 0 {
        Seq::empty()
    } else if (files[n - 1].size >= SMALL_FILE_THRESHOLD) == large {
        only(files, large, n - 1).push(files[n - 1])
    } else {
        only(files, large, n - 1)
    }
}

/// `steps` uploads `files`: in one request where they fit, else each large file in parts, and then
/// the small ones in bundles.
pub open spec fn is_route(steps: Seq<UploadStep>, files: Seq<UploadFile>, total: int) -> bool {
    if fits_one_request(files, total) {
        steps.len() == 1 && steps[0] is Bundle && steps[0]->Bundle_0@ == files
    } else {
        let large = only(files, true, files.len() as int);
        let small = only(files, false, files.len() as int);
        exists|bundles: Seq<Vec<UploadFile>>, order: Seq<int>|
            is_ranking(size_keys(small), order) && #[trigger] is_packing(
                bundles,
                arranged(small, order),
            ) && steps.len() == large.len() + bundles.len() && (forall|k: int|
                0 <= k < large.len() ==> #[trigger] steps[k] == UploadStep::Multipart(large[k]))
                && (forall|b: int|
                0 <= b < bundles.len() ==> #[trigger] steps[large.len() + b] == UploadStep::Bundle(
                    bundles[b],
                ))
    }
}

/// The failure that ends an upload before the first request, if any.
pub open spec fn early_failure(token: Seq<char>, e: Enumeration) -> Option<Failure> {
    if token.len() == 0 {
        Some(
            failure(
                Blame::User,
                "missing_token"@,
                "Project token is empty. Pass --token or set GAFFER_PROJECT_TOKEN."@,
            ),
        )
    } else {
        match e {
            Enumeration::Failed(f) => Some(f),
            Enumeration::Files(files) => if files.len() == 0 {
                Some(
                    failure(
                        Blame::User,
                        "no_files"@,
                        "No files found at the provided path(s)."@,
                    ),
                )
            } else {
                match first_too_large(files, 0) {
                    Some(k) => Some(
                        failure(
                            Blame::User,
                            "file_too_large"@,
                            files[k].relative_path + " is "@ + decimal(files[k].size as nat)
                                + " bytes, exceeds the 5 GB per-object ceiling."@,
                        ),
                    ),
                    None => None,
                }
            },
        }
    }
}

/// Whether `plan` uploads exactly the files `all`.
pub open spec fn is_plan(plan: UploadPlan, all: Seq<FileView>) -> bool {
    &&& plan.total_files == all.len()
    &&& plan.total_bytes == total_size(all, all.len() as int)
    &&& exists|files: Seq<UploadFile>|
        files.len() == all.len() && (forall|k: int|
            0 <= k < files.len() ==> (#[trigger] files[k]).deep_view() == all[k]) && #[trigger] is_route(
            plan.steps@,
            files,
            total_size(all, all.len() as int),
        )
}

fn route(files: Vec<UploadFile>, total: u128) -> (steps: Vec<UploadStep>)
    ensures
        is_route(steps@, files@, total as int),
{
    let ghost all = files@;
    let mut any_large = false;
    let mut i: usize = 0;
    while i < files.len()
        invariant
            0 <= i <= files@.len(),
            all == files@,
            any_large <==> exists|k: int|
                0 <= k < i && (#[trigger] files@[k]).size >= SMALL_FILE_THRESHOLD,
        decreases files@.len() - i,
    {
        if files[i].size >= SMALL_FILE_THRESHOLD {
            any_large = true;
        }
        i += 1;
    }
    let mut steps: Vec<UploadStep> = Vec::new();
    if !any_large && total < SMALL_BUNDLE_TOTAL_THRESHOLD as u128 {
        steps.push(UploadStep::Bundle(files));
        return steps;
    }
    let mut queue = reversed(files);
    let mut small: Vec<UploadFile> = Vec::new();
    let ghost mut n: int = 0;
    assert(all.skip(0) =~= all);
    while queue.len() > 0
        invariant
            0 <= n,
            n + queue@.len() == all.len(),
            queue@ == all.skip(n).reverse(),
            small@ == only(all, false, n),
            steps@.len() == only(all, true, n).len(),
            forall|k: int|
                0 <= k < steps@.len() ==> #[trigger] steps@[k] == UploadStep::Multipart(
                    only(all, true, n)[k],
                ),
        decreases queue@.len(),
    {
        assert(queue@.last() == all[n]);
        if let Some(f) = queue.pop() {
            assert(queue@ =~= all.skip(n + 1).reverse());
            if f.size >= SMALL_FILE_THRESHOLD {
                steps.push(UploadStep::Multipart(f));
            } else {
                small.push(f);
            }
            proof {
                n = n + 1;
            }
        }
    }
    let ghost large = only(all, true, all.len() as int);
    let ghost rest = small@;
    let bundles = pack_small_bundles(small);
    let ghost bs = bundles@;
    let ghost order = choose|order: Seq<int>| #[trigger]
        is_ranking(size_keys(rest), order) && is_packing(bs, arranged(rest, order));
    let mut later = reversed(bundles);
    let ghost mut b: int = 0;
    assert(bs.skip(0) =~= bs);
    while later.len() > 0
        invariant
            0 <= b,
            b + later@.len() == bs.len(),
            later@ == bs.skip(b).reverse(),
            steps@.len() == large.len() + b,
            forall|k: int|
                0 <= k < large.len() ==> #[trigger] steps@[k] == UploadStep::Multipart(large[k]),
            forall|c: int|
                0 <= c < b ==> #[trigger] steps@[large.len() + c] == UploadStep::Bundle(bs[c]),
        decreases later@.len(),
    {
        assert(later@.last() == bs[b]);
        if let Some(bundle) = later.pop() {
            assert(later@ =~= bs.skip(b + 1).reverse());
            let ghost s0 = steps@;
            steps.push(UploadStep::Bundle(bundle));
            proof {
                assert forall|c: int| 0 <= c < b + 1 implies #[trigger] steps@[large.len() + c]
                    == UploadStep::Bundle(bs[c]) by {
                    if c < b {
                        assert(s0[large.len() + c] == UploadStep::Bundle(bs[c]));
                    }
                }
                b = b + 1;
            }
        }
    }
    proof {
        if any_large {
            let k = choose|k: int|
                0 <= k < all.len() && (#[trigger] all[k]).size >= SMALL_FILE_THRESHOLD;
            assert(!(all[k].size < SMALL_FILE_THRESHOLD));
        }
        assert(!fits_one_request(all, total as int));
        assert(is_packing(bs, arranged(rest, order)));
    }
    steps
}

/// What uploading the given paths takes, or why it cannot begin.
pub fn plan_upload(token: &str, listings: &Vec<PathListing>, max_file_size_mb: u64) -> (r: Result<
    UploadPlan,
    UploadError,
>)
    ensures
        ({
            let e = enumerated(listings@, max_file_size_mb, listings@.len() as int);
            match r {
                Ok(plan) => early_failure(token@, e) is None && is_plan(plan, e->Files_0),
                Err(err) => early_failure(token@, e) == Some(err.deep_view()),
            }
        }),
{
    if token.is_empty() {
        return Err(
            UploadError::user(
                "missing_token",
                "Project token is empty. Pass --token or set GAFFER_PROJECT_TOKEN.",
            ),
        );
    }
    let files = match enumerate_files(listings, max_file_size_mb) {
        Ok(files) => files,
        Err(e) => {
            return Err(e);
        },
    };
    let ghost all = files.deep_view();
    assert(all.len() == files@.len());
    if files.len() == 0 {
        return Err(UploadError::user("no_files", "No files found at the provided path(s)."));
    }
    let mut total: u128 = 0;
    let mut k: usize = 0;
    while k < files.len()
        invariant
            0 <= k <= files@.len(),
            all == files.deep_view(),
            all.len() == files@.len() > 0,
            token@.len() > 0,
            enumerated(listings@, max_file_size_mb, listings@.len() as int) == Enumeration::Files(
                all,
            ),
            first_too_large(all, 0) == first_too_large(all, k as int),
            total == total_size(all, k as int),
            total <= k * u64::MAX,
        decreases files@.len() - k,
    {
        assert(all[k as int] == files@[k as int].deep_view());
        if files[k].size > MAX_MPU_BYTES {
            let head = concat3(files[k].relative_path.as_str(), " is ", decimal_of(files[k].size).as_str());
            let message = concat2(head.as_str(), " bytes, exceeds the 5 GB per-object ceiling.");
            return Err(UploadError::user("file_too_large", message.as_str()));
        }
        assert(k * u64::MAX + u64::MAX == (k + 1) * u64::MAX) by (nonlinear_arith);
        assert((k + 1) * u64::MAX <= 0xffff_ffff_ffff_ffff * 0xffff_ffff_ffff_ffff)
            by (nonlinear_arith)
            requires
                k + 1 <= 0xffff_ffff_ffff_ffff,
        ;
        total = total + files[k].size as u128;
        k += 1;
    }
    let count: usize = files.len();
    let ghost given = files@;
    let steps = route(files, total);
    proof {
        assert(is_route(steps@, given, total_size(all, all.len() as int)));
        assert forall|j: int| 0 <= j < given.len() implies (#[trigger] given[j]).deep_view()
            == all[j] by {}
    }
    let plan = UploadPlan { steps, total_files: count, total_bytes: total };
    proof {
        assert(first_too_large(all, k as int) is None);
        assert(plan.total_files == all.len());
        assert(plan.total_bytes == total_size(all, all.len() as int));
        assert(is_route(plan.steps@, given, total_size(all, all.len() as int)));
        assert(is_plan(plan, all));
    }
    Ok(plan)
}

/// No request of a plan is too large: every bundle stays under the threshold, and only large files
/// go in parts.
pub proof fn routes_respect_thresholds(steps: Seq<UploadStep>, files: Seq<UploadFile>, total: int)
    requires
        is_route(steps, files, total),
        total == total_size(Seq::new(files.len(), |k: int| files[k].deep_view()), files.len() as int),
    ensures
        forall|k: int|
            0 <= k < steps.len() ==> match #[trigger] steps[k] {
                UploadStep::Multipart(f) => f.size >= SMALL_FILE_THRESHOLD,
                UploadStep::Bundle(b) => total_size(
                    Seq::new(b@.len(), |j: int| b@[j].deep_view()),
                    b@.len() as int,
                ) < SMALL_BUNDLE_TOTAL_THRESHOLD,
            },
{
    if fits_one_request(files, total) {
    } else {
        let large = only(files, true, files.len() as int);
        let small = only(files, false, files.len() as int);
        let (bundles, order) = choose|bundles: Seq<Vec<UploadFile>>, order: Seq<int>|
            is_ranking(size_keys(small), order) && #[trigger] is_packing(
                bundles,
                arranged(small, order),
            ) && steps.len() == large.len() + bundles.len() && (forall|k: int|
                0 <= k < large.len() ==> #[trigger] steps[k] == UploadStep::Multipart(large[k]))
                && (forall|b: int|
                0 <= b < bundles.len() ==> #[trigger] steps[large.len() + b] == UploadStep::Bundle(
                    bundles[b],
                ));
        only_keeps_kind(files, true, files.len() as int);
        only_keeps_kind(files, false, files.len() as int);
        let sorted = arranged(small, order);
        let plan = packed(sizes_of(sorted), sorted.len() as int);
        bundles_partition_files(sizes_of(sorted), sorted.len() as int);
        assert forall|k: int| 0 <= k < steps.len() implies match #[trigger] steps[k] {
            UploadStep::Multipart(f) => f.size >= SMALL_FILE_THRESHOLD,
            UploadStep::Bundle(b) => total_size(
                Seq::new(b@.len(), |j: int| b@[j].deep_view()),
                b@.len() as int,
            ) < SMALL_BUNDLE_TOTAL_THRESHOLD,
        } by {
            if k < large.len() {
                assert(steps[k] == UploadStep::Multipart(large[k]));
            } else {
                let b = k - large.len();
                assert(steps[large.len() + b] == UploadStep::Bundle(bundles[b]));
                bundles_stay_small(sizes_of(sorted), sorted.len() as int, b);
                let idx = plan[b];
                let v = bundles[b]@;
                assert(v == files_at(sorted, idx));
                let views = Seq::new(v.len(), |j: int| v[j].deep_view());
                assert forall|j: int| 0 <= j < idx.len() implies 0 <= #[trigger] idx[j]
                    < sorted.len() by {
                    assert(plan[b][j] == idx[j]);
                }
                bundle_sizes_agree(sorted, idx, views, idx.len() as int);
                if idx.len() == 1 {
                    assert(0 <= idx[0] < sorted.len());
                    let f = sorted[idx[0]];
                    assert(f == small[order[idx[0]]]);
                    assert(f.size < SMALL_FILE_THRESHOLD);
                    assert(idx.take(1) =~= idx);
                    assert(idx.drop_last() =~= Seq::<int>::empty());
                    reveal_with_fuel(bundle_size, 2);
                }
                assert(idx.take(idx.len() as int) =~= idx);
            }
        }
    }
}

proof fn only_keeps_kind(files: Seq<UploadFile>, large: bool, n: int)
    requires
        0 <= n <= files.len(),
    ensures
        forall|k: int|
            0 <= k < only(files, large, n).len() ==> ((#[trigger] only(files, large, n)[k]).size
                >= SMALL_FILE_THRESHOLD) == large,
    decreases n,
{
    if n > 0 {
        only_keeps_kind(files, large, n - 1);
        let prev = only(files, large, n - 1);
        let all = only(files, large, n);
        assert forall|k: int| 0 <= k < all.len() implies ((#[trigger] all[k]).size
            >= SMALL_FILE_THRESHOLD) == large by {
            if k < prev.len() {
                assert(all[k] == prev[k]);
            }
        }
    }
}

proof fn bundle_sizes_agree(
    sorted: Seq<UploadFile>,
    idx: Seq<int>,
    views: Seq<FileView>,
    n: int,
)
    requires
        0 <= n <= idx.len(),
        views.len() == idx.len(),
        forall|j: int| 0 <= j < idx.len() ==> 0 <= #[trigger] idx[j] < sorted.len(),
        forall|j: int|
            0 <= j < idx.len() ==> (#[trigger] views[j]) == sorted[idx[j]].deep_view(),
    ensures
        total_size(views, n) == bundle_size(sizes_of(sorted), idx.take(n)),
    decreases n,
{
    if n > 0 {
        bundle_sizes_agree(sorted, idx, views, n - 1);
        assert(idx.take(n).drop_last() =~= idx.take(n - 1));
        assert(idx.take(n).last() == idx[n - 1]);
        assert(views[n - 1] == sorted[idx[n - 1]].deep_view());
        assert(0 <= idx[n - 1] < sorted.len());
    }
}

// ---------------------------------------------------------------------------------------------
// Parts
// ---------------------------------------------------------------------------------------------
/// A part that the server has accepted.
pub struct UploadedPart {
    pub part_number: u32,
    pub etag: String,
}

/// The bytes of a file that make up one part: where they start and how many they are.
pub struct PartRange {
    pub offset: u64,
    pub len: u64,
}

/// How many bytes part `number`, counted from one, has.
pub open spec fn part_len(number: int, part_size: int, total: int) -> int {
    let left = total - (number - 1) * part_size;
    if left <= 0 {
        0
    } else if left < part_size {
        left
    } else {
        part_size
    }
}

/// The bytes of part `part_number`, counted from one, of a file of `total` bytes; an error where
/// it would be empty.
pub fn part_range(part_number: u64, part_size: u64, total: u64) -> (r: Result<
    PartRange,
    UploadError,
>)
    requires
        part_number >= 1,
    ensures
        match r {
            Ok(range) => {
                &&& range.len == part_len(part_number as int, part_size as int, total as int)
                &&& range.len > 0
                &&& range.offset == (part_number - 1) * part_size
                &&& range.offset + range.len <= total
            },
            Err(e) => {
                &&& part_len(part_number as int, part_size as int, total as int) == 0
                &&& e.deep_view() == failure(
                    Blame::Nobody,
                    "empty_part"@,
                    "Part "@ + decimal(part_number as nat) + " computed to zero bytes"@,
                )
            },
        },
{
    assert(0 <= (part_number - 1) * part_size <= 0xffff_ffff_ffff_ffff * 0xffff_ffff_ffff_ffff)
        by (nonlinear_arith)
        requires
            1 <= part_number <= 0xffff_ffff_ffff_ffff,
            0 <= part_size <= 0xffff_ffff_ffff_ffff,
    ;
    let offset: u128 = ((part_number - 1) as u128) * (part_size as u128);
    if offset >= total as u128 || part_size == 0 {
        let message = concat3("Part ", decimal_of(part_number).as_str(), " computed to zero bytes");
        return Err(UploadError::unexpected("empty_part", message.as_str()));
    }
    let start: u64 = offset as u64;
    let left: u64 = total - start;
    Ok(
        PartRange {
            offset: start,
            len: if left < part_size {
                left
            } else {
                part_size
            },
        },
    )
}

/// The sizes of the first `n` parts in all.
pub open spec fn parts_size(part_size: int, total: int, n: int) -> int
    decreases n,
{
    if n <= 0 {
        0
    } else {
        parts_size(part_size, total, n - 1) + part_len(n, part_size, total)
    }
}

/// The parts of a file follow one another without gap or overlap: each starts where the parts
/// before it end. When there are enough of them, they make up the whole file.
pub proof fn parts_cover_file(part_size: int, total: int, n: int)
    requires
        part_size > 0,
        total >= 0,
        n >= 0,
    ensures
        parts_size(part_size, total, n) == (if n * part_size <= total {
            n * part_size
        } else {
            total
        }),
    decreases n,
{
    if n > 0 {
        parts_cover_file(part_size, total, n - 1);
        assert(n * part_size == (n - 1) * part_size + part_size) by (nonlinear_arith);
    } else {
        assert(n * part_size == 0) by (nonlinear_arith)
            requires
                n == 0,
        ;
    }
}

/// A part under the number that this side gave it, whatever number the server answered with.
pub fn uploaded_part(part_number: u64, etag: &str) -> (r: UploadedPart)
    ensures
        r.part_number == part_number as u32,
        r.etag@ == etag@,
{
    UploadedPart {
        part_number: #[verifier::truncate]
        (part_number as u32),
        etag: etag.to_owned(),
    }
}

/// Ranking keys that put the lowest part number first.
pub open spec fn part_keys(parts: Seq<UploadedPart>) -> Seq<u128> {
    Seq::new(parts.len(), |k: int| (u32::MAX - parts[k].part_number) as u128)
}

/// The finished parts in the order of their numbers. Fails unless there are as many as planned,
/// because an incomplete list would make a corrupt file.
pub fn assemble_parts(parts: Vec<UploadedPart>, num_parts: u64) -> (r: Result<
    Vec<UploadedPart>,
    UploadError,
>)
    ensures
        match r {
            Ok(out) => parts@.len() == num_parts && exists|order: Seq<int>| #[trigger]
                is_ranking(part_keys(parts@), order) && out@ == arranged(parts@, order),
            Err(e) => parts@.len() != num_parts && e.deep_view() == failure(
                Blame::Nobody,
                "part_count_mismatch"@,
                "Expected "@ + decimal(num_parts as nat) + " parts but collected "@ + decimal(
                    parts@.len(),
                ) + " — refusing to /complete"@,
            ),
        },
{
    if parts.len() as u64 != num_parts {
        let head = concat3("Expected ", decimal_of(num_parts).as_str(), " parts but collected ");
        let message = concat3(
            head.as_str(),
            decimal_of(parts.len() as u64).as_str(),
            " — refusing to /complete",
        );
        return Err(UploadError::unexpected("part_count_mismatch", message.as_str()));
    }
    let mut keys: Vec<u128> = Vec::new();
    let mut k: usize = 0;
    while k < parts.len()
        invariant
            0 <= k <= parts@.len(),
            keys@ == part_keys(parts@).take(k as int),
        decreases parts@.len() - k,
    {
        keys.push((u32::MAX - parts[k].part_number) as u128);
        k += 1;
        assert(keys@ =~= part_keys(parts@).take(k as int));
    }
    assert(keys@ =~= part_keys(parts@));
    Ok(rank_desc(parts, keys))
}

/// Assembled parts are in ascending order of their numbers.
pub proof fn assembled_parts_ascend(parts: Seq<UploadedPart>, order: Seq<int>, a: int, b: int)
    requires
        is_ranking(part_keys(parts), order),
        0 <= a < b < order.len(),
    ensures
        arranged(parts, order)[a].part_number <= arranged(parts, order)[b].part_number,
{
    assert(precedes(part_keys(parts), order[a], order[b]));
}

// ---------------------------------------------------------------------------------------------
// Repetition
// ---------------------------------------------------------------------------------------------
/// How one attempt at a request ended.
pub enum Attempt {
    /// The server answered with this status.
    Answered(u16),
    /// There was no answer. Only failures of the connection are worth a repetition.
    Failed { retriable: bool },
}

/// What follows an attempt.
pub enum Decision {
    /// The answer is good.
    Accept,
    /// The answer, or the failure, is final.
    GiveUp,
    /// Try again after so many milliseconds.
    Repeat { delay_ms: u64 },
}

/// Whether a status says that the request succeeded.
pub open spec fn is_success(status: u16) -> bool {
    200 <= status < 300
}

/// Whether a status says that the request itself is at fault.
pub open spec fn is_client_error(status: u16) -> bool {
    400 <= status < 500
}

/// The wait after attempt number `attempt`, counted from zero.
pub open spec fn delay_after(attempt: nat) -> nat
    decreases attempt,
{
    if attempt == 0 {
        RETRY_BASE_DELAY_MS as nat
    } else {
        2 * delay_after((attempt - 1) as nat)
    }
}

/// What follows attempt number `attempt`, counted from zero: server errors and lost connections
/// are worth repeating, up to the limit.
pub open spec fn decided(attempt: nat, outcome: Attempt) -> Decision {
    let worth = match outcome {
        Attempt::Answered(status) => !is_success(status) && !is_client_error(status),
        Attempt::Failed { retriable } => retriable,
    };
    if outcome is Answered && is_success(outcome->Answered_0) {
        Decision::Accept
    } else if worth && attempt < MAX_RETRIES {
        Decision::Repeat { delay_ms: delay_after(attempt) as u64 }
    } else {
        Decision::GiveUp
    }
}

/// The wait after attempt number `attempt`, counted from zero, in milliseconds.
pub fn backoff_delay(attempt: usize) -> (r: u64)
    requires
        attempt < MAX_RETRIES,
    ensures
        r == delay_after(attempt as nat),
{
    reveal_with_fuel(delay_after, 4);
    if attempt == 0 {
        RETRY_BASE_DELAY_MS
    } else if attempt == 1 {
        2 * RETRY_BASE_DELAY_MS
    } else {
        4 * RETRY_BASE_DELAY_MS
    }
}

/// What follows attempt number `attempt`, counted from zero.
pub fn decide(attempt: usize, outcome: &Attempt) -> (r: Decision)
    ensures
        r == decided(attempt as nat, *outcome),
{
    let worth = match outcome {
        Attempt::Answered(status) => {
            if 200 <= *status && *status < 300 {
                return Decision::Accept;
            }
            !(400 <= *status && *status < 500)
        },
        Attempt::Failed { retriable } => *retriable,
    };
    if worth && attempt < MAX_RETRIES {
        Decision::Repeat { delay_ms: backoff_delay(attempt) }
    } else {
        Decision::GiveUp
    }
}

/// No request is repeated forever: after the last allowed repetition an attempt is final, and what
/// the client got wrong is never repeated.
pub proof fn repetition_ends(attempt: nat, outcome: Attempt)
    ensures
        attempt >= MAX_RETRIES ==> !(decided(attempt, outcome) is Repeat),
        outcome is Answered && is_client_error(outcome->Answered_0) ==> decided(attempt, outcome)
            is GiveUp,
        outcome is Answered && is_success(outcome->Answered_0) ==> decided(attempt, outcome)
            is Accept,
{
}

// ---------------------------------------------------------------------------------------------
// Answers
// ---------------------------------------------------------------------------------------------
/// The kind of failure that a status stands for.
pub open spec fn kind_of_status(status: u16) -> Seq<char> {
    if status >= 500 || status == 429 {
        "server_error"@
    } else if status == 401 || status == 403 {
        "auth_failed"@
    } else if status == 402 {
        "quota_exceeded"@
    } else if status == 413 {
        "file_too_large"@
    } else {
        "request_rejected"@
    }
}

/// The message in an error body: its `statusMessage`, else its `message`, where that is a text;
/// the whole body otherwise.
pub open spec fn message_in(body: Seq<char>) -> Seq<char> {
    let first = field_at(body, "/statusMessage"@);
    let chosen = if is_there(first) {
        first
    } else {
        field_at(body, "/message"@)
    };
    match text_in(chosen) {
        Some(text) => text,
        None => body,
    }
}

/// The upload session in an error body.
pub open spec fn session_in(body: Seq<char>) -> Option<Seq<char>> {
    let first = field_at(body, "/data/uploadSessionId"@);
    if is_there(first) {
        text_in(first)
    } else {
        text_in(field_at(body, "/uploadSessionId"@))
    }
}

/// The message and the upload session in an error body.
pub fn parse_error_body(body: &str) -> (r: (String, Option<String>))
    ensures
        r.0@ == message_in(body@),
        opt_text(r.1) == session_in(body@),
{
    let first = json_field(body, "/statusMessage");
    let chosen = if field_is_there(&first) {
        first
    } else {
        json_field(body, "/message")
    };
    let message = match text_of_field(&chosen) {
        Some(text) => text,
        None => body.to_owned(),
    };
    let nested = json_field(body, "/data/uploadSessionId");
    let session = if field_is_there(&nested) {
        text_of_field(&nested)
    } else {
        text_of_field(&json_field(body, "/uploadSessionId"))
    };
    (message, session)
}

/// The failure that a server's answer stands for, given the message and session in its body.
pub open spec fn rejected(
    label: Seq<char>,
    status: u16,
    ray: Option<Seq<char>>,
    message: Seq<char>,
    session: Option<Seq<char>>,
) -> Failure {
    Failure {
        blame: Blame::Server,
        kind: kind_of_status(status),
        message: label + " failed ("@ + decimal(status as nat) + "): "@ + message,
        status: Some(status),
        session,
        ray,
    }
}

/// The error that a server's answer stands for, given the message and session in its body.
pub fn server_error(
    label: &str,
    status: u16,
    ray: &Option<String>,
    message: &str,
    session: &Option<String>,
) -> (e: UploadError)
    ensures
        e.deep_view() == rejected(label@, status, opt_text(*ray), message@, opt_text(*session)),
{
    let kind = if status >= 500 || status == 429 {
        "server_error"
    } else if status == 401 || status == 403 {
        "auth_failed"
    } else if status == 402 {
        "quota_exceeded"
    } else if status == 413 {
        "file_too_large"
    } else {
        "request_rejected"
    };
    let head = concat3(label, " failed (", decimal_of(status as u64).as_str());
    let text = concat3(head.as_str(), "): ", message);
    let mut e = UploadError::server(kind, text.as_str()).with_status(status);
    if let Some(sid) = session {
        e = e.with_session(sid.as_str());
    }
    if let Some(r) = ray {
        e = e.with_ray(r.as_str());
    }
    e
}

/// The error that a server's answer stands for.
pub fn server_error_from_response(
    label: &str,
    status: u16,
    ray: &Option<String>,
    body: &str,
) -> (e: UploadError)
    ensures
        e.deep_view() == rejected(
            label@,
            status,
            opt_text(*ray),
            message_in(body@),
            session_in(body@),
        ),
{
    let (message, session) = parse_error_body(body);
    server_error(label, status, ray, message.as_str(), &session)
}

/// The error of a request that got no answer: a request that could not be built is nobody's fault
/// but the program's, anything else is the network's.
pub fn transport_error(is_builder: bool, reason: &str) -> (e: UploadError)
    ensures
        is_builder ==> e.deep_view() == failure(
            Blame::Nobody,
            "request_build"@,
            "HTTP request build failed: "@ + reason@,
        ),
        !is_builder ==> e.deep_view() == failure(
            Blame::Server,
            "network"@,
            "HTTP request failed: "@ + reason@,
        ),
{
    if is_builder {
        UploadError::unexpected(
            "request_build",
            concat2("HTTP request build failed: ", reason).as_str(),
        )
    } else {
        UploadError::server("network", concat2("HTTP request failed: ", reason).as_str())
    }
}

/// The error of a successful answer without a body: what was asked for may have happened.
pub fn empty_response_error(status: u16, body: &str) -> (r: Option<UploadError>)
    ensures
        match r {
            Some(e) => trim(body@).len() == 0 && e.deep_view() == (Failure {
                status: Some(status),
                ..failure(
                    Blame::Server,
                    "empty_response"@,
                    "Server returned "@ + decimal(status as nat)
                        + " with empty body — the operation may have succeeded; check the dashboard before retrying."@,
                )
            }),
            None => trim(body@).len() > 0,
        },
{
    if trim_chars(&chars_of(body)).len() > 0 {
        return None;
    }
    let message = concat3(
        "Server returned ",
        decimal_of(status as u64).as_str(),
        " with empty body — the operation may have succeeded; check the dashboard before retrying.",
    );
    Some(UploadError::server("empty_response", message.as_str()).with_status(status))
}

/// The failure of an answer whose body could not be read.
pub fn unreadable_body_error(status: u16, reason: &str) -> (e: UploadError)
    ensures
        e.deep_view() == (Failure {
            status: Some(status),
            ..failure(Blame::Server, "network"@, "Failed to read response body: "@ + reason@)
        }),
{
    UploadError::server("network", concat2("Failed to read response body: ", reason).as_str())
        .with_status(status)
}

/// The failure of an answer that makes no sense.
pub fn bad_response_error(reason: &str, body: &str) -> (e: UploadError)
    ensures
        e.deep_view() == failure(
            Blame::Nobody,
            "bad_response"@,
            "Server returned unparseable JSON: "@ + reason@ + " (body: "@ + body@ + ")"@,
        ),
{
    let head = concat3("Server returned unparseable JSON: ", reason, " (body: ");
    UploadError::unexpected("bad_response", concat3(head.as_str(), body, ")").as_str())
}

// ---------------------------------------------------------------------------------------------
// Outcome
// ---------------------------------------------------------------------------------------------
/// An upload session, as the server describes it.
pub struct SessionRef {
    pub id: String,
    pub project_id: Option<String>,
    pub processing_status: Option<String>,
}

/// The server's answer to a finished request.
pub struct ServerUploadResponse {
    pub upload_session: SessionRef,
    pub test_run: Option<SessionRef>,
}

/// How an upload ended.
pub struct UploadOutcome {
    pub upload_session_id: String,
    pub project_id: Option<String>,
    pub files_uploaded: usize,
    pub bytes_uploaded: u128,
    pub elapsed_ms: u128,
    /// The answers, in the order of the requests.
    pub responses: Vec<ServerUploadResponse>,
}

/// Sums an upload up. Its session and project are those of the first answer.
pub fn summarize(
    responses: Vec<ServerUploadResponse>,
    total_files: usize,
    total_bytes: u128,
    elapsed_ms: u128,
) -> (r: UploadOutcome)
    ensures
        r.responses == responses,
        r.files_uploaded == total_files,
        r.bytes_uploaded == total_bytes,
        r.elapsed_ms == elapsed_ms,
        responses@.len() == 0 ==> r.upload_session_id@.len() == 0 && r.project_id is None,
        responses@.len() > 0 ==> r.upload_session_id@ == responses@[0].upload_session.id@
            && opt_text(r.project_id) == opt_text(responses@[0].upload_session.project_id),
{
    let mut id = String::new();
    let mut project: Option<String> = None;
    if responses.len() > 0 {
        let first = &responses[0].upload_session;
        id = first.id.clone();
        if let Some(p) = &first.project_id {
            project = Some(p.clone());
        }
    }
    UploadOutcome {
        upload_session_id: id,
        project_id: project,
        files_uploaded: total_files,
        bytes_uploaded: total_bytes,
        elapsed_ms,
        responses,
    }
}

} // verus!

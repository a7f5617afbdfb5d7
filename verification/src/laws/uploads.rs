//! The limits of uploads, in numbers.
use vstd::prelude::*;

use crate::transfer::{
    decided, delay_after, first_too_large, is_route, kind_of_status, only, part_len, Attempt,
    Decision, UploadStep,
};
use crate::upload::{FileView, UploadFile};

verus! {

/// Up to 90 megabytes a file, and 200 megabytes in all, everything goes in one request.
pub proof fn small_uploads_take_one_request(
    steps: Seq<UploadStep>,
    files: Seq<UploadFile>,
    total: int,
)
    requires
        is_route(steps, files, total),
        total < 200 * 1024 * 1024,
        forall|k: int| 0 <= k < files.len() ==> (#[trigger] files[k]).size < 90 * 1024 * 1024,
    ensures
        steps.len() == 1,
        steps[0] is Bundle,
        steps[0]->Bundle_0@ == files,
{
}

proof fn large_files_are_kept(files: Seq<UploadFile>, n: int, i: int)
    requires
        0 <= i < n <= files.len(),
        files[i].size >= 90 * 1024 * 1024,
    ensures
        only(files, true, n).contains(files[i]),
    decreases n,
{
    let rest = only(files, true, n - 1);
    let all = only(files, true, n);
    if i < n - 1 {
        large_files_are_kept(files, n - 1, i);
        let k = choose|k: int| 0 <= k < rest.len() && rest[k] == files[i];
        assert(all[k] == files[i]);
    } else {
        assert(all[rest.len() as int] == files[i]);
    }
}

/// A file of 90 megabytes or more goes in parts.
pub proof fn large_files_go_in_parts(
    steps: Seq<UploadStep>,
    files: Seq<UploadFile>,
    total: int,
    i: int,
)
    requires
        is_route(steps, files, total),
        0 <= i < files.len(),
        files[i].size >= 90 * 1024 * 1024,
    ensures
        exists|k: int| 0 <= k < steps.len() && #[trigger] steps[k] == UploadStep::Multipart(files[i]),
{
    large_files_are_kept(files, files.len() as int, i);
    let large = only(files, true, files.len() as int);
    let k = choose|k: int| 0 <= k < large.len() && large[k] == files[i];
    assert(!(files[i].size < 90 * 1024 * 1024));
    assert(steps[k] == UploadStep::Multipart(large[k]));
}

/// A file of more than 5 gigabytes is too large for any upload, and the first such file is found.
pub proof fn huge_files_are_refused(files: Seq<FileView>, k: int)
    requires
        0 <= k <= files.len(),
    ensures
        match first_too_large(files, k) {
            Some(i) => {
                &&& k <= i < files.len()
                &&& files[i].size > 5 * 1024 * 1024 * 1024
                &&& forall|j: int|
                    k <= j < i ==> (#[trigger] files[j]).size <= 5 * 1024 * 1024 * 1024
            },
            None => forall|j: int|
                k <= j < files.len() ==> (#[trigger] files[j]).size <= 5 * 1024 * 1024 * 1024,
        },
    decreases files.len() - k,
{
    if k < files.len() {
        huge_files_are_refused(files, k + 1);
    }
}

/// A request is repeated three times at most, after one, two and four seconds, and only where the
/// server failed or the connection was lost.
pub proof fn requests_are_repeated_three_times(attempt: nat, status: u16, retriable: bool)
    ensures
        200 <= status < 300 ==> decided(attempt, Attempt::Answered(status)) is Accept,
        400 <= status < 500 ==> decided(attempt, Attempt::Answered(status)) is GiveUp,
        status >= 500 && attempt == 0 ==> decided(attempt, Attempt::Answered(status)) == (
        Decision::Repeat { delay_ms: 1000 }),
        status >= 500 && attempt == 1 ==> decided(attempt, Attempt::Answered(status)) == (
        Decision::Repeat { delay_ms: 2000 }),
        status >= 500 && attempt == 2 ==> decided(attempt, Attempt::Answered(status)) == (
        Decision::Repeat { delay_ms: 4000 }),
        status >= 500 && attempt >= 3 ==> decided(attempt, Attempt::Answered(status)) is GiveUp,
        retriable && attempt == 0 ==> decided(attempt, Attempt::Failed { retriable }) == (
        Decision::Repeat { delay_ms: 1000 }),
        retriable && attempt >= 3 ==> decided(attempt, Attempt::Failed { retriable }) is GiveUp,
        !retriable ==> decided(attempt, Attempt::Failed { retriable }) is GiveUp,
{
    reveal_with_fuel(delay_after, 4);
}

/// What a refusal is called depends on its status.
pub proof fn refusals_are_named(status: u16)
    ensures
        status >= 500 || status == 429 ==> kind_of_status(status) == "server_error"@,
        status == 401 || status == 403 ==> kind_of_status(status) == "auth_failed"@,
        status == 402 ==> kind_of_status(status) == "quota_exceeded"@,
        status == 413 ==> kind_of_status(status) == "file_too_large"@,
        status == 400 || status == 404 || status == 422 ==> kind_of_status(status)
            == "request_rejected"@,
{
}

/// All parts of a file but the last have the full size, and the last one has the rest.
pub proof fn parts_have_the_full_size(number: int, part_size: int, total: int)
    requires
        number >= 1,
        part_size > 0,
    ensures
        number * part_size <= total ==> part_len(number, part_size, total) == part_size,
        (number - 1) * part_size < total < number * part_size ==> part_len(
            number,
            part_size,
            total,
        ) == total - (number - 1) * part_size,
        total <= (number - 1) * part_size ==> part_len(number, part_size, total) == 0,
{
    assert(number * part_size == (number - 1) * part_size + part_size) by (nonlinear_arith);
}

} // verus!

//! How a login in the browser comes to an end.
use vstd::prelude::*;

use crate::auth::{
    errors_after_all, is_retryable, judged_poll, ms_of, shown_code, DeviceCredential, HttpReply,
    PollView,
};
use crate::text::decimal;

verus! {

proof fn failures_add_up(errors: nat, outcomes: Seq<PollView>)
    requires
        errors < 5,
        forall|k: int| 0 <= k < outcomes.len() ==> #[trigger] outcomes[k] is Transient,
    ensures
        errors + outcomes.len() < 5 ==> errors_after_all(errors, outcomes) == Some(
            errors + outcomes.len(),
        ),
        errors + outcomes.len() >= 5 ==> errors_after_all(errors, outcomes) is None,
    decreases outcomes.len(),
{
    if outcomes.len() > 0 {
        assert(outcomes[0] is Transient);
        let rest = outcomes.drop_first();
        assert forall|k: int| 0 <= k < rest.len() implies #[trigger] rest[k] is Transient by {
            assert(outcomes[k + 1] is Transient);
        }
        if errors + 1 < 5 {
            failures_add_up(errors + 1, rest);
        }
    }
}

/// The fifth failure in a row ends a login, and no earlier one does.
pub proof fn five_failures_end_a_login(outcomes: Seq<PollView>)
    requires
        forall|k: int| 0 <= k < outcomes.len() ==> #[trigger] outcomes[k] is Transient,
    ensures
        errors_after_all(0, outcomes) is None <==> outcomes.len() >= 5,
{
    failures_add_up(0, outcomes);
}

/// What a refused poll means goes by the name of the error: waiting and slowing down go on, a
/// login that expired or was denied is over, and of the others those that the server is to blame
/// for may pass. Without a name any refusal may pass.
pub proof fn refusals_are_told_apart(h: HttpReply<DeviceCredential>)
    requires
        h.status < 200 || 300 <= h.status,
    ensures
        h.error is None ==> judged_poll(h) == PollView::Transient(
            "HTTP "@ + decimal(h.status as nat),
        ),
        h.error is Some && h.error->0.error@ == "authorization_pending"@ ==> judged_poll(h)
            == PollView::Pending,
        h.error is Some && h.error->0.error@ == "slow_down"@ ==> judged_poll(h)
            == PollView::SlowDown,
        h.error is Some && (h.error->0.error@ == "expired_token"@ || h.error->0.error@
            == "access_denied"@) ==> judged_poll(h) is Terminal,
        h.error is Some && h.error->0.error@ != "authorization_pending"@ && h.error->0.error@
            != "slow_down"@ && h.error->0.error@ != "expired_token"@ && h.error->0.error@
            != "access_denied"@ ==> (judged_poll(h) is Transient <==> h.status >= 500) && (
        judged_poll(h) is Terminal <==> h.status < 500),
{
    reveal_strlit("authorization_pending");
    reveal_strlit("slow_down");
    reveal_strlit("expired_token");
    reveal_strlit("access_denied");
    assert("authorization_pending"@.len() == 21);
    assert("slow_down"@.len() == 9);
    assert("expired_token"@.len() == 13 && "access_denied"@.len() == 13);
    assert("expired_token"@[0] == 'e' && "access_denied"@[0] == 'a');
}

/// A poll succeeds exactly where the server answers with a credential and a status from 200 to 299.
pub proof fn credentials_end_a_login(h: HttpReply<DeviceCredential>)
    ensures
        judged_poll(h) is Granted <==> 200 <= h.status && h.status < 300 && h.value is Ok,
        200 <= h.status && h.status < 300 && h.value is Err ==> judged_poll(h) is Terminal,
{
}

/// A refused exchange is repeated where there were too many requests or the server failed.
pub proof fn exchanges_are_repeated(status: u16)
    ensures
        is_retryable(status) <==> status == 429 || status == 500,
{
}

/// The user compares at most six characters of a session's code, and those are its end.
pub proof fn codes_are_shown_from_their_end(head: Seq<char>, end: Seq<char>)
    ensures
        end.len() == 6 ==> shown_code(head + end) == end,
        end.len() < 6 ==> shown_code(end) == end,
{
    if end.len() == 6 {
        assert((head + end).skip(head.len() as int) =~= end);
    }
}

/// A second has a thousand milliseconds, as long as they can be counted.
pub proof fn seconds_are_counted(seconds: u64)
    ensures
        seconds <= 18_446_744_073_709_551 ==> ms_of(seconds) == 1000 * seconds,
        seconds > 18_446_744_073_709_551 ==> ms_of(seconds) == u64::MAX,
{
}

} // verus!

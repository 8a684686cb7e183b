use vstd::prelude::*;
use crate::clock::{date_of, now_utc};
use crate::models::{RequestStats, RequestStatsView};
use crate::text::str_eq;

verus! {

/// The counters after a request arrives on `today`: a new day starts them again from
/// zero; then the request is counted, and the peak follows the current concurrency.
pub open spec fn started(s: RequestStatsView, today: Seq<char>) -> RequestStatsView {
    let base = if s.today_date != today {
        RequestStatsView {
            today_date: today,
            total_requests: 0,
            error_requests: 0,
            peak_concurrency: 0,
            current_concurrency: 0,
            data_transfer_bytes: 0,
        }
    } else {
        s
    };
    let cur = (base.current_concurrency + 1) as u64;
    RequestStatsView {
        total_requests: (base.total_requests + 1) as u64,
        current_concurrency: cur,
        peak_concurrency: if cur > base.peak_concurrency { cur } else { base.peak_concurrency },
        ..base
    }
}

/// The counters after a request finishes with HTTP status `status`: one request fewer is
/// running (never below zero), and a status of 400 or more counts as an error.
pub open spec fn finished(s: RequestStatsView, status: u16) -> RequestStatsView {
    RequestStatsView {
        current_concurrency: if s.current_concurrency > 0 { (s.current_concurrency - 1) as u64 } else { 0 },
        error_requests: if status >= 400 { (s.error_requests + 1) as u64 } else { s.error_requests },
        ..s
    }
}

/// Counts a request that arrives on `today` (a `YYYY-MM-DD` date).
pub fn begin_request_on(stats: &mut RequestStats, today: &str)
    requires
        old(stats).today_date@ == today@ ==> old(stats).total_requests < u64::MAX && old(stats).current_concurrency
            < u64::MAX,
    ensures
        final(stats)@ == started(old(stats)@, today@),
{
    if !str_eq(stats.today_date.as_str(), today) {
        stats.today_date = today.to_string();
        stats.total_requests = 0;
        stats.error_requests = 0;
        stats.peak_concurrency = 0;
        stats.current_concurrency = 0;
        stats.data_transfer_bytes = 0;
    }
    stats.total_requests = stats.total_requests + 1;
    stats.current_concurrency = stats.current_concurrency + 1;
    if stats.current_concurrency > stats.peak_concurrency {
        stats.peak_concurrency = stats.current_concurrency;
    }
}

/// Whether a request arriving on `today` can be counted: on the day already being
/// counted, both the total and the current concurrency must have room for one more.
pub open spec fn can_start(s: RequestStatsView, today: Seq<char>) -> bool {
    s.today_date == today ==> s.total_requests < u64::MAX && s.current_concurrency < u64::MAX
}

/// Counts a request that arrives now, on the current UTC date, and gives `true`; when
/// the counters of that date have no room for one more, they are left as they are and
/// `false` is given.
pub fn begin_request(stats: &mut RequestStats) -> (counted: bool)
    ensures
        exists|secs: i64| {
            &&& counted == can_start(old(stats)@, #[trigger] date_of(secs))
            &&& counted ==> final(stats)@ == started(old(stats)@, date_of(secs))
            &&& !counted ==> final(stats)@ == old(stats)@
        },
{
    let now = now_utc();
    let same_day = str_eq(stats.today_date.as_str(), now.date.as_str());
    if same_day && (stats.total_requests == u64::MAX || stats.current_concurrency == u64::MAX) {
        assert(!can_start(old(stats)@, date_of(now.secs)));
        return false;
    }
    begin_request_on(stats, now.date.as_str());
    assert(can_start(old(stats)@, date_of(now.secs)));
    true
}

/// Records that a request finished with HTTP status `status`.
pub fn end_request(stats: &mut RequestStats, status: u16)
    requires
        status >= 400 ==> old(stats).error_requests < u64::MAX,
    ensures
        final(stats)@ == finished(old(stats)@, status),
{
    stats.current_concurrency = stats.current_concurrency.saturating_sub(1);
    if status >= 400 {
        stats.error_requests = stats.error_requests + 1;
    }
}

/// The credential in an `Authorization` header value: what follows `Bearer `.
pub open spec fn bearer_token(value: Option<Seq<char>>) -> Option<Seq<char>> {
    match value {
        Some(v) => if v.len() >= 7 && v.take(7) == "Bearer "@ {
            Some(v.skip(7))
        } else {
            None
        },
        None => None,
    }
}

/// The credential a request carries, given the value of its `Authorization` header
/// (none when the header is missing or is not visible ASCII text).
pub fn auth_header(authorization: Option<&str>) -> (r: Option<String>)
    ensures
        match authorization {
            Some(v) => crate::handlers::admin::opt_text(r) == bearer_token(Some(v@)),
            None => r is None,
        },
{
    match authorization {
        None => None,
        Some(v) => {
            let cs = crate::text::chars_of(v);
            let prefix = crate::text::chars_of("Bearer ");
            proof {
                reveal_strlit("Bearer ");
            }
            if cs.len() < 7 {
                return None;
            }
            let mut i: usize = 0;
            while i < 7
                invariant
                    0 <= i <= 7,
                    cs@ == v@,
                    cs@.len() >= 7,
                    prefix@ == "Bearer "@,
                    prefix@.len() == 7,
                    authorization == Some(v),
                    forall|k: int| 0 <= k < i ==> cs@[k] == prefix@[k],
                decreases 7 - i,
            {
                if cs[i] != prefix[i] {
                    assert(v@.take(7)[i as int] != "Bearer "@[i as int]);
                    assert(v@.take(7) != "Bearer "@);
                    return None;
                }
                i = i + 1;
            }
            assert(v@.take(7) =~= "Bearer "@);
            let mut out: Vec<char> = Vec::new();
            let mut j: usize = 7;
            while j < cs.len()
                invariant
                    7 <= j <= cs@.len(),
                    out@ == cs@.subrange(7, j as int),
                decreases cs@.len() - j,
            {
                out.push(cs[j]);
                assert(out@ =~= cs@.subrange(7, j + 1));
                j = j + 1;
            }
            assert(cs@.subrange(7, cs@.len() as int) =~= v@.skip(7));
            Some(crate::text::string_from_chars(&out))
        },
    }
}

} // verus!

use vstd::prelude::*;
use crate::clock::{minute_label_at, minute_label_of, now_utc, shift, shifted, unix_nanos};
use crate::handlers::admin::opt_text;
use crate::models::{Group, seq_views};
use crate::seqs::{insert_pos, lemma_first_index_at, lemma_stable_sort_push, stable_sort};
use crate::text::{decimal, seq_lt, str_lt, u64_to_decimal};

verus! {

broadcast use vstd::string::group_string_axioms;

/// What the health check reports.
#[derive(Debug)]
pub struct HealthReport {
    pub version: String,
    pub lan_users: usize,
    pub lan_groups: usize,
}

/// Reports the service version and how many LAN groups exist; LAN users are not counted.
pub fn health_check(groups: &Vec<Group>) -> (r: HealthReport)
    ensures
        r.version@ == "1.0.0"@,
        r.lan_users == 0,
        r.lan_groups == groups@.len(),
{
    HealthReport { version: "1.0.0".to_string(), lan_users: 0, lan_groups: groups.len() }
}

/// Whole days and the hours left over in `secs` seconds.
pub fn uptime_days_hours(secs: u64) -> (r: (u64, u64))
    ensures
        r.0 == secs / 86400,
        r.1 == (secs % 86400) / 3600,
{
    (secs / 86400, (secs % 86400) / 3600)
}

/// The days and hours of [`uptime_days_hours`], taken of the seconds since the Unix epoch.
pub fn server_uptime() -> (r: (u64, u64))
    ensures
        exists|secs: u64| r == (#[trigger] (secs / 86400), (secs % 86400) / 3600),
{
    let nanos = unix_nanos();
    let secs128 = nanos / 1_000_000_000;
    let secs: u64 = if secs128 > 0xffff_ffff_ffff_ffffu128 { 0xffff_ffff_ffff_ffffu64 } else { secs128 as u64 };
    uptime_days_hours(secs)
}

/// `num_cpus::get`: the number of CPUs the process may use, at least one as the crate
/// documents. The count depends on the machine.
#[verifier::external_body]
fn cpu_cores() -> (r: usize)
    ensures
        r >= 1,
{
    num_cpus::get()
}

/// The process count the status report estimates from `cores` CPUs: ten per core and five more.
pub fn process_count(cores: u64) -> (r: u64)
    requires
        cores * 10 + 5 <= u64::MAX,
    ensures
        r == cores * 10 + 5,
{
    cores * 10 + 5
}

/// The process estimate for `cores` CPUs, when it fits in 64 bits.
pub open spec fn process_estimate_of(cores: usize) -> Option<u64> {
    if cores * 10 + 5 <= u64::MAX {
        Some((cores * 10 + 5) as u64)
    } else {
        None
    }
}

/// The process estimate for `cores` CPUs: [`process_count`] where it fits in 64 bits,
/// nothing where it does not.
pub fn process_estimate(cores: usize) -> (r: Option<u64>)
    ensures
        r == process_estimate_of(cores),
{
    if cores as u128 > 1_844_674_407_370_955_161u128 {
        return None;
    }
    let c: u64 = cores as u64;
    Some(process_count(c))
}

/// The estimated process count of this machine: [`process_estimate`] of the CPU count
/// that `num_cpus` reports, which is at least one.
pub fn server_process_count() -> (r: Option<u64>)
    ensures
        exists|c: usize| c >= 1 && r == #[trigger] process_estimate_of(c),
{
    let cores = cpu_cores();
    process_estimate(cores)
}

/// An entry of the event log.
#[derive(Debug)]
pub struct Event {
    pub time: String,
    pub kind: String,
    pub description: String,
    pub level: String,
}

/// The value of an [`Event`] with its strings taken as character sequences.
pub struct EventView {
    pub time: Seq<char>,
    pub kind: Seq<char>,
    pub description: Seq<char>,
    pub level: Seq<char>,
}

impl View for Event {
    type V = EventView;

    open spec fn view(&self) -> EventView {
        EventView { time: self.time@, kind: self.kind@, description: self.description@, level: self.level@ }
    }
}

/// The moments the event log speaks of, as `YYYY-MM-DD HH:MM` labels.
#[derive(Debug)]
pub struct EventTimes {
    pub one_hour_ago: String,
    pub two_hours_ago: String,
    pub six_hours_ago: String,
    pub one_day_ago: String,
}

/// The moments the event log speaks of for a clock reading of `secs`: one hour, two
/// hours, six hours and one day earlier, each as a `YYYY-MM-DD HH:MM` label.
pub fn event_times_at(secs: i64) -> (r: EventTimes)
    ensures
        r.one_hour_ago@ == minute_label_of(shifted(secs, -3600int)),
        r.two_hours_ago@ == minute_label_of(shifted(secs, -7200int)),
        r.six_hours_ago@ == minute_label_of(shifted(secs, -21600int)),
        r.one_day_ago@ == minute_label_of(shifted(secs, -86400int)),
{
    EventTimes {
        one_hour_ago: minute_label_at(shift(secs, -3600)),
        two_hours_ago: minute_label_at(shift(secs, -7200)),
        six_hours_ago: minute_label_at(shift(secs, -21600)),
        one_day_ago: minute_label_at(shift(secs, -86400)),
    }
}

/// An event entry.
pub open spec fn event(time: Seq<char>, kind: Seq<char>, description: Seq<char>, level: Seq<char>) -> EventView {
    EventView { time, kind, description, level }
}

/// The text of the error event for `n` failed requests.
pub open spec fn error_text(n: u64) -> Seq<char> {
    "累计 "@ + decimal(n as nat) + " 个错误请求"@
}

/// The events in the order they are recorded: three routine entries, a CPU warning when
/// one is given, and an error entry when more than five requests failed.
pub open spec fn raw_events(
    hour1: Seq<char>,
    hour2: Seq<char>,
    hour6: Seq<char>,
    day1: Seq<char>,
    cpu_alert: Option<Seq<char>>,
    error_requests: u64,
) -> Seq<EventView> {
    let base = seq![
        event(hour2, "系统信息"@, "服务器运行正常"@, "info"@),
        event(hour6, "服务启动"@, "服务启动完成"@, "info"@),
        event(day1, "备份完成"@, "每日数据备份成功"@, "info"@),
    ];
    let with_cpu = match cpu_alert {
        Some(d) => base.push(event(hour2, "CPU峰值"@, d, "warning"@)),
        None => base,
    };
    if error_requests > 5 {
        with_cpu.push(event(hour1, "错误异常"@, error_text(error_requests), "error"@))
    } else {
        with_cpu
    }
}

/// Later times first: `a` goes before `b` when its label sorts after `b`'s.
pub open spec fn later_first() -> spec_fn(EventView, EventView) -> bool {
    |a: EventView, b: EventView| seq_lt(b.time, a.time)
}

fn insert_later_first(v: &mut Vec<Event>, x: Event)
    ensures
        seq_views(final(v)@) == seq_views(old(v)@).insert(insert_pos(seq_views(old(v)@), x@, later_first()), x@),
{
    let ghost s = seq_views(v@);
    let ghost xv = x@;
    let ghost p = |y: EventView| later_first()(xv, y);
    let mut j: usize = 0;
    while j < v.len() && !str_lt(v[j].time.as_str(), x.time.as_str())
        invariant
            0 <= j <= v@.len(),
            s == seq_views(v@),
            xv == x@,
            p == (|y: EventView| later_first()(xv, y)),
            forall|k: int| 0 <= k < j ==> !p(#[trigger] s[k]),
        decreases v@.len() - j,
    {
        j = j + 1;
    }
    proof {
        lemma_first_index_at(s, p, j as int);
    }
    v.insert(j, x);
    assert(seq_views(v@) =~= s.insert(j as int, xv));
}

fn make_event(time: &String, kind: &str, description: String, level: &str) -> (r: Event)
    ensures
        r@ == event(time@, kind@, description@, level@),
{
    Event { time: time.clone(), kind: kind.to_string(), description, level: level.to_string() }
}

/// The event log at the given moments, latest first (a stable sort by time label).
/// `cpu_alert` is the text of the CPU warning when the CPU load is high.
pub fn events_at(times: &EventTimes, cpu_alert: Option<String>, error_requests: u64) -> (r: Vec<Event>)
    ensures
        seq_views(r@) == stable_sort(
            raw_events(
                times.one_hour_ago@,
                times.two_hours_ago@,
                times.six_hours_ago@,
                times.one_day_ago@,
                opt_text(cpu_alert),
                error_requests,
            ),
            later_first(),
        ),
{
    let ghost alert = opt_text(cpu_alert);
    let ghost raw = raw_events(
        times.one_hour_ago@,
        times.two_hours_ago@,
        times.six_hours_ago@,
        times.one_day_ago@,
        alert,
        error_requests,
    );
    let ghost lt = later_first();
    let mut out: Vec<Event> = Vec::new();
    assert(seq_views(out@) =~= stable_sort(Seq::<EventView>::empty(), lt));
    let e1 = make_event(&times.two_hours_ago, "系统信息", "服务器运行正常".to_string(), "info");
    let ghost v1 = e1@;
    insert_later_first(&mut out, e1);
    proof {
        lemma_stable_sort_push(Seq::<EventView>::empty(), v1, lt);
        assert(Seq::<EventView>::empty().push(v1) =~= seq![v1]);
    }
    let e2 = make_event(&times.six_hours_ago, "服务启动", "服务启动完成".to_string(), "info");
    let ghost v2 = e2@;
    insert_later_first(&mut out, e2);
    proof {
        lemma_stable_sort_push(seq![v1], v2, lt);
        assert(seq![v1].push(v2) =~= seq![v1, v2]);
    }
    let e3 = make_event(&times.one_day_ago, "备份完成", "每日数据备份成功".to_string(), "info");
    let ghost v3 = e3@;
    insert_later_first(&mut out, e3);
    let ghost base = seq![v1, v2, v3];
    proof {
        lemma_stable_sort_push(seq![v1, v2], v3, lt);
        assert(seq![v1, v2].push(v3) =~= base);
        assert(stable_sort(base, lt) == seq_views(out@));
    }
    let ghost with_cpu = match alert {
        Some(d) => base.push(event(times.two_hours_ago@, "CPU峰值"@, d, "warning"@)),
        None => base,
    };
    match cpu_alert {
        Some(d) => {
            let e4 = make_event(&times.two_hours_ago, "CPU峰值", d, "warning");
            let ghost v4 = e4@;
            insert_later_first(&mut out, e4);
            proof {
                lemma_stable_sort_push(base, v4, lt);
            }
        },
        None => {},
    }
    assert(stable_sort(with_cpu, lt) == seq_views(out@));
    if error_requests > 5 {
        let count = u64_to_decimal(error_requests);
        let text = "累计 ".to_string().concat(count.as_str()).concat(" 个错误请求");
        let e5 = make_event(&times.one_hour_ago, "错误异常", text, "error");
        let ghost v5 = e5@;
        insert_later_first(&mut out, e5);
        proof {
            lemma_stable_sort_push(with_cpu, v5, lt);
        }
    }
    out
}

/// The event log as of now: [`events_at`] at the moments of [`event_times_at`] for the
/// current clock reading.
pub fn events(cpu_alert: Option<String>, error_requests: u64) -> (r: Vec<Event>)
    ensures
        exists|secs: i64|
            seq_views(r@) == #[trigger] stable_sort(
                raw_events(
                    minute_label_of(shifted(secs, -3600int)),
                    minute_label_of(shifted(secs, -7200int)),
                    minute_label_of(shifted(secs, -21600int)),
                    minute_label_of(shifted(secs, -86400int)),
                    opt_text(cpu_alert),
                    error_requests,
                ),
                later_first(),
            ),
{
    let now = now_utc();
    let times = event_times_at(now.secs);
    events_at(&times, cpu_alert, error_requests)
}

} // verus!

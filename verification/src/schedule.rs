use vstd::prelude::*;

use crate::clock::{local_now, local_time_of, time_in_range, utc_now_secs};
use crate::cron::{
    expr_field, expr_overflows, field_max, field_min, field_spec, first_field_error,
    parse_outcome, CronError, CronExpr, CronTime,
};
use crate::tasks::{decimal, decimal_string, str_views};
use crate::text::{copy_str, push_str, split_ws_spec, str_eq};

verus! {

// ---------------------------------------------------------------------------
// When an expression fires
// ---------------------------------------------------------------------------

/// Field `i` of a point in time (0 = minute, ..., 4 = day of week).
pub open spec fn time_field(t: CronTime, i: int) -> u32 {
    if i == 0 {
        t.minute
    } else if i == 1 {
        t.hour
    } else if i == 2 {
        t.day
    } else if i == 3 {
        t.month
    } else {
        t.weekday
    }
}

/// The expression text parses, and each of its five fields admits the
/// matching field of `t`.
pub open spec fn expr_fires(e: Seq<char>, t: CronTime) -> bool {
    let fields = split_ws_spec(e);
    &&& !expr_overflows(e)
    &&& fields.len() == 5
    &&& first_field_error(fields, 5) is None
    &&& forall|i: int|
        0 <= i < 5 ==> (#[trigger] field_spec(fields[i], field_min(i), field_max(i)))->Ok_0.contains(
            time_field(t, i),
        )
}

/// Whether the cron expression `e` parses and matches `t`. An expression
/// whose stepped values would count past `u32::MAX` is taken as not matching.
pub fn expr_text_fires(e: &str, t: &CronTime) -> (b: bool)
    ensures
        b == expr_fires(e@, *t),
{
    if CronExpr::parse_would_overflow(e) {
        return false;
    }
    match CronExpr::parse(e) {
        Ok(c) => {
            let b = c.matches(t);
            proof {
                let fields = split_ws_spec(e@);
                assert(parse_outcome(e@, Ok::<CronExpr, CronError>(c)));
                assert(fields.len() == 5);
                assert(expr_field(c, 0) == c.minutes@);
                assert(expr_field(c, 1) == c.hours@);
                assert(expr_field(c, 2) == c.days_of_month@);
                assert(expr_field(c, 3) == c.months@);
                assert(expr_field(c, 4) == c.days_of_week@);
                if b {
                    assert forall|i: int| 0 <= i < 5 implies (#[trigger] field_spec(
                        fields[i],
                        field_min(i),
                        field_max(i),
                    ))->Ok_0.contains(time_field(*t, i)) by {
                        assert(expr_field(c, i).contains(time_field(*t, i)));
                    }
                } else {
                    let i: int = if !c.minutes@.contains(t.minute) {
                        0
                    } else if !c.hours@.contains(t.hour) {
                        1
                    } else if !c.days_of_month@.contains(t.day) {
                        2
                    } else if !c.months@.contains(t.month) {
                        3
                    } else {
                        4
                    };
                    assert(!expr_field(c, i).contains(time_field(*t, i)));
                    assert(!field_spec(fields[i], field_min(i), field_max(i))->Ok_0.contains(
                        time_field(*t, i),
                    ));
                }
            }
            b
        },
        Err(_) => false,
    }
}

/// The expression text has five fields and each of them parses.
pub open spec fn expr_valid(e: Seq<char>) -> bool {
    split_ws_spec(e).len() == 5 && first_field_error(split_ws_spec(e), 5) is None
}

// ---------------------------------------------------------------------------
// Jobs
// ---------------------------------------------------------------------------

/// A scheduled prompt. Times are seconds since the Unix epoch.
pub struct CronJob {
    pub id: String,
    pub cron_expr: String,
    pub prompt: String,
    pub recurring: bool,
    pub durable: bool,
    pub created_at: u64,
    pub last_fired: Option<u64>,
    pub expires_at: u64,
}

/// A job as plain values.
pub struct JobModel {
    pub id: Seq<char>,
    pub cron_expr: Seq<char>,
    pub prompt: Seq<char>,
    pub recurring: bool,
    pub durable: bool,
    pub created_at: u64,
    pub last_fired: Option<u64>,
    pub expires_at: u64,
}

pub open spec fn job_model(j: CronJob) -> JobModel {
    JobModel {
        id: j.id@,
        cron_expr: j.cron_expr@,
        prompt: j.prompt@,
        recurring: j.recurring,
        durable: j.durable,
        created_at: j.created_at,
        last_fired: j.last_fired,
        expires_at: j.expires_at,
    }
}

pub open spec fn job_models(js: Seq<CronJob>) -> Seq<JobModel> {
    Seq::new(js.len(), |i: int| job_model(js[i]))
}

impl CronJob {
    /// A copy of the job.
    pub fn duplicate(&self) -> (r: CronJob)
        ensures
            job_model(r) == job_model(*self),
    {
        CronJob {
            id: copy_str(self.id.as_str()),
            cron_expr: copy_str(self.cron_expr.as_str()),
            prompt: copy_str(self.prompt.as_str()),
            recurring: self.recurring,
            durable: self.durable,
            created_at: self.created_at,
            last_fired: self.last_fired,
            expires_at: self.expires_at,
        }
    }
}

/// No two jobs share an id.
pub open spec fn ids_distinct(s: Seq<JobModel>) -> bool {
    forall|i: int, j: int| 0 <= i < j < s.len() ==> s[i].id != s[j].id
}

/// Some job has the id.
pub open spec fn has_id(s: Seq<JobModel>, id: Seq<char>) -> bool {
    exists|i: int| 0 <= i < s.len() && #[trigger] s[i].id == id
}

/// The jobs, in order, without the one with the id.
pub open spec fn without_id(s: Seq<JobModel>, id: Seq<char>) -> Seq<JobModel>
    decreases s.len(),
{
    if s.len() == 0 {
        s
    } else {
        let r = without_id(s.drop_last(), id);
        if s.last().id == id {
            r
        } else {
            r.push(s.last())
        }
    }
}

proof fn lemma_without_absent(s: Seq<JobModel>, id: Seq<char>)
    requires
        !has_id(s, id),
    ensures
        without_id(s, id) == s,
    decreases s.len(),
{
    if s.len() > 0 {
        assert(!has_id(s.drop_last(), id)) by {
            if has_id(s.drop_last(), id) {
                let i = choose|i: int| 0 <= i < s.drop_last().len() && #[trigger] s.drop_last()[i].id == id;
                assert(s[i].id == id);
            }
        }
        lemma_without_absent(s.drop_last(), id);
        assert(s.last().id != id) by {
            assert(s[s.len() - 1].id == s.last().id);
        }
        assert(s.drop_last().push(s.last()) =~= s);
    }
}

proof fn lemma_without_at(s: Seq<JobModel>, id: Seq<char>, p: int)
    requires
        ids_distinct(s),
        0 <= p < s.len(),
        s[p].id == id,
    ensures
        without_id(s, id) == s.remove(p),
    decreases s.len(),
{
    let d = s.drop_last();
    if p == s.len() - 1 {
        assert(!has_id(d, id)) by {
            if has_id(d, id) {
                let i = choose|i: int| 0 <= i < d.len() && #[trigger] d[i].id == id;
                assert(s[i].id == s[p].id);
            }
        }
        lemma_without_absent(d, id);
        assert(s.remove(p) =~= d);
    } else {
        assert(ids_distinct(d));
        assert(d[p].id == id);
        lemma_without_at(d, id, p);
        assert(s.last().id != id) by {
            assert(s[s.len() - 1].id != s[p].id);
        }
        assert(d.remove(p).push(s.last()) =~= s.remove(p));
    }
}

proof fn lemma_without_keeps_distinct(s: Seq<JobModel>, id: Seq<char>)
    requires
        ids_distinct(s),
    ensures
        ids_distinct(without_id(s, id)),
        !has_id(without_id(s, id), id),
        forall|k: Seq<char>| has_id(without_id(s, id), k) ==> #[trigger] has_id(s, k),
    decreases s.len(),
{
    if s.len() > 0 {
        let d = s.drop_last();
        assert(ids_distinct(d));
        lemma_without_keeps_distinct(d, id);
        let r = without_id(d, id);
        assert forall|k: Seq<char>| has_id(r, k) implies #[trigger] has_id(s, k) by {
            assert(has_id(d, k));
            let i = choose|i: int| 0 <= i < d.len() && #[trigger] d[i].id == k;
            assert(s[i].id == k);
        }
        if s.last().id != id {
            let r2 = r.push(s.last());
            assert(!has_id(r, s.last().id)) by {
                if has_id(r, s.last().id) {
                    assert(has_id(d, s.last().id));
                    let i = choose|i: int| 0 <= i < d.len() && #[trigger] d[i].id == s.last().id;
                    assert(s[i].id == s[s.len() - 1].id);
                }
            }
            assert(ids_distinct(r2)) by {
                assert forall|i: int, j: int| 0 <= i < j < r2.len() implies r2[i].id != r2[j].id by {
                    if j == r2.len() - 1 {
                        assert(r2[i] == r[i]);
                        if r[i].id == s.last().id {
                            assert(has_id(r, s.last().id));
                        }
                    } else {
                        assert(r2[i] == r[i]);
                        assert(r2[j] == r[j]);
                    }
                }
            }
            assert(!has_id(r2, id)) by {
                if has_id(r2, id) {
                    let i = choose|i: int| 0 <= i < r2.len() && #[trigger] r2[i].id == id;
                    if i < r.len() {
                        assert(r[i].id == id);
                        assert(has_id(r, id));
                    }
                }
            }
            assert forall|k: Seq<char>| has_id(r2, k) implies #[trigger] has_id(s, k) by {
                let i = choose|i: int| 0 <= i < r2.len() && #[trigger] r2[i].id == k;
                if i < r.len() {
                    assert(r[i].id == k);
                    assert(has_id(r, k));
                } else {
                    assert(s[s.len() - 1].id == k);
                }
            }
        }
    }
}

// ---------------------------------------------------------------------------
// Scheduler state
// ---------------------------------------------------------------------------

/// Seconds a recurring job lives.
pub const RECURRING_LIFETIME_SECS: u64 = 604800;

/// Seconds a one-shot job lives.
pub const ONE_SHOT_LIFETIME_SECS: u64 = 31536000;

/// The id given to the job created with number `n`.
pub open spec fn job_id(n: nat) -> Seq<char> {
    "cron_"@ + decimal(n)
}

/// `a + b`, held at `u64::MAX`.
pub open spec fn saturating(a: u64, b: u64) -> u64 {
    if a + b > u64::MAX {
        u64::MAX
    } else {
        (a + b) as u64
    }
}

/// The number after `n`, wrapping to 0 past `u64::MAX`.
pub open spec fn following(n: u64) -> u64 {
    if n == u64::MAX {
        0
    } else {
        (n + 1) as u64
    }
}

/// The job that `create_job` schedules at `now`.
pub open spec fn new_job(
    id: Seq<char>,
    cron_expr: Seq<char>,
    prompt: Seq<char>,
    recurring: bool,
    durable: bool,
    now: u64,
) -> JobModel {
    JobModel {
        id,
        cron_expr,
        prompt,
        recurring,
        durable,
        created_at: now,
        last_fired: None,
        expires_at: saturating(
            now,
            if recurring {
                RECURRING_LIFETIME_SECS
            } else {
                ONE_SHOT_LIFETIME_SECS
            },
        ),
    }
}

/// The scheduled jobs, keyed by id, and the number of the next job.
pub struct CronScheduler {
    jobs: Vec<CronJob>,
    next_id: u64,
}

impl CronScheduler {
    /// The jobs as plain values.
    pub closed spec fn jobs(&self) -> Seq<JobModel> {
        job_models(self.jobs@)
    }

    /// The number that the next job created will carry.
    pub closed spec fn next_number(&self) -> u64 {
        self.next_id
    }

    /// No two jobs share an id.
    pub open spec fn wf(&self) -> bool {
        ids_distinct(self.jobs())
    }

    /// An empty scheduler whose first job is `cron_1`.
    pub fn new() -> (s: Self)
        ensures
            s.wf(),
            s.jobs() == Seq::<JobModel>::empty(),
            s.next_number() == 1,
    {
        let s = CronScheduler { jobs: Vec::new(), next_id: 1 };
        assert(s.jobs() =~= Seq::<JobModel>::empty());
        s
    }

    /// Position of the job with the id, if any.
    fn position(&self, id: &str) -> (r: Option<usize>)
        ensures
            match r {
                Some(p) => p < self.jobs().len() && self.jobs()[p as int].id == id@,
                None => !has_id(self.jobs(), id@),
            },
    {
        let mut i: usize = 0;
        while i < self.jobs.len()
            invariant
                i <= self.jobs.len(),
                forall|k: int| 0 <= k < i ==> (#[trigger] self.jobs()[k]).id != id@,
            decreases self.jobs.len() - i,
        {
            if str_eq(self.jobs[i].id.as_str(), id) {
                return Some(i);
            }
            assert(self.jobs()[i as int] == job_model(self.jobs@[i as int]));
            i = i + 1;
        }
        proof {
            if has_id(self.jobs(), id@) {
                let k = choose|k: int| 0 <= k < self.jobs().len() && #[trigger] self.jobs()[k].id == id@;
            }
        }
        None
    }

    /// Removes the job with the id, if there is one.
    fn remove_id(&mut self, id: &str) -> (r: bool)
        requires
            old(self).wf(),
        ensures
            r == has_id(old(self).jobs(), id@),
            final(self).jobs() == without_id(old(self).jobs(), id@),
            final(self).next_id == old(self).next_id,
    {
        let ghost before = self.jobs();
        match self.position(id) {
            Some(p) => {
                self.jobs.remove(p);
                proof {
                    lemma_without_at(before, id@, p as int);
                    assert(self.jobs() =~= before.remove(p as int));
                    assert(before[p as int].id == id@);
                }
                true
            },
            None => {
                proof {
                    lemma_without_absent(before, id@);
                }
                false
            },
        }
    }

    /// Validates the expression and schedules the prompt at `now` under the
    /// id `cron_N`, N being the next number. A recurring job expires after
    /// seven days, a one-shot job after a year. A job that already had that
    /// id is replaced.
    pub fn create_job_at(
        &mut self,
        cron_expr: String,
        prompt: String,
        recurring: bool,
        durable: bool,
        now: u64,
    ) -> (r: Result<String, CronError>)
        requires
            old(self).wf(),
            !expr_overflows(cron_expr@),
        ensures
            final(self).wf(),
            match r {
                Ok(id) => {
                    &&& expr_valid(cron_expr@)
                    &&& id@ == job_id(old(self).next_number() as nat)
                    &&& final(self).jobs() == without_id(old(self).jobs(), id@).push(
                        new_job(id@, cron_expr@, prompt@, recurring, durable, now),
                    )
                    &&& final(self).next_number() == following(old(self).next_number())
                },
                Err(e) => {
                    &&& parse_outcome(cron_expr@, Err::<CronExpr, CronError>(e))
                    &&& final(self).jobs() == old(self).jobs()
                    &&& final(self).next_number() == old(self).next_number()
                },
            },
    {
        match CronExpr::parse(cron_expr.as_str()) {
            Err(e) => return Err(e),
            Ok(c) => {
                assert(parse_outcome(cron_expr@, Ok::<CronExpr, CronError>(c)));
            },
        }
        let mut id = copy_str("cron_");
        let num = decimal_string(self.next_id);
        push_str(&mut id, num.as_str());
        self.next_id = self.next_id.wrapping_add(1);
        let life = if recurring {
            RECURRING_LIFETIME_SECS
        } else {
            ONE_SHOT_LIFETIME_SECS
        };
        let expires_at = now.saturating_add(life);
        let ghost before = self.jobs();
        self.remove_id(id.as_str());
        proof {
            lemma_without_keeps_distinct(before, id@);
        }
        let job = CronJob {
            id: copy_str(id.as_str()),
            cron_expr,
            prompt,
            recurring,
            durable,
            created_at: now,
            last_fired: None,
            expires_at,
        };
        let ghost mid = self.jobs@;
        self.jobs.push(job);
        proof {
            assert(self.jobs() =~= job_models(mid).push(job_model(job)));
            let s = self.jobs();
            assert forall|i: int, j: int| 0 <= i < j < s.len() implies s[i].id != s[j].id by {
                if j == s.len() - 1 {
                    if s[i].id == id@ {
                        assert(job_models(mid)[i].id == id@);
                        assert(has_id(job_models(mid), id@));
                    }
                } else {
                    assert(s[i] == job_models(mid)[i]);
                    assert(s[j] == job_models(mid)[j]);
                }
            }
        }
        Ok(id)
    }
}


impl CronScheduler {
    /// Removes the job with the id; says whether there was one.
    pub fn delete_job(&mut self, id: &str) -> (r: bool)
        requires
            old(self).wf(),
        ensures
            final(self).wf(),
            r == has_id(old(self).jobs(), id@),
            final(self).jobs() == without_id(old(self).jobs(), id@),
            final(self).next_number() == old(self).next_number(),
    {
        proof {
            lemma_without_keeps_distinct(self.jobs(), id@);
        }
        self.remove_id(id)
    }

    /// Puts a job (read back from storage) in place under its id, replacing
    /// any job that had that id.
    pub fn insert_job(&mut self, job: CronJob)
        requires
            old(self).wf(),
        ensures
            final(self).wf(),
            final(self).jobs() == without_id(old(self).jobs(), job.id@).push(job_model(job)),
            final(self).next_number() == old(self).next_number(),
    {
        let ghost before = self.jobs();
        self.remove_id(job.id.as_str());
        proof {
            lemma_without_keeps_distinct(before, job.id@);
        }
        let ghost mid = self.jobs@;
        let ghost id = job.id@;
        self.jobs.push(job);
        proof {
            assert(self.jobs() =~= job_models(mid).push(job_model(job)));
            let s = self.jobs();
            assert forall|i: int, j: int| 0 <= i < j < s.len() implies s[i].id != s[j].id by {
                if j == s.len() - 1 {
                    if s[i].id == id {
                        assert(job_models(mid)[i].id == id);
                        assert(has_id(job_models(mid), id));
                    }
                } else {
                    assert(s[i] == job_models(mid)[i]);
                    assert(s[j] == job_models(mid)[j]);
                }
            }
        }
    }

    /// Copies of the scheduled jobs.
    pub fn list_jobs(&self) -> (r: Vec<CronJob>)
        ensures
            job_models(r@) == self.jobs(),
    {
        let mut r: Vec<CronJob> = Vec::new();
        let mut i: usize = 0;
        while i < self.jobs.len()
            invariant
                i <= self.jobs.len(),
                job_models(r@) == self.jobs().take(i as int),
            decreases self.jobs.len() - i,
        {
            let ghost before = r@;
            r.push(self.jobs[i].duplicate());
            assert(job_models(r@) =~= job_models(before).push(job_model(self.jobs@[i as int])));
            assert(self.jobs().take(i + 1) =~= self.jobs().take(i as int).push(self.jobs()[i as int]));
            i = i + 1;
        }
        assert(self.jobs().take(i as int) =~= self.jobs());
        r
    }
}

// ---------------------------------------------------------------------------
// Ticks
// ---------------------------------------------------------------------------

/// The local time of the last firing falls in the current minute (same
/// minute, hour and day of month).
pub open spec fn fired_this_minute(last: Option<CronTime>, now: CronTime) -> bool {
    match last {
        Some(l) => l.minute == now.minute && l.hour == now.hour && l.day == now.day,
        None => false,
    }
}

/// The job has expired at `now_ts`.
pub open spec fn expired(j: JobModel, now_ts: u64) -> bool {
    now_ts > j.expires_at
}

/// The job fires at this tick: it has not expired, has not fired this
/// minute, and its expression matches the current time.
pub open spec fn job_fires(j: JobModel, last: Option<CronTime>, now_ts: u64, now: CronTime) -> bool {
    !expired(j, now_ts) && !fired_this_minute(last, now) && expr_fires(j.cron_expr, now)
}

/// What is left of a job after a tick: an expired job and a one-shot job
/// that fired are gone; a recurring job that fired records the tick.
pub open spec fn job_after_tick(j: JobModel, last: Option<CronTime>, now_ts: u64, now: CronTime) -> Option<JobModel> {
    if expired(j, now_ts) {
        None
    } else if job_fires(j, last, now_ts, now) {
        if j.recurring {
            Some(
                JobModel {
                    id: j.id,
                    cron_expr: j.cron_expr,
                    prompt: j.prompt,
                    recurring: j.recurring,
                    durable: j.durable,
                    created_at: j.created_at,
                    last_fired: Some(now_ts),
                    expires_at: j.expires_at,
                },
            )
        } else {
            None
        }
    } else {
        Some(j)
    }
}

/// The prompts sent at a tick, in the order of the jobs. `lasts[i]` is the
/// local time of job `i`'s last firing.
pub open spec fn tick_prompts(
    js: Seq<JobModel>,
    lasts: Seq<Option<CronTime>>,
    now_ts: u64,
    now: CronTime,
) -> Seq<Seq<char>>
    decreases js.len(),
{
    if js.len() == 0 {
        Seq::empty()
    } else {
        let n = js.len() - 1;
        let r = tick_prompts(js.drop_last(), lasts, now_ts, now);
        if job_fires(js[n], lasts[n], now_ts, now) {
            r.push(js[n].prompt)
        } else {
            r
        }
    }
}

/// The jobs kept after a tick, in order.
pub open spec fn tick_jobs(
    js: Seq<JobModel>,
    lasts: Seq<Option<CronTime>>,
    now_ts: u64,
    now: CronTime,
) -> Seq<JobModel>
    decreases js.len(),
{
    if js.len() == 0 {
        Seq::empty()
    } else {
        let n = js.len() - 1;
        let r = tick_jobs(js.drop_last(), lasts, now_ts, now);
        match job_after_tick(js[n], lasts[n], now_ts, now) {
            Some(j) => r.push(j),
            None => r,
        }
    }
}

/// Some job fired or expired at the tick.
pub open spec fn tick_changed(
    js: Seq<JobModel>,
    lasts: Seq<Option<CronTime>>,
    now_ts: u64,
    now: CronTime,
) -> bool {
    exists|i: int|
        0 <= i < js.len() && (job_fires(js[i], lasts[i], now_ts, now) || #[trigger] expired(
            js[i],
            now_ts,
        ))
}

/// What a tick hands back: the prompts to send, and whether the set of
/// jobs changed (so that durable jobs are saved again).
pub struct TickOutcome {
    pub fired: Vec<String>,
    pub changed: bool,
}

impl CronScheduler {
    /// One tick of the scheduler at `now_ts` (seconds since the epoch), whose
    /// local time is `now`; `lasts[i]` is the local time of job `i`'s last
    /// firing. Expired jobs are dropped; each job that is due fires once per
    /// minute; a one-shot job that fired is dropped; a recurring one records
    /// the tick.
    pub fn tick_at(&mut self, now_ts: u64, now: &CronTime, lasts: &Vec<Option<CronTime>>) -> (r: TickOutcome)
        requires
            old(self).wf(),
            lasts.len() == old(self).jobs().len(),
        ensures
            final(self).wf(),
            str_views(r.fired@) == tick_prompts(old(self).jobs(), lasts@, now_ts, *now),
            final(self).jobs() == tick_jobs(old(self).jobs(), lasts@, now_ts, *now),
            r.changed == tick_changed(old(self).jobs(), lasts@, now_ts, *now),
            final(self).next_number() == old(self).next_number(),
    {
        let ghost js = self.jobs();
        let mut kept: Vec<CronJob> = Vec::new();
        let mut fired: Vec<String> = Vec::new();
        let mut changed = false;
        let mut i: usize = 0;
        while i < self.jobs.len()
            invariant
                i <= self.jobs.len(),
                js == self.jobs(),
                lasts.len() == js.len(),
                ids_distinct(js),
                job_models(kept@) == tick_jobs(js.take(i as int), lasts@, now_ts, *now),
                str_views(fired@) == tick_prompts(js.take(i as int), lasts@, now_ts, *now),
                changed == tick_changed(js.take(i as int), lasts@, now_ts, *now),
                ids_distinct(job_models(kept@)),
                forall|k: int|
                    0 <= k < kept.len() ==> exists|m: int|
                        0 <= m < i && #[trigger] js[m].id == (#[trigger] job_models(kept@)[k]).id,
            decreases self.jobs.len() - i,
        {
            let ghost pre = js.take(i as int);
            let ghost cur = js.take(i + 1);
            assert(cur.drop_last() =~= pre);
            assert(cur[i as int] == js[i as int]);
            let job = &self.jobs[i];
            assert(job_model(*job) == js[i as int]);
            let last = lasts[i];
            let is_expired = now_ts > job.expires_at;
            let same_minute = match last {
                Some(l) => l.minute == now.minute && l.hour == now.hour && l.day == now.day,
                None => false,
            };
            let fires = !is_expired && !same_minute && expr_text_fires(job.cron_expr.as_str(), now);
            assert(fires == job_fires(js[i as int], lasts@[i as int], now_ts, *now));
            let ghost before_kept = job_models(kept@);
            let ghost before_fired = str_views(fired@);
            if fires {
                let ghost bf = fired@;
                fired.push(copy_str(job.prompt.as_str()));
                assert(str_views(fired@) =~= str_views(bf).push(js[i as int].prompt));
            }
            let keep = !is_expired && (!fires || job.recurring);
            if keep {
                let mut copy = job.duplicate();
                if fires {
                    copy.last_fired = Some(now_ts);
                }
                let ghost bk = kept@;
                kept.push(copy);
                assert(job_models(kept@) =~= job_models(bk).push(job_model(copy)));
                proof {
                    let km = job_models(kept@);
                    assert(km[km.len() - 1].id == js[i as int].id);
                    assert forall|a: int, b: int| 0 <= a < b < km.len() implies km[a].id != km[b].id by {
                        if b == km.len() - 1 {
                            assert(km[a] == before_kept[a]);
                            let m = choose|m: int| 0 <= m < i && #[trigger] js[m].id == (#[trigger] job_models(bk)[a]).id;
                            assert(js[m].id != js[i as int].id);
                        } else {
                            assert(km[a] == before_kept[a]);
                            assert(km[b] == before_kept[b]);
                        }
                    }
                    assert forall|k: int| 0 <= k < km.len() implies exists|m: int|
                        0 <= m < i + 1 && #[trigger] js[m].id == (#[trigger] km[k]).id by {
                        if k == km.len() - 1 {
                            assert(js[i as int].id == km[k].id);
                        } else {
                            assert(km[k] == job_models(bk)[k]);
                            let m = choose|m: int| 0 <= m < i && #[trigger] js[m].id == (#[trigger] job_models(bk)[k]).id;
                            assert(js[m].id == km[k].id);
                        }
                    }
                }
            } else {
                assert forall|k: int| 0 <= k < kept.len() implies exists|m: int|
                    0 <= m < i + 1 && #[trigger] js[m].id == (#[trigger] job_models(kept@)[k]).id by {
                    let m = choose|m: int| 0 <= m < i && #[trigger] js[m].id == (#[trigger] job_models(kept@)[k]).id;
                    assert(js[m].id == job_models(kept@)[k].id);
                }
            }
            if fires || is_expired {
                changed = true;
            }
            proof {
                if changed {
                    if fires || is_expired {
                        assert(job_fires(cur[i as int], lasts@[i as int], now_ts, *now) || expired(cur[i as int], now_ts));
                    } else {
                        let w = choose|w: int| 0 <= w < pre.len() && (job_fires(pre[w], lasts@[w], now_ts, *now) || #[trigger] expired(pre[w], now_ts));
                        assert(cur[w] == pre[w]);
                    }
                    assert(tick_changed(cur, lasts@, now_ts, *now));
                } else {
                    assert forall|w: int| 0 <= w < cur.len() implies !(job_fires(cur[w], lasts@[w], now_ts, *now) || #[trigger] expired(cur[w], now_ts)) by {
                        if w < pre.len() {
                            assert(cur[w] == pre[w]);
                        }
                    }
                }
            }
            i = i + 1;
        }
        assert(js.take(i as int) =~= js);
        self.jobs = kept;
        TickOutcome { fired, changed }
    }
}


/// The local time of each job's last firing (`None` for a job that never fired).
pub open spec fn lasts_fit(js: Seq<JobModel>, lasts: Seq<Option<CronTime>>) -> bool {
    &&& lasts.len() == js.len()
    &&& forall|i: int| 0 <= i < js.len() ==> (#[trigger] js[i]).last_fired is None ==> lasts[i] is None
}

impl CronScheduler {
    /// Validates the expression and schedules the prompt now (see `create_job_at`).
    pub fn create_job(&mut self, cron_expr: String, prompt: String, recurring: bool, durable: bool) -> (r: Result<String, CronError>)
        requires
            old(self).wf(),
            !expr_overflows(cron_expr@),
        ensures
            final(self).wf(),
            match r {
                Ok(id) => {
                    &&& expr_valid(cron_expr@)
                    &&& id@ == job_id(old(self).next_number() as nat)
                    &&& exists|now: u64| final(self).jobs() == #[trigger] without_id(old(self).jobs(), id@).push(
                        new_job(id@, cron_expr@, prompt@, recurring, durable, now),
                    )
                    &&& final(self).next_number() == following(old(self).next_number())
                },
                Err(e) => {
                    &&& parse_outcome(cron_expr@, Err::<CronExpr, CronError>(e))
                    &&& final(self).jobs() == old(self).jobs()
                    &&& final(self).next_number() == old(self).next_number()
                },
            },
    {
        let now = utc_now_secs();
        self.create_job_at(cron_expr, prompt, recurring, durable, now)
    }

    /// One tick at the current time (see `tick_at`): the local time of each
    /// job's last firing is looked up, then the jobs are updated.
    pub fn tick(&mut self) -> (r: TickOutcome)
        requires
            old(self).wf(),
        ensures
            final(self).wf(),
            final(self).next_number() == old(self).next_number(),
            exists|now_ts: u64, now: CronTime, lasts: Seq<Option<CronTime>>|
                #![trigger tick_jobs(old(self).jobs(), lasts, now_ts, now)]
                {
                    &&& time_in_range(now)
                    &&& lasts_fit(old(self).jobs(), lasts)
                    &&& str_views(r.fired@) == tick_prompts(old(self).jobs(), lasts, now_ts, now)
                    &&& final(self).jobs() == tick_jobs(old(self).jobs(), lasts, now_ts, now)
                    &&& r.changed == tick_changed(old(self).jobs(), lasts, now_ts, now)
                },
    {
        let (now_ts, now) = local_now();
        let mut lasts: Vec<Option<CronTime>> = Vec::new();
        let mut i: usize = 0;
        while i < self.jobs.len()
            invariant
                i <= self.jobs.len(),
                lasts.len() == i,
                forall|k: int| 0 <= k < i ==> (#[trigger] self.jobs()[k]).last_fired is None ==> lasts@[k] is None,
            decreases self.jobs.len() - i,
        {
            assert(self.jobs()[i as int] == job_model(self.jobs@[i as int]));
            let last = match self.jobs[i].last_fired {
                Some(ts) => local_time_of(ts),
                None => None,
            };
            lasts.push(last);
            i = i + 1;
        }
        let ghost before = self.jobs();
        let r = self.tick_at(now_ts, &now, &lasts);
        assert(lasts_fit(before, lasts@));
        r
    }
}


// ---------------------------------------------------------------------------
// Laws
// ---------------------------------------------------------------------------

/// Deleting a job just created under a fresh id gives back the jobs there
/// were before.
pub proof fn law_create_then_delete(s: Seq<JobModel>, m: JobModel)
    requires
        !has_id(s, m.id),
    ensures
        without_id(without_id(s, m.id).push(m), m.id) == s,
{
    lemma_without_absent(s, m.id);
    let t = s.push(m);
    assert(t.drop_last() =~= s);
    assert(t.last() == m);
}

/// Each job kept by a tick comes from a job that the tick kept.
proof fn lemma_tick_jobs_origin(js: Seq<JobModel>, lasts: Seq<Option<CronTime>>, now_ts: u64, now: CronTime)
    ensures
        tick_jobs(js, lasts, now_ts, now).len() <= js.len(),
        forall|k: int|
            0 <= k < tick_jobs(js, lasts, now_ts, now).len() ==> exists|m: int|
                0 <= m < js.len() && job_after_tick(js[m], lasts[m], now_ts, now) == Some(
                    #[trigger] tick_jobs(js, lasts, now_ts, now)[k],
                ),
    decreases js.len(),
{
    if js.len() > 0 {
        let d = js.drop_last();
        lemma_tick_jobs_origin(d, lasts, now_ts, now);
        let r = tick_jobs(d, lasts, now_ts, now);
        let t = tick_jobs(js, lasts, now_ts, now);
        assert forall|k: int| 0 <= k < t.len() implies exists|m: int|
            0 <= m < js.len() && job_after_tick(js[m], lasts[m], now_ts, now) == Some(#[trigger] t[k]) by {
            if k < r.len() {
                assert(t[k] == r[k]);
                let m = choose|m: int| 0 <= m < d.len() && job_after_tick(d[m], lasts[m], now_ts, now) == Some(#[trigger] r[k]);
                assert(js[m] == d[m]);
            } else {
                assert(job_after_tick(js[js.len() - 1], lasts[js.len() - 1], now_ts, now) == Some(t[k]));
            }
        }
    }
}

/// A tick adds no job, keeps no job that had expired, and drops each
/// one-shot job that fired.
pub proof fn law_tick_drops_expired_and_fired(
    js: Seq<JobModel>,
    lasts: Seq<Option<CronTime>>,
    now_ts: u64,
    now: CronTime,
)
    requires
        ids_distinct(js),
    ensures
        tick_jobs(js, lasts, now_ts, now).len() <= js.len(),
        forall|k: int|
            0 <= k < tick_jobs(js, lasts, now_ts, now).len() ==> !expired(
                #[trigger] tick_jobs(js, lasts, now_ts, now)[k],
                now_ts,
            ),
        forall|i: int|
            0 <= i < js.len() && (expired(js[i], now_ts) || (job_fires(js[i], lasts[i], now_ts, now)
                && !js[i].recurring)) ==> !has_id(tick_jobs(js, lasts, now_ts, now), #[trigger] js[i].id),
{
    lemma_tick_jobs_origin(js, lasts, now_ts, now);
    let t = tick_jobs(js, lasts, now_ts, now);
    assert forall|k: int| 0 <= k < t.len() implies !expired(#[trigger] t[k], now_ts) by {
        let m = choose|m: int| 0 <= m < js.len() && job_after_tick(js[m], lasts[m], now_ts, now) == Some(#[trigger] t[k]);
    }
    assert forall|i: int|
        0 <= i < js.len() && (expired(js[i], now_ts) || (job_fires(js[i], lasts[i], now_ts, now)
            && !js[i].recurring)) implies !has_id(t, #[trigger] js[i].id) by {
        if has_id(t, js[i].id) {
            let k = choose|k: int| 0 <= k < t.len() && #[trigger] t[k].id == js[i].id;
            let m = choose|m: int| 0 <= m < js.len() && job_after_tick(js[m], lasts[m], now_ts, now) == Some(#[trigger] t[k]);
            assert(js[m].id == t[k].id);
            if m != i {
                if m < i {
                    assert(js[m].id != js[i].id);
                } else {
                    assert(js[i].id != js[m].id);
                }
            }
        }
    }
}

/// A recurring job that fires records the tick, and does not fire again at
/// a later tick whose last-firing time falls in the same minute.
pub proof fn law_recurring_fires_once_per_minute(
    j: JobModel,
    last: Option<CronTime>,
    now_ts: u64,
    now: CronTime,
    later_ts: u64,
    later: CronTime,
)
    requires
        j.recurring,
        job_fires(j, last, now_ts, now),
        later.minute == now.minute,
        later.hour == now.hour,
        later.day == now.day,
    ensures
        job_after_tick(j, last, now_ts, now) matches Some(k) && k.last_fired == Some(now_ts) && k.id == j.id
            && !job_fires(k, Some(now), later_ts, later),
{
}

proof fn lemma_prompts_contain(js: Seq<JobModel>, lasts: Seq<Option<CronTime>>, now_ts: u64, now: CronTime, i: int)
    requires
        0 <= i < js.len(),
        job_fires(js[i], lasts[i], now_ts, now),
    ensures
        tick_prompts(js, lasts, now_ts, now).contains(js[i].prompt),
    decreases js.len(),
{
    let n: int = js.len() - 1;
    let r = tick_prompts(js.drop_last(), lasts, now_ts, now);
    if i == n {
        assert(tick_prompts(js, lasts, now_ts, now) == r.push(js[i].prompt));
        assert(r.push(js[i].prompt)[r.len() as int] == js[i].prompt);
    } else {
        assert(js.drop_last()[i] == js[i]);
        lemma_prompts_contain(js.drop_last(), lasts, now_ts, now, i);
        let k = choose|k: int| 0 <= k < r.len() && r[k] == js[i].prompt;
        if job_fires(js[n], lasts[n], now_ts, now) {
            assert(r.push(js[n].prompt)[k] == js[i].prompt);
        }
    }
}

/// A tick sends the prompt of every job whose expression matches the
/// current time and that has not expired, unless its last firing was in
/// the current minute: same minute, hour and day of month. A last firing
/// at another hour or day does not hold an hourly or daily job back.
pub proof fn law_tick_fires_due_jobs(
    js: Seq<JobModel>,
    lasts: Seq<Option<CronTime>>,
    now_ts: u64,
    now: CronTime,
    i: int,
)
    requires
        0 <= i < js.len(),
        i < lasts.len(),
        now_ts <= js[i].expires_at,
        expr_fires(js[i].cron_expr, now),
        match lasts[i] {
            Some(l) => l.minute != now.minute || l.hour != now.hour || l.day != now.day,
            None => true,
        },
    ensures
        tick_prompts(js, lasts, now_ts, now).contains(js[i].prompt),
{
    lemma_prompts_contain(js, lasts, now_ts, now, i);
}

/// A job whose last firing was in the current minute (same minute, hour
/// and day of month) sends nothing at the tick, and one that has expired
/// sends nothing either; otherwise a job alone sends its prompt exactly
/// when its expression matches the time.
pub proof fn law_tick_single_job(j: JobModel, last: Option<CronTime>, now_ts: u64, now: CronTime)
    ensures
        (last matches Some(l) && l.minute == now.minute && l.hour == now.hour && l.day == now.day)
            ==> tick_prompts(seq![j], seq![last], now_ts, now) == Seq::<Seq<char>>::empty(),
        now_ts > j.expires_at ==> tick_prompts(seq![j], seq![last], now_ts, now) == Seq::<Seq<char>>::empty(),
        (now_ts <= j.expires_at && !(last matches Some(l) && l.minute == now.minute && l.hour == now.hour && l.day
            == now.day)) ==> tick_prompts(seq![j], seq![last], now_ts, now) == (if expr_fires(j.cron_expr, now) {
            seq![j.prompt]
        } else {
            Seq::<Seq<char>>::empty()
        }),
{
    let js = seq![j];
    assert(js.drop_last() =~= Seq::<JobModel>::empty());
    assert(tick_prompts(js.drop_last(), seq![last], now_ts, now) == Seq::<Seq<char>>::empty());
    assert(seq![last][0] == last);
    assert(Seq::<Seq<char>>::empty().push(j.prompt) =~= seq![j.prompt]);
}

/// What a tick leaves of a single job: nothing once it has expired; when it
/// fires (its expression matches and it did not fire in this same minute,
/// hour and day), a recurring job stays with the tick recorded as its last
/// firing and a one-shot job is gone; otherwise the job stays as it was.
pub proof fn law_tick_single_job_kept(j: JobModel, last: Option<CronTime>, now_ts: u64, now: CronTime)
    ensures
        now_ts > j.expires_at ==> tick_jobs(seq![j], seq![last], now_ts, now) == Seq::<JobModel>::empty(),
        ({
            let same_minute = last matches Some(l) && l.minute == now.minute && l.hour == now.hour && l.day
                == now.day;
            let fires = now_ts <= j.expires_at && !same_minute && expr_fires(j.cron_expr, now);
            &&& (fires && j.recurring) ==> tick_jobs(seq![j], seq![last], now_ts, now) == seq![
                JobModel { last_fired: Some(now_ts), ..j },
            ]
            &&& (fires && !j.recurring) ==> tick_jobs(seq![j], seq![last], now_ts, now) == Seq::<JobModel>::empty()
            &&& (now_ts <= j.expires_at && !fires) ==> tick_jobs(seq![j], seq![last], now_ts, now) == seq![j]
        }),
{
    let js = seq![j];
    assert(js.drop_last() =~= Seq::<JobModel>::empty());
    assert(tick_jobs(js.drop_last(), seq![last], now_ts, now) == Seq::<JobModel>::empty());
    assert(seq![last][0] == last);
    assert(Seq::<JobModel>::empty().push(j) =~= seq![j]);
    assert(Seq::<JobModel>::empty().push(JobModel { last_fired: Some(now_ts), ..j }) =~= seq![
        JobModel { last_fired: Some(now_ts), ..j },
    ]);
}

/// No job of `js` fires or expires at the tick.
pub open spec fn tick_quiet(js: Seq<JobModel>, lasts: Seq<Option<CronTime>>, now_ts: u64, now: CronTime) -> bool {
    forall|i: int| 0 <= i < js.len() ==> !#[trigger] job_fires(js[i], lasts[i], now_ts, now) && !expired(js[i], now_ts)
}

proof fn lemma_tick_shape(js: Seq<JobModel>, lasts: Seq<Option<CronTime>>, now_ts: u64, now: CronTime)
    ensures
        tick_jobs(js, lasts, now_ts, now).len() <= js.len(),
        tick_quiet(js, lasts, now_ts, now) <==> (tick_jobs(js, lasts, now_ts, now).len() == js.len()
            && tick_prompts(js, lasts, now_ts, now).len() == 0),
        tick_quiet(js, lasts, now_ts, now) ==> tick_jobs(js, lasts, now_ts, now) == js,
    decreases js.len(),
{
    if js.len() > 0 {
        let init = js.drop_last();
        let n: int = js.len() - 1;
        lemma_tick_shape(init, lasts, now_ts, now);
        assert forall|i: int| 0 <= i < init.len() implies #[trigger] init[i] == js[i] by {}
        if tick_quiet(js, lasts, now_ts, now) {
            assert forall|i: int| 0 <= i < init.len() implies !#[trigger] job_fires(init[i], lasts[i], now_ts, now)
                && !expired(init[i], now_ts) by {
                assert(init[i] == js[i]);
                assert(!job_fires(js[i], lasts[i], now_ts, now));
            }
            assert(!job_fires(js[n], lasts[n], now_ts, now) && !expired(js[n], now_ts));
            assert(tick_jobs(js, lasts, now_ts, now) =~= init.push(js[n]));
            assert(init.push(js[n]) =~= js);
        }
        if tick_jobs(js, lasts, now_ts, now).len() == js.len() && tick_prompts(js, lasts, now_ts, now).len() == 0 {
            assert(!expired(js[n], now_ts));
            assert(!job_fires(js[n], lasts[n], now_ts, now));
            assert(tick_quiet(init, lasts, now_ts, now));
            assert forall|i: int| 0 <= i < js.len() implies !#[trigger] job_fires(js[i], lasts[i], now_ts, now)
                && !expired(js[i], now_ts) by {
                if i < n {
                    assert(init[i] == js[i]);
                    assert(!job_fires(init[i], lasts[i], now_ts, now));
                }
            }
        }
    } else {
        assert(tick_jobs(js, lasts, now_ts, now) =~= js);
    }
}

/// A tick changes the jobs exactly when it sends a prompt or drops a job;
/// a tick at which no job fires or expires leaves the jobs as they were
/// and sends nothing.
pub proof fn law_tick_changed_iff(js: Seq<JobModel>, lasts: Seq<Option<CronTime>>, now_ts: u64, now: CronTime)
    ensures
        tick_changed(js, lasts, now_ts, now) <==> (tick_prompts(js, lasts, now_ts, now).len() > 0 || tick_jobs(
            js,
            lasts,
            now_ts,
            now,
        ).len() < js.len()),
        !tick_changed(js, lasts, now_ts, now) ==> tick_jobs(js, lasts, now_ts, now) == js && tick_prompts(
            js,
            lasts,
            now_ts,
            now,
        ).len() == 0,
{
    lemma_tick_shape(js, lasts, now_ts, now);
    if tick_changed(js, lasts, now_ts, now) {
        let i = choose|i: int|
            0 <= i < js.len() && (job_fires(js[i], lasts[i], now_ts, now) || #[trigger] expired(js[i], now_ts));
        assert(!tick_quiet(js, lasts, now_ts, now));
    } else {
        assert forall|i: int| 0 <= i < js.len() implies !#[trigger] job_fires(js[i], lasts[i], now_ts, now) && !expired(
            js[i],
            now_ts,
        ) by {
            if job_fires(js[i], lasts[i], now_ts, now) || expired(js[i], now_ts) {
                assert(tick_changed(js, lasts, now_ts, now));
            }
        }
        assert(tick_quiet(js, lasts, now_ts, now));
    }
}

/// A job's expression fires at a time exactly when the expression parses
/// and the time's minute, hour, day of month, month and day of week are
/// each among the parsed values of their field.
pub proof fn law_fires_iff_parsed_matches(e: Seq<char>, c: CronExpr, t: CronTime)
    requires
        parse_outcome(e, Ok(c)),
        !expr_overflows(e),
    ensures
        expr_fires(e, t) <==> (c.minutes@.contains(t.minute) && c.hours@.contains(t.hour)
            && c.days_of_month@.contains(t.day) && c.months@.contains(t.month) && c.days_of_week@.contains(
            t.weekday,
        )),
{
    let fields = split_ws_spec(e);
    assert(fields.len() == 5);
    assert(first_field_error(fields, 5) is None);
    assert(crate::cron::denotes(c, fields));
    assert forall|i: int| 0 <= i < 5 implies (#[trigger] field_spec(fields[i], field_min(i), field_max(i)))->Ok_0.contains(
        time_field(t, i),
    ) == expr_field(c, i).contains(time_field(t, i)) by {
        assert(crate::cron::sorted_values_of(expr_field(c, i), field_spec(fields[i], field_min(i), field_max(i))->Ok_0));
    }
    assert(expr_field(c, 0) == c.minutes@ && time_field(t, 0) == t.minute);
    assert(expr_field(c, 1) == c.hours@ && time_field(t, 1) == t.hour);
    assert(expr_field(c, 2) == c.days_of_month@ && time_field(t, 2) == t.day);
    assert(expr_field(c, 3) == c.months@ && time_field(t, 3) == t.month);
    assert(expr_field(c, 4) == c.days_of_week@ && time_field(t, 4) == t.weekday);
}

} // verus!

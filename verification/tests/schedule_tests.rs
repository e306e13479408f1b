use venus::cron::{CronError, CronTime};
use venus::schedule::{expr_text_fires, CronJob, CronScheduler};

fn at(minute: u32, hour: u32, day: u32, month: u32, weekday: u32) -> CronTime {
    CronTime { minute, hour, day, month, weekday }
}

#[test]
fn schedule_ids_count_up() {
    let mut s = CronScheduler::new();
    let a = s.create_job_at("* * * * *".to_string(), "a".to_string(), true, false, 1000).unwrap();
    let b = s.create_job_at("0 9 * * 1".to_string(), "b".to_string(), false, true, 2000).unwrap();
    assert_eq!(a, "cron_1");
    assert_eq!(b, "cron_2");
    let jobs = s.list_jobs();
    assert_eq!(jobs.len(), 2);
    assert_eq!(jobs[0].expires_at, 1000 + 7 * 24 * 3600);
    assert_eq!(jobs[1].expires_at, 2000 + 365 * 24 * 3600);
    assert_eq!(jobs[1].created_at, 2000);
    assert!(jobs[1].durable);
    assert_eq!(jobs[0].last_fired, None);
}

#[test]
fn schedule_expiry_saturates() {
    let mut s = CronScheduler::new();
    s.create_job_at("* * * * *".to_string(), "a".to_string(), true, false, u64::MAX - 5).unwrap();
    assert_eq!(s.list_jobs()[0].expires_at, u64::MAX);
}

#[test]
fn schedule_rejects_bad_expression() {
    let mut s = CronScheduler::new();
    let r = s.create_job_at("* * *".to_string(), "a".to_string(), true, false, 0);
    assert_eq!(r, Err(CronError::FieldCount(3)));
    assert!(s.list_jobs().is_empty());
    let ok = s.create_job_at("5 * * * *".to_string(), "a".to_string(), true, false, 0).unwrap();
    assert_eq!(ok, "cron_1");
}

#[test]
fn schedule_delete_job() {
    let mut s = CronScheduler::new();
    let a = s.create_job_at("* * * * *".to_string(), "a".to_string(), true, false, 0).unwrap();
    s.create_job_at("* * * * *".to_string(), "b".to_string(), true, false, 0).unwrap();
    assert!(s.delete_job(&a));
    assert!(!s.delete_job(&a));
    assert!(!s.delete_job("cron_9"));
    let jobs = s.list_jobs();
    assert_eq!(jobs.len(), 1);
    assert_eq!(jobs[0].prompt, "b");
}

#[test]
fn schedule_tick_fires_and_drops_one_shot() {
    let mut s = CronScheduler::new();
    s.create_job_at("30 14 * * *".to_string(), "once".to_string(), false, false, 100).unwrap();
    s.create_job_at("30 14 * * *".to_string(), "again".to_string(), true, false, 100).unwrap();
    s.create_job_at("0 3 * * *".to_string(), "later".to_string(), true, false, 100).unwrap();
    let now = at(30, 14, 5, 6, 2);
    let out = s.tick_at(200, &now, &vec![None, None, None]);
    assert_eq!(out.fired, vec!["once".to_string(), "again".to_string()]);
    assert!(out.changed);
    let jobs = s.list_jobs();
    assert_eq!(jobs.len(), 2);
    assert_eq!(jobs[0].prompt, "again");
    assert_eq!(jobs[0].last_fired, Some(200));
    assert_eq!(jobs[1].prompt, "later");
    assert_eq!(jobs[1].last_fired, None);
}

#[test]
fn schedule_tick_same_minute_does_not_refire() {
    let mut s = CronScheduler::new();
    s.create_job_at("* * * * *".to_string(), "p".to_string(), true, false, 100).unwrap();
    let now = at(7, 8, 9, 10, 4);
    let first = s.tick_at(200, &now, &vec![None]);
    assert_eq!(first.fired.len(), 1);
    let second = s.tick_at(230, &now, &vec![Some(now)]);
    assert!(second.fired.is_empty());
    assert!(!second.changed);
    let next_minute = at(8, 8, 9, 10, 4);
    let third = s.tick_at(260, &next_minute, &vec![Some(now)]);
    assert_eq!(third.fired, vec!["p".to_string()]);
}

#[test]
fn schedule_tick_removes_expired() {
    let mut s = CronScheduler::new();
    s.create_job_at("* * * * *".to_string(), "p".to_string(), true, false, 0).unwrap();
    let now = at(0, 0, 1, 1, 0);
    let out = s.tick_at(604801, &now, &vec![None]);
    assert!(out.fired.is_empty());
    assert!(out.changed);
    assert!(s.list_jobs().is_empty());
}

#[test]
fn schedule_expr_text_fires() {
    let t = at(15, 9, 1, 1, 1);
    assert!(expr_text_fires("*/15 9 * * 1-5", &t));
    assert!(!expr_text_fires("*/15 10 * * 1-5", &t));
    assert!(!expr_text_fires("not a cron", &t));
    assert!(!expr_text_fires("61 * * * *", &t));
}

#[test]
fn schedule_insert_replaces_same_id() {
    let mut s = CronScheduler::new();
    s.create_job_at("* * * * *".to_string(), "first".to_string(), true, true, 5).unwrap();
    let loaded = CronJob {
        id: "cron_1".to_string(),
        cron_expr: "0 0 * * *".to_string(),
        prompt: "loaded".to_string(),
        recurring: false,
        durable: true,
        created_at: 1,
        last_fired: Some(2),
        expires_at: 3,
    };
    s.insert_job(loaded);
    let jobs = s.list_jobs();
    assert_eq!(jobs.len(), 1);
    assert_eq!(jobs[0].prompt, "loaded");
    assert_eq!(jobs[0].last_fired, Some(2));
    let other = CronJob {
        id: "cron_7".to_string(),
        cron_expr: "0 0 * * *".to_string(),
        prompt: "other".to_string(),
        recurring: true,
        durable: false,
        created_at: 1,
        last_fired: None,
        expires_at: 3,
    };
    s.insert_job(other);
    assert_eq!(s.list_jobs().len(), 2);
}

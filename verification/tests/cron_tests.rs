use venus::cron::CronExpr;

#[test]
fn test_cron_parse_wildcard() {
    let expr = CronExpr::parse("* * * * *").unwrap();
    assert_eq!(expr.minutes.len(), 60);
    assert_eq!(expr.hours.len(), 24);
}

#[test]
fn test_cron_parse_specific() {
    let expr = CronExpr::parse("30 14 * * *").unwrap();
    assert_eq!(expr.minutes, vec![30]);
    assert_eq!(expr.hours, vec![14]);
}

#[test]
fn test_cron_parse_step() {
    let expr = CronExpr::parse("*/5 * * * *").unwrap();
    assert_eq!(
        expr.minutes,
        vec![0, 5, 10, 15, 20, 25, 30, 35, 40, 45, 50, 55]
    );
}

#[test]
fn test_cron_parse_range() {
    let expr = CronExpr::parse("0 9-17 * * 1-5").unwrap();
    assert_eq!(expr.hours, vec![9, 10, 11, 12, 13, 14, 15, 16, 17]);
    assert_eq!(expr.days_of_week, vec![1, 2, 3, 4, 5]);
}

#[test]
fn test_cron_parse_list() {
    let expr = CronExpr::parse("0,30 * * * *").unwrap();
    assert_eq!(expr.minutes, vec![0, 30]);
}

#[test]
fn test_cron_invalid() {
    assert!(CronExpr::parse("* *").is_err());
    assert!(CronExpr::parse("60 * * * *").is_err());
    assert!(CronExpr::parse("* 25 * * *").is_err());
}

#[test]
fn cron_lists_are_sorted_and_deduplicated() {
    let expr = CronExpr::parse("30,5,5,10-12 * * * *").unwrap();
    assert_eq!(expr.minutes, vec![5, 10, 11, 12, 30]);
}

#[test]
fn cron_field_errors() {
    assert!(CronExpr::parse_field("*/0", 0, 59).is_err());
    assert!(CronExpr::parse_field("5-3", 0, 59).is_err());
    assert!(CronExpr::parse_field("x", 0, 59).is_err());
    assert_eq!(CronExpr::parse_field("1-10/3", 0, 59).unwrap(), vec![1, 4, 7, 10]);
}

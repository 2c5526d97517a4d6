use comp_tools::cron::{list_jobs, parse_crontab, parse_line};
use comp_tools::json::Json;

#[test]
fn a_normal_line_becomes_a_job() {
    let job = parse_line("0 3 * * * /usr/bin/backup.sh").expect("parses");
    assert_eq!(job.schedule, "0 3 * * *");
    assert_eq!(job.command, "/usr/bin/backup.sh");
}

#[test]
fn blank_lines_and_comments_are_skipped() {
    assert!(parse_line("").is_none());
    assert!(parse_line("   ").is_none());
    assert!(parse_line("# a comment").is_none());
    assert!(parse_line("  # indented comment").is_none());
}

#[test]
fn extra_whitespace_between_fields_does_not_change_the_result() {
    let job = parse_line("  0   3  *  *   *    /usr/bin/backup.sh --flag  ").expect("parses");
    assert_eq!(job.schedule, "0 3 * * *");
    assert_eq!(job.command, "/usr/bin/backup.sh --flag");
}

#[test]
fn a_full_crontab_is_parsed_line_by_line() {
    let text = "# comment\n\n0 3 * * * /usr/bin/backup.sh\n*/5 * * * * /usr/bin/ping.sh\n";
    let jobs = parse_crontab(text);
    assert_eq!(jobs.len(), 2);
    assert_eq!(jobs[0].command, "/usr/bin/backup.sh");
    assert_eq!(jobs[1].schedule, "*/5 * * * *");
}

#[test]
fn a_user_without_a_crontab_has_no_jobs() {
    let empty = Json::Object(vec![("jobs".to_string(), Json::List(vec![]))]);
    assert_eq!(list_jobs(false, "x", "No crontab for root\n"), empty);
    assert_eq!(list_jobs(false, "", "anything"), empty);
    let refused = list_jobs(false, "x", " permission denied \n");
    assert_eq!(refused.text_field("error").map(String::as_str), Some("unavailable"));
    assert_eq!(refused.text_field("detail").map(String::as_str), Some("permission denied"));
    let jobs = list_jobs(true, "0 3 * * * a\n", "");
    let list = jobs.field("jobs").unwrap().list().unwrap();
    assert_eq!(list[0].text_field("command").map(String::as_str), Some("a"));
}

#[test]
fn a_crontab_is_its_lines() {
    let (a, b) = ("0 5 * * * one\r\n# no job\n1 2 3 4 5 two", "\n\n* * * * * three x\n");
    let read = |t: &str| -> Vec<(String, String)> {
        parse_crontab(t).into_iter().map(|j| (j.schedule, j.command)).collect()
    };
    let mut both = read(a);
    both.extend(read(b));
    assert_eq!(both.len(), 3);
    assert_eq!(read(&format!("{a}\n{b}")), both);
    assert_eq!(read("1 2 3 4 5 two"), vec![("1 2 3 4 5".to_string(), "two".to_string())]);
    assert!(read("1 2 3").is_empty());
}

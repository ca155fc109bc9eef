use chrono::Datelike;
use zsnapmgr::dates::{
    date_from_snapshot, date_str, day_number_exec, days_between, iso_weekday_exec, label_of,
    parse_date, succ_date_exec, volume_of, week_of_year, Date,
};
use zsnapmgr::retention::{
    decimate, retention_entries, snapshot_automanage_plan, RetentionAction,
};

fn d(y: u16, m: u8, day: u8) -> Date {
    Date { year: y, month: m, day }
}

fn daily_snapshots(volume: &str, first: Date, count: usize) -> (Vec<String>, Date) {
    let mut out = Vec::new();
    let mut cur = first;
    let mut last = first;
    for _ in 0..count {
        out.push(format!("{}@{}", volume, date_str(&cur)));
        last = cur;
        cur = succ_date_exec(&cur);
    }
    (out, last)
}

#[test]
fn ranks_up_to_thirty_are_never_thinned() {
    // 30 daily snapshots, the newest from today: every rank is at most 30.
    let (snaps, today) = daily_snapshots("tank/data", d(2024, 3, 2), 30);
    let entries = retention_entries(&snaps, "tank/data");
    let plan = decimate(&today, &entries);
    assert_eq!(plan.decisions.len(), 30);
    assert!(!plan.create_today);
    for (k, dec) in plan.decisions.iter().enumerate() {
        assert_eq!(dec.rank, k as u64 + 1);
        assert_eq!(dec.action, RetentionAction::Keep);
    }
    assert_eq!(plan.decisions[0].snapshot, "tank/data@2024-03-31");
    assert_eq!(plan.decisions[0].days_old, 0);
    assert_eq!(plan.decisions[29].days_old, 29);
}

#[test]
fn rank_sixty_one_is_deleted_unless_first_of_its_month() {
    // 62 daily snapshots ending today: rank 61 is the second-oldest.
    let (snaps, today) = daily_snapshots("tank/data", d(2024, 1, 30), 62);
    assert_eq!(today, d(2024, 3, 31));
    let entries = retention_entries(&snaps, "tank/data");
    let plan = decimate(&today, &entries);
    assert_eq!(plan.decisions.len(), 62);
    assert!(!plan.create_today);

    // Rank 62 (2024-01-30) is the earliest snapshot of January: kept.
    let oldest = &plan.decisions[61];
    assert_eq!(oldest.rank, 62);
    assert_eq!(oldest.date, d(2024, 1, 30));
    assert_eq!(oldest.action, RetentionAction::Keep);

    // Rank 61 (2024-01-31) is not the first of its month: deleted.
    let rank61 = &plan.decisions[60];
    assert_eq!(rank61.rank, 61);
    assert_eq!(rank61.date, d(2024, 1, 31));
    assert_eq!(
        rank61.action,
        RetentionAction::DeleteNotFirstOfMonth { month_anchor: d(2024, 1, 30) }
    );

    // Every rank at 30 or below is kept.
    for dec in plan.decisions.iter().take(30) {
        assert_eq!(dec.action, RetentionAction::Keep);
    }
}

#[test]
fn middle_ranks_keep_week_and_month_anchors() {
    let (snaps, today) = daily_snapshots("tank/data", d(2024, 1, 30), 62);
    let entries = retention_entries(&snaps, "tank/data");
    let plan = decimate(&today, &entries);
    // Rank 31..=60 exist; anchors of week or month survive, the rest go.
    let mut kept = 0;
    let mut deleted = 0;
    for dec in &plan.decisions {
        if dec.rank > 30 && dec.rank <= 60 {
            match dec.action {
                RetentionAction::Keep => kept += 1,
                RetentionAction::DeleteNotFirstOfPeriod { .. } => deleted += 1,
                RetentionAction::DeleteNotFirstOfMonth { .. } => {
                    panic!("the month-only rule applies past rank 60")
                }
            }
        }
    }
    // Thirty daily snapshots span about four weeks plus a month boundary.
    assert!(kept >= 4 && kept <= 7, "kept {} week/month anchors", kept);
    assert_eq!(kept + deleted, 30);
    // 2024-02-01 is the earliest February snapshot in range: kept.
    let feb1 = plan
        .decisions
        .iter()
        .find(|dec| dec.date == d(2024, 2, 1))
        .unwrap();
    assert_eq!(feb1.action, RetentionAction::Keep);
}

#[test]
fn a_stale_history_requires_a_snapshot_today() {
    // 30 daily snapshots whose newest is from yesterday: ranks shift by
    // one, and a snapshot must be created today.
    let (snaps, yesterday) = daily_snapshots("tank/data", d(2024, 3, 1), 30);
    let today = succ_date_exec(&yesterday);
    let entries = retention_entries(&snaps, "tank/data");
    let plan = decimate(&today, &entries);
    assert!(plan.create_today);
    assert_eq!(plan.decisions[0].rank, 2);
    assert_eq!(plan.decisions[29].rank, 31);
    // Rank 31 is the earliest March snapshot: kept as its month anchor.
    assert_eq!(plan.decisions[29].action, RetentionAction::Keep);
}

#[test]
fn duplicate_dates_keep_the_later_listed_snapshot() {
    let snaps = vec![
        "tank/a@2024-01-01".to_string(),
        "tank/a@2024-1-1".to_string(), // not a strict date label: ignored
        "tank/a@2024-01-02".to_string(),
    ];
    let entries = retention_entries(&snaps, "tank/a");
    assert_eq!(entries.len(), 2);
    assert_eq!(entries[0].snapshot, "tank/a@2024-01-01");
    assert_eq!(entries[1].snapshot, "tank/a@2024-01-02");
}

#[test]
fn automanage_covers_each_dated_volume_once() {
    let snaps = vec![
        "tank/a@2024-03-30".to_string(),
        "tank/b@2024-03-31".to_string(),
        "tank/a@2024-03-31".to_string(),
        "tank/c@notadate".to_string(),
    ];
    let today = d(2024, 3, 31);
    let plans = snapshot_automanage_plan(&today, &snaps);
    assert_eq!(plans.len(), 2);
    assert_eq!(plans[0].0, "tank/a");
    assert_eq!(plans[1].0, "tank/b");
    assert_eq!(plans[0].1.decisions.len(), 2);
    assert!(!plans[0].1.create_today);
    assert_eq!(plans[1].1.decisions.len(), 1);
}

#[test]
fn strict_date_labels() {
    assert_eq!(parse_date("2024-02-29"), Some(d(2024, 2, 29)));
    assert_eq!(parse_date("2023-02-29"), None);
    assert_eq!(parse_date("2024-13-01"), None);
    assert_eq!(parse_date("2024-00-10"), None);
    assert_eq!(parse_date("2024-1-1"), None);
    assert_eq!(parse_date("0000-01-01"), None);
    assert_eq!(parse_date("yesterday"), None);
    assert_eq!(date_from_snapshot("tank/a@2024-03-05"), Some(d(2024, 3, 5)));
    assert_eq!(date_from_snapshot("tank/a@nightly"), None);
    assert_eq!(date_str(&d(2024, 3, 5)), "2024-03-05");
    assert_eq!(volume_of("tank/a@2024-03-05"), "tank/a");
    assert_eq!(label_of("tank/a@2024-03-05"), "2024-03-05");
    assert_eq!(volume_of("plainname"), "plainname");
    assert_eq!(label_of("plainname"), "plainname");
}

#[test]
fn calendar_arithmetic_agrees_with_the_date_library() {
    let mut cur = d(2019, 12, 1);
    let mut nd = chrono::NaiveDate::from_ymd_opt(2019, 12, 1).unwrap();
    let base = day_number_exec(&cur);
    let base_nd = nd;
    for _ in 0..800 {
        // Day numbers advance with the calendar.
        let diff = days_between(&cur, &d(2019, 12, 1));
        assert_eq!(diff, (nd - base_nd).num_days());
        assert_eq!(day_number_exec(&cur) - base, diff as u64);
        // Weekdays match, Monday being 1.
        assert_eq!(
            iso_weekday_exec(&cur),
            nd.weekday().number_from_monday() as u64
        );
        // The Sunday-start week equals the ISO week of the day itself,
        // or of the following day on Sundays.
        let probe = if nd.weekday() == chrono::Weekday::Sun {
            nd.succ_opt().unwrap()
        } else {
            nd
        };
        let expect = probe.iso_week();
        let got = week_of_year(&cur);
        assert_eq!(got.0, expect.year() as u64);
        assert_eq!(got.1, expect.week() as u64);
        cur = succ_date_exec(&cur);
        nd = nd.succ_opt().unwrap();
    }
}

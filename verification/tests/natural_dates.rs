use chrono::TimeZone;
use chrono::Utc;
use chrono_english::{parse_date_string, Dialect};
use retodos::{Repository, ToDoItem};

// The date grammar is glue around the core: it turns phrases into timestamps
// relative to a base time. With the base fixed, the outcome is deterministic
// and the core's ordering can be checked end to end.
#[test]
fn scenario_natural_language_dates_order_the_list() {
    let base = Utc.with_ymd_and_hms(2015, 5, 14, 12, 0, 0).unwrap();
    let tomorrow = parse_date_string("tomorrow", base, Dialect::Uk)
        .unwrap()
        .timestamp();
    let in_three_days = parse_date_string("3 days", base, Dialect::Uk)
        .unwrap()
        .timestamp();
    assert_eq!(tomorrow, base.timestamp() + 86400);
    assert_eq!(in_three_days, base.timestamp() + 3 * 86400);

    let mut repo = Repository::new();
    repo.add_item(&ToDoItem::new("Buy milk".to_string(), tomorrow).unwrap())
        .unwrap();
    repo.add_item(&ToDoItem::new("Pay rent".to_string(), in_three_days).unwrap())
        .unwrap();
    let titles: Vec<String> = repo
        .list_items()
        .unwrap()
        .iter()
        .map(|it| it.title.clone())
        .collect();
    assert_eq!(titles, vec!["Buy milk".to_string(), "Pay rent".to_string()]);
}

use places::import::{
    account, check_version, import_history, import_rows, stage_history, ForeignDatabase,
    ForeignHistoryRow, ForeignVisit, ImportError, Place, Store, Visit,
};
use places::interrupt::InterruptHandle;

fn row(guid: &str, url: Option<&str>, title: Option<&str>) -> ForeignHistoryRow {
    ForeignHistoryRow {
        guid: guid.to_string(),
        url: url.map(|u| u.to_string()),
        title: title.map(|t| t.to_string()),
    }
}

fn visit(guid: &str, date: i64) -> ForeignVisit {
    ForeignVisit { history_guid: guid.to_string(), date, visit_type: 1, is_local: true }
}

fn empty_store() -> Store {
    Store { places: Vec::new(), visits: Vec::new() }
}

fn ten_row_database() -> ForeignDatabase {
    let mut history = Vec::new();
    let mut visits = Vec::new();
    for i in 0..10 {
        let guid = format!("guid{}", i);
        let url = if i < 8 { format!("http://example.com/page{}", i) } else { "not a url".to_string() };
        history.push(row(&guid, Some(&url), Some("title")));
        visits.push(visit(&guid, 1000 + i as i64));
    }
    ForeignDatabase { user_version: 39, history, visits }
}

#[test]
fn ten_visits_two_malformed_urls() {
    let mut store = empty_store();
    let src = ten_row_database();
    let r = import_rows(&mut store, &src);
    assert_eq!(r.num_total, 10);
    assert_eq!(r.num_succeeded, 8);
    assert_eq!(r.num_failed, 2);
    assert_eq!(store.places.len(), 8);
    assert_eq!(store.visits.len(), 8);
}

#[test]
fn old_version_is_refused_and_store_untouched() {
    let mut store = empty_store();
    store.places.push(Place { url: "http://kept.example/".to_string(), title: None });
    let mut src = ten_row_database();
    src.user_version = 33;
    let handle = InterruptHandle::new();
    let r = import_history(&mut store, &src, &handle);
    assert_eq!(r, Err(ImportError::UnsupportedDatabaseVersion(33)));
    assert_eq!(store.places.len(), 1);
    assert_eq!(store.visits.len(), 0);
}

#[test]
fn version_check_boundary() {
    assert_eq!(check_version(33), Err(ImportError::UnsupportedDatabaseVersion(33)));
    assert_eq!(check_version(34), Ok(()));
    assert_eq!(check_version(-1), Err(ImportError::UnsupportedDatabaseVersion(-1)));
}

#[test]
fn empty_database_imports_nothing() {
    let mut store = empty_store();
    store.places.push(Place { url: "http://kept.example/".to_string(), title: None });
    store.visits.push(Visit { place_id: 0, date: 5, visit_type: 1, is_local: true });
    let src = ForeignDatabase { user_version: 34, history: Vec::new(), visits: Vec::new() };
    let handle = InterruptHandle::new();
    let r = import_history(&mut store, &src, &handle).unwrap();
    assert_eq!(r.num_total, 0);
    assert_eq!(r.num_succeeded, 0);
    assert_eq!(r.num_failed, 0);
    assert_eq!(store.places.len(), 1);
    assert_eq!(store.visits.len(), 1);
}

#[test]
fn second_import_adds_no_places() {
    let mut store = empty_store();
    let src = ten_row_database();
    import_rows(&mut store, &src);
    let urls: Vec<String> = store.places.iter().map(|p| p.url.clone()).collect();
    let r = import_rows(&mut store, &src);
    assert_eq!(store.places.len(), 8);
    let again: Vec<String> = store.places.iter().map(|p| p.url.clone()).collect();
    assert_eq!(urls, again);
    assert_eq!(r.num_succeeded, 8);
}

#[test]
fn existing_place_keeps_its_title() {
    let mut store = empty_store();
    store.places.push(Place { url: "http://example.com/page0".to_string(), title: Some("mine".to_string()) });
    let src = ten_row_database();
    import_rows(&mut store, &src);
    assert_eq!(store.places.len(), 8);
    assert_eq!(store.places[0].title, Some("mine".to_string()));
    assert_eq!(store.visits[0].place_id, 0);
}

#[test]
fn unparsable_url_is_not_staged() {
    let rows = vec![row("a", Some("not a url"), None), row("b", Some("http://ok.example/"), None), row("c", None, None)];
    let staged = stage_history(&rows);
    assert_eq!(staged.len(), 1);
    assert_eq!(staged[0].guid, "b");
}

#[test]
fn urls_are_normalised_when_staged() {
    let rows = vec![row("a", Some("HTTP://Example.COM"), Some("t")), row("b", Some("http://b\u{fc}cher.de/"), None)];
    let staged = stage_history(&rows);
    assert_eq!(staged.len(), 2);
    assert_eq!(staged[0].url, "http://example.com/");
    assert_eq!(staged[0].title, Some("t".to_string()));
    assert_eq!(staged[1].url, "http://xn--bcher-kva.de/");
}

#[test]
fn first_row_of_a_guid_wins() {
    let rows = vec![row("a", Some("http://one.example/"), None), row("a", Some("http://two.example/"), None)];
    let staged = stage_history(&rows);
    assert_eq!(staged.len(), 1);
    assert_eq!(staged[0].url, "http://one.example/");
}

#[test]
fn visits_to_unknown_guid_are_skipped() {
    let mut store = empty_store();
    let src = ForeignDatabase {
        user_version: 40,
        history: vec![row("a", Some("http://a.example/"), None)],
        visits: vec![visit("a", 10), visit("missing", 11), visit("a", 12)],
    };
    let r = import_rows(&mut store, &src);
    assert_eq!(r.num_total, 3);
    assert_eq!(r.num_succeeded, 2);
    assert_eq!(r.num_failed, 1);
    assert_eq!(store.visits[1], Visit { place_id: 0, date: 12, visit_type: 1, is_local: true });
}

#[test]
fn account_computes_failed() {
    let r = account(10, 3, 11, 7);
    assert_eq!(r.num_total, 10);
    assert_eq!(r.num_succeeded, 8);
    assert_eq!(r.num_failed, 2);
    assert_eq!(r.total_duration, 7);
}

#[test]
fn import_history_matches_import_rows() {
    let mut a = empty_store();
    let mut b = empty_store();
    let src = ten_row_database();
    let handle = InterruptHandle::new();
    let r1 = import_history(&mut a, &src, &handle).unwrap();
    let r2 = import_rows(&mut b, &src);
    assert_eq!(r1, r2);
    assert_eq!(a.visits, b.visits);
}

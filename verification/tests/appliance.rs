//! Address-book and room-lookup tests.

use hevn::appliance::find_room;
use hevn::MyCollector;

#[test]
fn collector_entry_getters() {
    let c = MyCollector::new("http://10.0.0.7:5000".to_string(), "bedroom".to_string());
    assert_eq!(c.get_url(), "http://10.0.0.7:5000");
    assert_eq!(c.get_room(), "bedroom");
}

#[test]
fn find_room_picks_first_match() {
    let rooms = vec![
        "kitchen".to_string(),
        "bedroom".to_string(),
        "bedroom".to_string(),
    ];
    assert_eq!(find_room(&rooms, &"bedroom".to_string()), Some(1));
    assert_eq!(find_room(&rooms, &"kitchen".to_string()), Some(0));
}

#[test]
fn find_room_absent_when_no_match() {
    let rooms = vec!["kitchen".to_string()];
    assert_eq!(find_room(&rooms, &"attic".to_string()), None);
    let empty: Vec<String> = Vec::new();
    assert_eq!(find_room(&empty, &"attic".to_string()), None);
}

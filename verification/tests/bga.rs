use rxbms::bga::{BgaCursor, BgaEvent};

fn ev(t: i64, id: usize) -> BgaEvent {
    BgaEvent { time_us: t, bmp_id: id }
}

#[test]
fn cursor_switches_on_change_only() {
    let events = vec![ev(0, 1), ev(1_000, 1), ev(2_000, 2), ev(3_000, 2), ev(4_000, 1)];
    let mut c = BgaCursor::new();
    assert_eq!(c.advance(&events, -1), Vec::<usize>::new());
    assert_eq!(c.advance(&events, 0), vec![1]);
    assert_eq!(c.current, Some(1));
    assert_eq!(c.advance(&events, 3_500), vec![2]);
    assert_eq!(c.next_idx, 4);
    assert_eq!(c.advance(&events, 10_000), vec![1]);
    assert_eq!(c.next_idx, 5);
    assert_eq!(c.advance(&events, 20_000), Vec::<usize>::new());
}

#[test]
fn cursor_fires_all_due_events_at_once() {
    let events = vec![ev(0, 3), ev(10, 4), ev(20, 3)];
    let mut c = BgaCursor::new();
    assert_eq!(c.advance(&events, 100), vec![3, 4, 3]);
    assert_eq!(c.current, Some(3));
}

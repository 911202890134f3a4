use std::sync::{Arc, Mutex};

use blaze::events::{Dispatcher, Event, EventSink};

struct Capture(Arc<Mutex<Vec<usize>>>);

impl EventSink for Capture {
    fn on_events(&self, events: Vec<Event>) {
        self.0.lock().unwrap().push(events.len());
    }
}

#[test]
fn events_batch_per_flush() {
    let sizes = Arc::new(Mutex::new(Vec::new()));
    let mut d = Dispatcher::new(Box::new(Capture(sizes.clone())));
    d.emit(Event::WindowClosed { window: "w".into() });
    d.emit(Event::TabClosed { tab: "t".into(), window: "w".into() });
    d.flush();
    d.flush(); // empty flush emits nothing
    assert_eq!(*sizes.lock().unwrap(), vec![2]);
}

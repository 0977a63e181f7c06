use emitter_rs::{EventEmitter, Handler};
use std::sync::{Arc, Mutex};

/// A type-erased callback: it decodes the payload and calls the typed closure.
#[derive(Clone)]
struct Callback(Arc<dyn Fn(Vec<u8>) + Send + Sync>);

impl Handler for Callback {
    fn handle(&self, payload: Vec<u8>) {
        (self.0)(payload)
    }
}

fn typed<T, F>(callback: F) -> Callback
where
    for<'de> T: serde::Deserialize<'de>,
    F: Fn(T) + Send + Sync + 'static,
{
    Callback(Arc::new(move |bytes: Vec<u8>| {
        let value: T = serde_json::from_slice(&bytes).unwrap();
        callback(value);
    }))
}

fn emit<T: serde::Serialize>(emitter: &mut EventEmitter<Callback>, event: &str, value: T) {
    if emitter.listeners.get(event).is_some() {
        let bytes = serde_json::to_vec(&value).unwrap();
        for job in emitter.emit(event, bytes) {
            job.run();
        }
    }
}

#[test]
fn test_on() {
    let mut event_emitter = EventEmitter::new();
    let counter: Arc<Mutex<u32>> = Arc::new(Mutex::new(5));

    let cloned_counter = Arc::clone(&counter);
    event_emitter.on(
        "Set",
        typed(move |value: u32| {
            *cloned_counter.lock().unwrap() = value;
        }),
    );

    emit(&mut event_emitter, "Set", 10 as u32);

    assert_eq!(
        10,
        *counter.lock().unwrap(),
        "Counter should have been set to the emitted value"
    );

    struct Container {
        list: Vec<String>,
    }

    let container: Arc<Mutex<Container>> = Arc::new(Mutex::new(Container { list: Vec::new() }));

    let cloned_container = Arc::clone(&container);
    event_emitter.on(
        "Add Value To List",
        typed(move |value: String| {
            let mut container = cloned_container.lock().unwrap();
            (*container).list.push(value);
        }),
    );

    emit(&mut event_emitter, "Add Value To List", "hello".to_string());

    assert_eq!(
        vec!["hello".to_string()],
        (*container.lock().unwrap()).list,
        "'hello' should have been pushed to the list after the 'Add Value To List' event was called with 'hello'"
    );
}

#[test]
fn test_remove_listener() {
    let mut event_emitter = EventEmitter::new();
    let listener_id = event_emitter.on("Hello rust!", typed(|_: String| println!("Hello world!")));
    assert_eq!(
        1,
        event_emitter.listeners.get("Hello rust!").unwrap().len(),
        "Failed to add event emitter to listeners vector"
    );

    event_emitter.remove_listener(&"foobar".to_string());
    assert_eq!(
        1,
        event_emitter.listeners.get("Hello rust!").unwrap().len(),
        "Should not have removed listener"
    );

    event_emitter.remove_listener(&listener_id);
    assert_eq!(
        0,
        event_emitter.listeners.get("Hello rust!").unwrap().len(),
        "Should have removed listener"
    );
}

#[test]
fn test_on_limited() {
    let mut event_emitter = EventEmitter::new();
    let counter: Arc<Mutex<u32>> = Arc::new(Mutex::new(5));

    let cloned_counter = Arc::clone(&counter);
    event_emitter.on_limited(
        "Set",
        Some(2),
        typed(move |value: u32| {
            *cloned_counter.lock().unwrap() = value;
        }),
    );
    assert_eq!(
        2,
        event_emitter
            .listeners
            .get("Set")
            .unwrap()
            .first()
            .unwrap()
            .limit
            .unwrap(),
        "Listener should have been added with a limit of 2 calls"
    );

    emit(&mut event_emitter, "Set", 10 as u32);
    assert_eq!(
        1,
        event_emitter
            .listeners
            .get("Set")
            .unwrap()
            .first()
            .unwrap()
            .limit
            .unwrap(),
        "Listener limit should have been reduced by 1"
    );

    emit(&mut event_emitter, "Set", 20 as u32);
    assert_eq!(
        0,
        event_emitter
            .listeners
            .get("Set")
            .unwrap()
            .first()
            .unwrap()
            .limit
            .unwrap(),
        "Listener should have 0 calls left"
    );
    assert_eq!(
        20,
        *counter.lock().unwrap(),
        "Counter should have been set to the emitted value"
    );

    emit(&mut event_emitter, "Set", 30 as u32);
    assert_eq!(
        0,
        event_emitter.listeners.get("Set").unwrap().len(),
        "Listener should have been removed after reaching its limit"
    );
}

#[test]
fn test_once() {
    let mut event_emitter = EventEmitter::new();
    let counter: Arc<Mutex<u32>> = Arc::new(Mutex::new(0));

    let cloned_counter = Arc::clone(&counter);
    event_emitter.once(
        "Set Once",
        typed(move |value: u32| {
            *cloned_counter.lock().unwrap() = value;
        }),
    );

    emit(&mut event_emitter, "Set Once", 10 as u32);
    assert_eq!(
        10,
        *counter.lock().unwrap(),
        "Counter should have been set to the emitted value"
    );

    emit(&mut event_emitter, "Set Once", 20 as u32);
    assert_eq!(
        10,
        *counter.lock().unwrap(),
        "Counter should not have been changed after the first call"
    );
}

#[test]
fn test_global_emitter() {
    let shared: Mutex<EventEmitter<Callback>> = Mutex::new(EventEmitter::new());

    shared
        .lock()
        .unwrap()
        .on("Hello", typed(|_: ()| println!("hello there!")));
    emit(&mut shared.lock().unwrap(), "Hello", ());
}

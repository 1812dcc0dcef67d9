use short_link_store::backend::{BackendFault, MemoryBackend};
use short_link_store::error::LinkError;
use short_link_store::handler::{CreateLink, LinkHandler, COUNTER_KEY};
use short_link_store::store::LinkStore;

fn create(store: &mut LinkStore, url: &str) -> (String, String) {
    let link = store
        .create(CreateLink { url: url.to_string() })
        .expect("create");
    (link.code, link.url)
}

#[test]
fn link_get() {
    let url = "https://github.com/tokio-rs/axum/blob/main/examples/todos/src/main.rs";
    let mut store = LinkStore::new();
    create(&mut store, url);
    let link = store.get("B".to_string()).expect("hit");
    assert_eq!(link.code, "B");
    assert_eq!(link.url, url);
}

#[test]
fn first_create_takes_counter_value_one() {
    let mut store = LinkStore::new();
    let (code, url) = create(&mut store, "https://example.com/a");
    assert_eq!(code, "B");
    assert_eq!(url, "https://example.com/a");
}

#[test]
fn get_after_first_create() {
    let mut store = LinkStore::new();
    create(&mut store, "https://example.com/a");
    let link = store.get("B".to_string()).expect("hit");
    assert_eq!(link.code, "B");
    assert_eq!(link.url, "https://example.com/a");
}

#[test]
fn get_of_code_never_created_is_not_found() {
    let mut store = LinkStore::new();
    create(&mut store, "https://example.com/a");
    assert!(matches!(store.get("zzzz".to_string()), Err(LinkError::NotFound)));
    assert!(matches!(store.get("!!".to_string()), Err(LinkError::NotFound)));
    assert!(matches!(store.get(String::new()), Err(LinkError::NotFound)));
}

#[test]
fn two_creates_never_share_a_code() {
    let mut store = LinkStore::new();
    let (a, _) = create(&mut store, "https://example.com/a");
    let (b, _) = create(&mut store, "https://example.com/a");
    assert_eq!(a, "B");
    assert_eq!(b, "C");
    assert_ne!(a, b);
}

#[test]
fn many_creates_give_distinct_codes_and_round_trip() {
    let mut store = LinkStore::new();
    let mut made: Vec<(String, String)> = Vec::new();
    for i in 0..200 {
        made.push(create(&mut store, &format!("https://example.com/{}", i)));
    }
    assert_eq!(made[21].0, "W");
    for (i, (code, url)) in made.iter().enumerate() {
        for (other, _) in made.iter().skip(i + 1) {
            assert_ne!(code, other);
        }
        let link = store.get(code.clone()).expect("hit");
        assert_eq!(&link.url, url);
    }
}

#[test]
fn url_is_stored_verbatim() {
    let mut store = LinkStore::new();
    let (code, _) = create(&mut store, "  not a url at all ");
    assert_eq!(store.get(code).expect("hit").url, "  not a url at all ");
}

#[test]
fn delete_removes_link_and_keeps_counter() {
    let mut store = LinkStore::new();
    let (a, _) = create(&mut store, "https://example.com/a");
    assert_eq!(store.delete(a.clone()), Ok(()));
    assert!(matches!(store.get(a.clone()), Err(LinkError::NotFound)));
    assert_eq!(store.delete("zzzz".to_string()), Ok(()));
    let (b, _) = create(&mut store, "https://example.com/b");
    assert_eq!(b, "C");
    assert_ne!(a, b);
}

#[test]
fn backend_counter_and_entries() {
    let mut backend = MemoryBackend::new();
    assert_eq!(backend.increment(), Ok(1));
    assert_eq!(backend.increment(), Ok(2));
    let key = "k".to_string();
    assert_eq!(backend.get(&key), None);
    backend.set(key.clone(), "v1".to_string());
    backend.set("other".to_string(), "w".to_string());
    assert_eq!(backend.get(&key), Some("v1".to_string()));
    backend.set(key.clone(), "v2".to_string());
    assert_eq!(backend.get(&key), Some("v2".to_string()));
    backend.delete(&key);
    assert_eq!(backend.get(&key), None);
    assert_eq!(backend.get(&"other".to_string()), Some("w".to_string()));
}

#[test]
fn handler_create_decisions() {
    let link = LinkHandler::create(CreateLink { url: "u".to_string() }, Ok(123)).expect("link");
    assert_eq!(link.code, "B9");
    assert_eq!(link.url, "u");
    assert!(matches!(
        LinkHandler::create(CreateLink { url: "u".to_string() }, Err(BackendFault)),
        Err(LinkError::CounterIncrementFailed)
    ));
}

#[test]
fn handler_finish_create_decisions() {
    let link = LinkHandler::create(CreateLink { url: "u".to_string() }, Ok(1)).expect("link");
    let done = LinkHandler::finish_create(link, Ok(())).expect("done");
    assert_eq!(done.code, "B");
    let link = LinkHandler::create(CreateLink { url: "u".to_string() }, Ok(1)).expect("link");
    assert!(matches!(
        LinkHandler::finish_create(link, Err(BackendFault)),
        Err(LinkError::BackendUnavailable)
    ));
}

#[test]
fn handler_get_and_delete_decisions() {
    let hit = LinkHandler::get("B".to_string(), Ok(Some("u".to_string()))).expect("hit");
    assert_eq!(hit.code, "B");
    assert_eq!(hit.url, "u");
    assert!(matches!(
        LinkHandler::get("B".to_string(), Ok(None)),
        Err(LinkError::NotFound)
    ));
    assert!(matches!(
        LinkHandler::get("B".to_string(), Err(BackendFault)),
        Err(LinkError::BackendUnavailable)
    ));
    assert_eq!(LinkHandler::delete(Ok(())), Ok(()));
    assert_eq!(LinkHandler::delete(Err(BackendFault)), Err(LinkError::BackendUnavailable));
    assert_eq!(COUNTER_KEY, "next.url.id");
}

use std::collections::BTreeMap;

use s3_storage::error::StorageError;
use s3_storage::storage::{read_outcome, ListAction, ListPage, ListRequest, S3Storage};

fn store(prefix: &str) -> S3Storage {
    S3Storage::new(String::from("bucket"), String::from(prefix))
}

fn page(keys: &[Option<&str>], next: Option<&str>) -> ListPage {
    ListPage {
        keys: keys.iter().map(|k| k.map(String::from)).collect(),
        next_token: next.map(String::from),
    }
}

/// Runs a listing against pages served in order; returns the result and
/// the requests made.
fn run_listing(
    s: &S3Storage,
    dir: &str,
    mut pages: Vec<Result<ListPage, StorageError>>,
) -> (Result<Vec<String>, StorageError>, Vec<ListRequest>) {
    let (mut listing, first) = s.start_list(dir);
    let mut requests = vec![first];
    pages.reverse();
    loop {
        let response = pages.pop().expect("more requests than pages");
        match listing.step(response) {
            ListAction::Fetch(next) => requests.push(next),
            ListAction::Done => return (Ok(listing.into_names()), requests),
            ListAction::Fail(e) => return (Err(e), requests),
        }
    }
}

/// A simulated object store that keeps what is written.
struct MemoryStore {
    objects: BTreeMap<String, Vec<u8>>,
}

impl MemoryStore {
    fn write(&mut self, s: &S3Storage, name: &str, data: &[u8]) {
        self.objects.insert(s.make_key(name), data.to_vec());
    }

    fn read(&self, s: &S3Storage, name: &str) -> Result<Vec<u8>, StorageError> {
        read_outcome(self.objects.get(&s.make_key(name)).cloned())
    }

    fn list(&self, s: &S3Storage, dir: &str) -> Result<Vec<String>, StorageError> {
        let (mut listing, request) = s.start_list(dir);
        let prefix = request.prefix.unwrap_or_default();
        let keys: Vec<Option<String>> = self
            .objects
            .keys()
            .filter(|k| k.starts_with(&prefix))
            .map(|k| Some(k.clone()))
            .collect();
        match listing.step(Ok(ListPage { keys, next_token: None })) {
            ListAction::Done => Ok(listing.into_names()),
            ListAction::Fail(e) => Err(e),
            ListAction::Fetch(_) => panic!("no further page was announced"),
        }
    }
}

#[test]
fn new_normalizes_prefix() {
    assert_eq!(store("").prefix(), "");
    assert_eq!(store("data").prefix(), "data/");
    assert_eq!(store("data/").prefix(), "data/");
    assert_eq!(store("data//").prefix(), "data/");
    assert_eq!(store("a/b///").prefix(), "a/b/");
    assert_eq!(store("/").prefix(), "/");
    assert_eq!(store("data").bucket(), "bucket");
}

#[test]
fn make_prefix_adds_one_separator() {
    assert_eq!(store("p").make_prefix("d"), Some(String::from("p/d/")));
    assert_eq!(store("p").make_prefix("d/"), Some(String::from("p/d/")));
    assert_eq!(store("p").make_prefix("d//"), Some(String::from("p/d/")));
    assert_eq!(store("a").make_prefix("x//"), Some(String::from("a/x/")));
    assert_eq!(store("").make_prefix("//"), Some(String::from("/")));
    assert_eq!(store("p").make_prefix(""), Some(String::from("p/")));
    assert_eq!(store("").make_prefix("d"), Some(String::from("d/")));
    assert_eq!(store("").make_prefix(""), None);
}

#[test]
fn make_prefix_ends_with_exactly_one_separator() {
    for dir in ["a", "a/", "a/b", "x/y/", "x//", "", "///"] {
        let p = store("root").make_prefix(dir).unwrap();
        assert!(p.ends_with('/'));
        assert!(!p.ends_with("//"));
    }
}

#[test]
fn make_key_is_verbatim() {
    assert_eq!(store("p").make_key("a/b.txt"), "p/a/b.txt");
    assert_eq!(store("p").make_key("dir/"), "p/dir/");
}

#[test]
fn make_key_without_prefix_is_the_name() {
    assert_eq!(store("").make_key("notes/a.txt"), "notes/a.txt");
    assert_eq!(store("").make_key(""), "");
}

#[test]
fn strip_prefix_round_trip() {
    let s = store("p");
    let prefix = s.make_prefix("dir").unwrap();
    let key = format!("{}{}", prefix, "file.bin");
    assert_eq!(s.strip_prefix("dir", &key), Some(String::from("file.bin")));
    assert_eq!(store("").strip_prefix("", "whole/key"), Some(String::from("whole/key")));
}

#[test]
fn strip_prefix_outside_directory_fails() {
    assert_eq!(store("p").strip_prefix("dir", "q/dir/file"), None);
    assert_eq!(store("p").strip_prefix("dir", "p/dir"), None);
}

#[test]
fn listing_follows_continuation_tokens() {
    let s = store("root");
    let pages = vec![
        Ok(page(&[Some("root/d/a"), Some("root/d/b")], Some("tok"))),
        Ok(page(&[Some("root/d/c"), Some("root/d/e")], None)),
    ];
    let (result, requests) = run_listing(&s, "d", pages);
    assert_eq!(result.unwrap(), vec!["a", "b", "c", "e"]);
    assert_eq!(requests.len(), 2);
}

#[test]
fn listing_requests_carry_prefix_and_token() {
    let s = store("root");
    let (mut listing, first) = s.start_list("d");
    assert_eq!(first.prefix, Some(String::from("root/d/")));
    assert_eq!(first.continuation_token, None);
    match listing.step(Ok(page(&[Some("root/d/a")], Some("t1")))) {
        ListAction::Fetch(req) => {
            assert_eq!(req.prefix, Some(String::from("root/d/")));
            assert_eq!(req.continuation_token, Some(String::from("t1")));
        }
        _ => panic!("expected a further request"),
    }
}

#[test]
fn listing_continues_after_page_with_keyless_entry() {
    let s = store("root");
    let pages = vec![
        Ok(page(&[Some("root/d/a"), None], Some("tok"))),
        Ok(page(&[None, Some("root/d/b")], None)),
    ];
    let (result, requests) = run_listing(&s, "d", pages);
    assert_eq!(result.unwrap(), vec!["a", "b"]);
    assert_eq!(requests.len(), 2);
    assert_eq!(requests[1].continuation_token, Some(String::from("tok")));
}

#[test]
fn listing_skips_entries_without_key() {
    let s = store("");
    let pages = vec![Ok(page(&[Some("d/a"), None, Some("d/b")], None))];
    let (result, requests) = run_listing(&s, "d", pages);
    assert_eq!(result.unwrap(), vec!["a", "b"]);
    assert_eq!(requests.len(), 1);
}

#[test]
fn listing_fails_on_key_outside_directory() {
    let s = store("root");
    let pages = vec![
        Ok(page(&[Some("root/d/a")], Some("tok"))),
        Ok(page(&[Some("elsewhere/x")], None)),
    ];
    let (result, _) = run_listing(&s, "d", pages);
    assert!(result.is_err());
}

#[test]
fn listing_fails_when_a_page_request_fails() {
    let s = store("root");
    let pages = vec![
        Ok(page(&[Some("root/d/a")], Some("tok"))),
        Err(StorageError::with_message(String::from("network down"))),
    ];
    let (result, requests) = run_listing(&s, "d", pages);
    assert_eq!(result.unwrap_err().message(), "network down");
    assert_eq!(requests.len(), 2);
}

#[test]
fn listing_whole_bucket_keeps_keys() {
    let s = store("");
    let (result, _) = run_listing(&s, "", vec![Ok(page(&[Some("a/b"), Some("c")], None))]);
    assert_eq!(result.unwrap(), vec!["a/b", "c"]);
}

#[test]
fn page_names_of_empty_page() {
    let s = store("p");
    assert_eq!(s.page_names("d", &Vec::new()).unwrap(), Vec::<String>::new());
}

#[test]
fn read_without_body_fails() {
    assert!(read_outcome(None).is_err());
    assert_eq!(read_outcome(Some(Vec::new())).unwrap(), Vec::<u8>::new());
    assert_eq!(read_outcome(Some(b"abc".to_vec())).unwrap(), b"abc".to_vec());
}

#[test]
fn write_then_list_finds_object() {
    let s = store("");
    let mut m = MemoryStore { objects: BTreeMap::new() };
    m.write(&s, "notes/a.txt", b"hello");
    assert_eq!(m.list(&s, "notes").unwrap(), vec!["a.txt"]);
    assert_eq!(m.read(&s, "notes/a.txt").unwrap(), b"hello".to_vec());
}

#[test]
fn write_then_list_under_prefix() {
    let s = store("base");
    let mut m = MemoryStore { objects: BTreeMap::new() };
    m.write(&s, "notes/a.txt", b"hello");
    assert_eq!(m.objects.keys().next().unwrap(), "base/notes/a.txt");
    assert_eq!(m.list(&s, "notes").unwrap(), vec!["a.txt"]);
}

#[test]
fn independent_reads_and_writes_do_not_interfere() {
    let s = store("p");
    let mut m = MemoryStore { objects: BTreeMap::new() };
    m.write(&s, "x", b"one");
    let r1 = m.read(&s, "x");
    m.write(&s, "y", b"two");
    let r2 = m.read(&s, "y");
    assert_eq!(r1.unwrap(), b"one".to_vec());
    assert_eq!(r2.unwrap(), b"two".to_vec());
    assert_eq!(m.read(&s, "x").unwrap(), b"one".to_vec());
    assert!(m.read(&s, "z").is_err());
}

#[test]
fn error_keeps_message() {
    let e = StorageError::with_message(String::from("boom"));
    assert_eq!(e.message(), "boom");
}

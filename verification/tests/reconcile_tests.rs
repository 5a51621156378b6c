use bookmark_import::ident::RecordId;
use bookmark_import::models::Claims;
use bookmark_import::parser::{parse_bookmarks_html, ParsedBookmark};
use bookmark_import::reconcile::{
    import_bookmarks, import_upload, session_user, ImportError, ImportRun, NewBookmark,
    NewCollection, Reply, Request, Summary,
};

const USER: &str = "65a1b2c3d4e5f60718293a4b";
const OTHER: &str = "0123456789abcdef01234567";

const READING: &str = "<h3>Reading</h3><dl><a href=\"http://a.com\">A</a><a href=\"http://b.com\">B</a></dl><a href=\"http://c.com\">C</a>";

struct FakeStore {
    bookmarks: Vec<NewBookmark>,
    collections: Vec<(RecordId, NewCollection)>,
    requests: usize,
    fail_at: Option<usize>,
}

impl FakeStore {
    fn new() -> FakeStore {
        FakeStore { bookmarks: vec![], collections: vec![], requests: 0, fail_at: None }
    }

    fn fresh_id(&self) -> RecordId {
        let mut bytes = [0xc0u8; 12];
        bytes[11] = self.collections.len() as u8;
        RecordId { bytes }
    }

    fn answer(&mut self, request: Request) -> Reply {
        self.requests += 1;
        if self.fail_at == Some(self.requests) {
            return Reply::Failed;
        }
        match request {
            Request::FindBookmark { user, url } => Reply::BookmarkLookup {
                found: self.bookmarks.iter().any(|b| b.user == user && b.url == url),
            },
            Request::FindCollection { user, name } => Reply::CollectionLookup {
                id: self
                    .collections
                    .iter()
                    .find(|(_, c)| c.user == user && c.name == name)
                    .map(|(id, _)| *id),
            },
            Request::InsertCollection(collection) => {
                let id = self.fresh_id();
                self.collections.push((id, collection));
                Reply::CollectionInserted { id }
            }
            Request::InsertBookmark(bookmark) => {
                self.bookmarks.push(bookmark);
                Reply::BookmarkInserted
            }
            Request::Done(_) | Request::Fail(_) => Reply::Failed,
        }
    }
}

fn claims(sub: &str) -> Claims {
    Claims { sub: sub.to_string(), exp: 0 }
}

fn user_id(sub: &str) -> RecordId {
    session_user(&claims(sub)).unwrap()
}

fn drive(mut run: ImportRun, store: &mut FakeStore) -> Result<Summary, ImportError> {
    loop {
        match run.request_at(1_700_000_000_000) {
            Request::Done(summary) => return Ok(summary),
            Request::Fail(error) => return Err(error),
            request => {
                let reply = store.answer(request);
                run = run.step(reply);
            }
        }
    }
}

fn import(sub: &str, html: &str, store: &mut FakeStore) -> Result<Summary, ImportError> {
    let run = import_bookmarks(&claims(sub), html.as_bytes().to_vec())?;
    drive(run, store)
}

fn item(title: &str, url: &str, folder: Option<&str>) -> ParsedBookmark {
    ParsedBookmark {
        title: title.to_string(),
        url: url.to_string(),
        folder: folder.map(String::from),
    }
}

#[test]
fn empty_upload_is_empty_input() {
    assert_eq!(import_bookmarks(&claims(USER), vec![]).err(), Some(ImportError::EmptyInput));
}

#[test]
fn malformed_user_is_invalid_user() {
    let upload = READING.as_bytes().to_vec();
    assert_eq!(import_bookmarks(&claims("nobody"), upload).err(), Some(ImportError::InvalidUser));
    assert_eq!(import_bookmarks(&claims("nobody"), vec![]).err(), Some(ImportError::InvalidUser));
}

#[test]
fn bytes_that_are_no_text_are_invalid_encoding() {
    let upload = vec![b'<', b'a', 0xff, 0xfe, b'>'];
    assert_eq!(import_bookmarks(&claims(USER), upload).err(), Some(ImportError::InvalidEncoding));
}

#[test]
fn document_without_qualifying_links_is_nothing_to_import() {
    let html = "<html><body><h3>F</h3><dl><a href=\"javascript:void(0)\">x</a><a href=\"mailto:a@b.c\">m</a></dl><a href=\"/rel\">r</a></body></html>";
    assert_eq!(
        import_bookmarks(&claims(USER), html.as_bytes().to_vec()).err(),
        Some(ImportError::NothingToImport)
    );
}

#[test]
fn upload_errors_do_not_depend_on_the_user() {
    let user = RecordId { bytes: [1; 12] };
    assert_eq!(import_upload(user, vec![]).err(), Some(ImportError::EmptyInput));
    assert_eq!(import_upload(user, vec![0xc3]).err(), Some(ImportError::InvalidEncoding));
    assert_eq!(
        import_upload(user, b"<p>nothing here</p>".to_vec()).err(),
        Some(ImportError::NothingToImport)
    );
    let run = import_upload(user, READING.as_bytes().to_vec()).ok().unwrap();
    assert_eq!(
        run.request_at(0),
        Request::FindBookmark { user, url: "http://a.com".to_string() }
    );
}

#[test]
fn run_without_records_cannot_start() {
    let user = user_id(USER);
    assert_eq!(ImportRun::start(user, vec![]).err(), Some(ImportError::NothingToImport));
}

#[test]
fn first_request_looks_the_first_url_up() {
    let user = user_id(USER);
    let run = import_bookmarks(&claims(USER), READING.as_bytes().to_vec()).ok().unwrap();
    assert_eq!(
        run.request_at(0),
        Request::FindBookmark { user, url: "http://a.com".to_string() }
    );
}

#[test]
fn import_of_folder_and_top_level_link() {
    let user = user_id(USER);
    let mut store = FakeStore::new();
    let summary = import(USER, READING, &mut store);
    assert_eq!(summary, Ok(Summary { imported: 3, skipped: 0, collections_created: 1 }));
    assert_eq!(store.collections.len(), 1);
    let (reading, collection) = store.collections[0].clone();
    assert_eq!(
        collection,
        NewCollection {
            user,
            name: "Reading".to_string(),
            description: None,
            created_at: 1_700_000_000_000,
            updated_at: 1_700_000_000_000,
        }
    );
    let stored = |title: &str, url: &str, collection: Option<RecordId>| NewBookmark {
        user,
        title: title.to_string(),
        url: url.to_string(),
        description: None,
        tags: vec![],
        collection,
        created_at: 1_700_000_000_000,
        updated_at: 1_700_000_000_000,
    };
    assert_eq!(
        store.bookmarks,
        vec![
            stored("A", "http://a.com", Some(reading)),
            stored("B", "http://b.com", Some(reading)),
            stored("C", "http://c.com", None),
        ]
    );
}

#[test]
fn second_import_of_the_same_document_skips_everything() {
    let mut store = FakeStore::new();
    let first = import(USER, READING, &mut store).unwrap();
    let bookmarks = store.bookmarks.clone();
    let collections = store.collections.clone();
    let second = import(USER, READING, &mut store);
    assert_eq!(second, Ok(Summary { imported: 0, skipped: 3, collections_created: 0 }));
    assert_eq!(second.unwrap().skipped, first.imported);
    assert_eq!(store.bookmarks, bookmarks);
    assert_eq!(store.collections, collections);
}

#[test]
fn records_sharing_a_folder_share_one_collection() {
    let user = user_id(USER);
    let items: Vec<ParsedBookmark> = (0..7)
        .map(|i| item(&format!("t{i}"), &format!("http://site{i}.org"), Some("Work")))
        .collect();
    let mut store = FakeStore::new();
    let summary = drive(ImportRun::start(user, items).ok().unwrap(), &mut store);
    assert_eq!(summary, Ok(Summary { imported: 7, skipped: 0, collections_created: 1 }));
    let work: Vec<_> = store.collections.iter().filter(|(_, c)| c.name == "Work").collect();
    assert_eq!(work.len(), 1);
    assert_eq!(store.bookmarks.len(), 7);
    assert!(store.bookmarks.iter().all(|b| b.collection == Some(work[0].0)));
}

#[test]
fn existing_collection_is_reused_and_not_counted() {
    let user = user_id(USER);
    let mut store = FakeStore::new();
    let id = RecordId { bytes: [7; 12] };
    store.collections.push((
        id,
        NewCollection {
            user,
            name: "Reading".to_string(),
            description: Some("kept".to_string()),
            created_at: 1,
            updated_at: 2,
        },
    ));
    let before = store.collections.clone();
    let summary = import(USER, READING, &mut store);
    assert_eq!(summary, Ok(Summary { imported: 3, skipped: 0, collections_created: 0 }));
    assert_eq!(store.collections, before);
    assert_eq!(store.bookmarks[0].collection, Some(id));
    assert_eq!(store.bookmarks[1].collection, Some(id));
    assert_eq!(store.bookmarks[2].collection, None);
}

#[test]
fn another_users_records_do_not_count() {
    let mut store = FakeStore::new();
    assert_eq!(
        import(OTHER, READING, &mut store),
        Ok(Summary { imported: 3, skipped: 0, collections_created: 1 })
    );
    assert_eq!(
        import(USER, READING, &mut store),
        Ok(Summary { imported: 3, skipped: 0, collections_created: 1 })
    );
    assert_eq!(store.bookmarks.len(), 6);
    assert_eq!(store.collections.len(), 2);
}

#[test]
fn url_met_twice_in_one_run_is_stored_once() {
    let user = user_id(USER);
    let items = vec![
        item("A", "http://a.com", None),
        item("A too", "http://a.com", Some("Late")),
        item("B", "http://b.com", Some("Late")),
    ];
    let mut store = FakeStore::new();
    let first = drive(ImportRun::start(user, items.clone()).ok().unwrap(), &mut store);
    assert_eq!(first, Ok(Summary { imported: 2, skipped: 1, collections_created: 1 }));
    let second = drive(ImportRun::start(user, items).ok().unwrap(), &mut store);
    assert_eq!(second, Ok(Summary { imported: 0, skipped: 3, collections_created: 0 }));
}

#[test]
fn nested_export_files_everything_under_the_outer_list() {
    let html = "<H1>Bookmarks</H1><DL><p><DT><H3>Reading</H3><DL><p><DT><A HREF=\"http://a.com\">A</A></DL><p><DT><A HREF=\"http://c.com\">C</A></DL>";
    assert_eq!(parse_bookmarks_html(html).len(), 3);
    let mut store = FakeStore::new();
    assert_eq!(
        import(USER, html, &mut store),
        Ok(Summary { imported: 2, skipped: 1, collections_created: 0 })
    );
    assert_eq!(
        import(USER, html, &mut store),
        Ok(Summary { imported: 0, skipped: 3, collections_created: 0 })
    );
}

#[test]
fn storage_failure_aborts_and_keeps_what_was_stored() {
    for fail_at in 1..=8 {
        let mut store = FakeStore::new();
        store.fail_at = Some(fail_at);
        assert_eq!(import(USER, READING, &mut store), Err(ImportError::StorageFailure));
        assert_eq!(store.requests, fail_at);
    }
    let mut store = FakeStore::new();
    store.fail_at = Some(6);
    assert_eq!(import(USER, READING, &mut store), Err(ImportError::StorageFailure));
    assert_eq!(store.bookmarks.len(), 1);
    assert_eq!(store.collections.len(), 1);
    store.fail_at = None;
    assert_eq!(
        import(USER, READING, &mut store),
        Ok(Summary { imported: 2, skipped: 1, collections_created: 0 })
    );
}

#[test]
fn answer_to_another_request_ends_the_run() {
    let user = user_id(USER);
    let run = ImportRun::start(user, vec![item("A", "http://a.com", None)]).ok().unwrap();
    let run = run.step(Reply::BookmarkInserted);
    assert_eq!(run.request_at(5), Request::Fail(ImportError::StorageFailure));
    let run = run.step(Reply::BookmarkLookup { found: false });
    assert_eq!(run.request_at(5), Request::Fail(ImportError::StorageFailure));
}

#[test]
fn finished_run_stays_finished() {
    let user = user_id(USER);
    let run = ImportRun::start(user, vec![item("A", "http://a.com", None)]).ok().unwrap();
    let run = run.step(Reply::BookmarkLookup { found: true });
    let done = Request::Done(Summary { imported: 0, skipped: 1, collections_created: 0 });
    assert_eq!(run.request_at(5), done);
    assert_eq!(run.summary(), Summary { imported: 0, skipped: 1, collections_created: 0 });
    let run = run.step(Reply::Failed);
    assert_eq!(run.request_at(6), done);
}

#[test]
fn requests_follow_one_record_through_its_folder() {
    let user = user_id(USER);
    let id = RecordId { bytes: [9; 12] };
    let run = ImportRun::start(user, vec![item("T", "http://t.org", Some("F"))]).ok().unwrap();
    assert_eq!(run.request_at(1), Request::FindBookmark { user, url: "http://t.org".to_string() });
    let run = run.step(Reply::BookmarkLookup { found: false });
    assert_eq!(run.request_at(2), Request::FindCollection { user, name: "F".to_string() });
    let run = run.step(Reply::CollectionLookup { id: None });
    assert_eq!(
        run.request_at(3),
        Request::InsertCollection(NewCollection {
            user,
            name: "F".to_string(),
            description: None,
            created_at: 3,
            updated_at: 3,
        })
    );
    let run = run.step(Reply::CollectionInserted { id });
    assert_eq!(
        run.request_at(4),
        Request::InsertBookmark(NewBookmark {
            user,
            title: "T".to_string(),
            url: "http://t.org".to_string(),
            description: None,
            tags: vec![],
            collection: Some(id),
            created_at: 4,
            updated_at: 4,
        })
    );
    let run = run.step(Reply::BookmarkInserted);
    assert_eq!(
        run.request_at(5),
        Request::Done(Summary { imported: 1, skipped: 0, collections_created: 1 })
    );
}

#[test]
fn request_stamps_both_times_with_one_clock_reading() {
    let user = user_id(USER);
    let run = ImportRun::start(user, vec![item("T", "http://t.org", None)]).ok().unwrap();
    let run = run.step(Reply::BookmarkLookup { found: false });
    match run.request() {
        Request::InsertBookmark(b) => {
            assert_eq!(b.created_at, b.updated_at);
            assert!(b.created_at > 1_600_000_000_000);
            assert_eq!(b.url, "http://t.org");
        }
        other => panic!("unexpected request {:?}", other),
    }
}

#[test]
fn errors_have_their_status_and_message() {
    assert_eq!(ImportError::EmptyInput.status(), 400);
    assert_eq!(ImportError::InvalidEncoding.status(), 400);
    assert_eq!(ImportError::NothingToImport.status(), 400);
    assert_eq!(ImportError::InvalidUser.status(), 400);
    assert_eq!(ImportError::StorageFailure.status(), 500);
    assert_eq!(ImportError::EmptyInput.message(), "No file uploaded");
    assert_eq!(ImportError::InvalidEncoding.message(), "Invalid file encoding");
    assert_eq!(ImportError::NothingToImport.message(), "No bookmarks found in file");
    assert_eq!(ImportError::InvalidUser.message(), "Invalid user id");
    assert_eq!(ImportError::StorageFailure.message(), "Database error");
}

#[test]
fn text_with_two_byte_characters_is_decoded() {
    let mut store = FakeStore::new();
    let html = "<h3>Caf\u{e9}</h3><dl><a href=\"http://a.com\">\u{fc}ber</a></dl>";
    assert_eq!(
        import(USER, html, &mut store),
        Ok(Summary { imported: 1, skipped: 0, collections_created: 1 })
    );
    assert_eq!(store.collections[0].1.name, "Caf\u{e9}");
    assert_eq!(store.bookmarks[0].title, "\u{fc}ber");
}

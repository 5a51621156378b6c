//! One import run: the records of an export are taken one after another,
//! those whose URL the user already has are skipped, each folder is matched
//! with a collection that is looked up or created once, and the rest is
//! stored. The run decides; whoever drives it asks the store and hands back
//! what the store said.

use crate::ident::{is_id_text, read_record_id, spells, RecordId};
use crate::models::Claims;
use crate::parser::{document_bookmarks, parse_bookmarks_html, ParsedBookmark, ParsedBookmarkView};
use vstd::utf8::{decode_utf8, valid_utf8};
use vstd::prelude::*;

verus! {

/// Why an import ended without a summary.
#[derive(Debug, Clone, Copy, PartialEq, Eq)]
pub enum ImportError {
    /// No bytes were uploaded.
    EmptyInput,
    /// The bytes are no text.
    InvalidEncoding,
    /// The document holds no bookmark that can be imported.
    NothingToImport,
    /// The user's identifier is malformed.
    InvalidUser,
    /// The store failed.
    StorageFailure,
}

impl ImportError {
    /// The HTTP status that stands for the error: 500 where the store
    /// failed, 400 for everything that the request itself got wrong.
    pub open spec fn status_code(self) -> u16 {
        if self is StorageFailure {
            500
        } else {
            400
        }
    }

    /// The words that a user is told.
    pub open spec fn message_text(self) -> Seq<char> {
        match self {
            ImportError::EmptyInput => "No file uploaded"@,
            ImportError::InvalidEncoding => "Invalid file encoding"@,
            ImportError::NothingToImport => "No bookmarks found in file"@,
            ImportError::InvalidUser => "Invalid user id"@,
            ImportError::StorageFailure => "Database error"@,
        }
    }

    /// The HTTP status that stands for the error.
    pub fn status(&self) -> (code: u16)
        ensures
            code == self.status_code(),
    {
        match self {
            ImportError::StorageFailure => 500,
            _ => 400,
        }
    }

    /// The words that a user is told.
    pub fn message(&self) -> (text: String)
        ensures
            text@ == self.message_text(),
    {
        match self {
            ImportError::EmptyInput => "No file uploaded".to_owned(),
            ImportError::InvalidEncoding => "Invalid file encoding".to_owned(),
            ImportError::NothingToImport => "No bookmarks found in file".to_owned(),
            ImportError::InvalidUser => "Invalid user id".to_owned(),
            ImportError::StorageFailure => "Database error".to_owned(),
        }
    }
}

/// The counts of a finished run.
#[derive(Debug, Clone, Copy, PartialEq, Eq)]
pub struct Summary {
    pub imported: usize,
    pub skipped: usize,
    pub collections_created: usize,
}

/// What a run is waiting for.
#[derive(Debug, Clone, Copy, PartialEq, Eq)]
pub enum Phase {
    /// Whether the user has a bookmark with the current record's URL.
    Lookup,
    /// Whether the user has a collection with the current record's folder name.
    Resolve,
    /// The identifier of the collection that is being created.
    Create,
    /// That the current record was stored.
    Store,
    /// Nothing: every record was dealt with.
    Finished,
    /// Nothing: the store failed.
    Aborted,
}

/// A bookmark that is to be stored.
#[derive(Debug, Clone, PartialEq, Eq)]
pub struct NewBookmark {
    pub user: RecordId,
    pub title: String,
    pub url: String,
    pub description: Option<String>,
    pub tags: Vec<String>,
    pub collection: Option<RecordId>,
    /// Milliseconds since the epoch.
    pub created_at: i64,
    pub updated_at: i64,
}

/// What a contract sees of a [`NewBookmark`].
pub struct NewBookmarkView {
    pub user: RecordId,
    pub title: Seq<char>,
    pub url: Seq<char>,
    pub description: Option<Seq<char>>,
    pub tags: Seq<Seq<char>>,
    pub collection: Option<RecordId>,
    pub created_at: i64,
    pub updated_at: i64,
}

impl DeepView for NewBookmark {
    type V = NewBookmarkView;

    open spec fn deep_view(&self) -> NewBookmarkView {
        NewBookmarkView {
            user: self.user,
            title: self.title@,
            url: self.url@,
            description: self.description.deep_view(),
            tags: self.tags.deep_view(),
            collection: self.collection,
            created_at: self.created_at,
            updated_at: self.updated_at,
        }
    }
}

/// A collection that is to be stored.
#[derive(Debug, Clone, PartialEq, Eq)]
pub struct NewCollection {
    pub user: RecordId,
    pub name: String,
    pub description: Option<String>,
    /// Milliseconds since the epoch.
    pub created_at: i64,
    pub updated_at: i64,
}

/// What a contract sees of a [`NewCollection`].
pub struct NewCollectionView {
    pub user: RecordId,
    pub name: Seq<char>,
    pub description: Option<Seq<char>>,
    pub created_at: i64,
    pub updated_at: i64,
}

impl DeepView for NewCollection {
    type V = NewCollectionView;

    open spec fn deep_view(&self) -> NewCollectionView {
        NewCollectionView {
            user: self.user,
            name: self.name@,
            description: self.description.deep_view(),
            created_at: self.created_at,
            updated_at: self.updated_at,
        }
    }
}

/// What the run asks of the store, or the end of the run.
#[derive(Debug, Clone, PartialEq, Eq)]
pub enum Request {
    /// Is there a bookmark of `user` with exactly this URL?
    FindBookmark { user: RecordId, url: String },
    /// Is there a collection of `user` with exactly this name?
    FindCollection { user: RecordId, name: String },
    /// Store this collection and tell its identifier.
    InsertCollection(NewCollection),
    /// Store this bookmark.
    InsertBookmark(NewBookmark),
    /// The run is over.
    Done(Summary),
    /// The run was given up.
    Fail(ImportError),
}

/// What a contract sees of a [`Request`].
pub enum RequestView {
    FindBookmark { user: RecordId, url: Seq<char> },
    FindCollection { user: RecordId, name: Seq<char> },
    InsertCollection(NewCollectionView),
    InsertBookmark(NewBookmarkView),
    Done(Summary),
    Fail(ImportError),
}

impl DeepView for Request {
    type V = RequestView;

    open spec fn deep_view(&self) -> RequestView {
        match *self {
            Request::FindBookmark { user, url } => RequestView::FindBookmark { user, url: url@ },
            Request::FindCollection { user, name } => RequestView::FindCollection {
                user,
                name: name@,
            },
            Request::InsertCollection(collection) => RequestView::InsertCollection(
                collection.deep_view(),
            ),
            Request::InsertBookmark(bookmark) => RequestView::InsertBookmark(bookmark.deep_view()),
            Request::Done(summary) => RequestView::Done(summary),
            Request::Fail(error) => RequestView::Fail(error),
        }
    }
}

/// What the store answered.
#[derive(Debug, Clone, Copy, PartialEq, Eq)]
pub enum Reply {
    /// To `FindBookmark`: whether there is one.
    BookmarkLookup { found: bool },
    /// To `FindCollection`: the identifier of the collection, if there is one.
    CollectionLookup { id: Option<RecordId> },
    /// To `InsertCollection`: the identifier that the new collection got.
    CollectionInserted { id: RecordId },
    /// To `InsertBookmark`: it is stored.
    BookmarkInserted,
    /// To any request: the store failed.
    Failed,
}

/// A folder name with the collection that stands for it in this run.
struct FolderEntry {
    name: String,
    id: RecordId,
}

/// The state of one import run.
pub struct ImportRun {
    user: RecordId,
    items: Vec<ParsedBookmark>,
    pos: usize,
    folders: Vec<FolderEntry>,
    imported: usize,
    skipped: usize,
    created: usize,
    phase: Phase,
}

/// What a contract sees of an [`ImportRun`].
pub struct RunView {
    /// The user that imports.
    pub user: RecordId,
    /// The records of the export.
    pub items: Seq<ParsedBookmarkView>,
    /// How many of them are dealt with.
    pub pos: int,
    /// The folders resolved so far, each with its collection.
    pub folders: Seq<(Seq<char>, RecordId)>,
    pub imported: int,
    pub skipped: int,
    /// How many folders had their collection created in this run.
    pub created: int,
    pub phase: Phase,
}

/// The collection that a folder name was resolved to, if it was.
pub open spec fn cached(folders: Seq<(Seq<char>, RecordId)>, name: Seq<char>) -> Option<RecordId>
    decreases folders.len(),
{
    if folders.len() == 0 {
        None
    } else if folders.last().0 == name {
        Some(folders.last().1)
    } else {
        cached(folders.drop_last(), name)
    }
}

/// The collection that a record goes to: that of its folder, none without a
/// folder.
pub open spec fn target(folders: Seq<(Seq<char>, RecordId)>, folder: Option<Seq<char>>) -> Option<
    RecordId,
> {
    match folder {
        Some(name) => cached(folders, name),
        None => None,
    }
}

impl RunView {
    /// Whether the run waits for the store.
    pub open spec fn active(self) -> bool {
        self.phase is Lookup || self.phase is Resolve || self.phase is Create
            || self.phase is Store
    }

    /// The record that the run is at.
    pub open spec fn current(self) -> ParsedBookmarkView {
        self.items[self.pos]
    }

    /// The counts so far.
    pub open spec fn summary(self) -> Summary {
        Summary {
            imported: self.imported as usize,
            skipped: self.skipped as usize,
            collections_created: self.created as usize,
        }
    }

    /// What holds of every run: the counts add up to the records dealt
    /// with, no folder is resolved twice, and the run waits for what its
    /// current record needs next.
    pub open spec fn wf(self) -> bool {
        &&& 0 <= self.pos <= self.items.len() <= usize::MAX
        &&& self.active() ==> self.pos < self.items.len()
        &&& self.phase is Finished ==> self.pos == self.items.len()
        &&& 0 <= self.imported && 0 <= self.skipped && self.imported + self.skipped == self.pos
        &&& 0 <= self.created <= self.folders.len()
        &&& self.folders.len() <= self.imported + (if self.phase is Store || self.phase is Aborted {
            1int
        } else {
            0int
        })
        &&& forall|i: int, j: int|
            0 <= i < j < self.folders.len() ==> (#[trigger] self.folders[i]).0 != (
            #[trigger] self.folders[j]).0
        &&& (self.phase is Resolve || self.phase is Create) ==> self.current().folder is Some
            && cached(self.folders, self.current().folder->0) is None
        &&& self.phase is Store && self.current().folder is Some ==> cached(
            self.folders,
            self.current().folder->0,
        ) is Some
    }

    /// The collection that the run creates for the folder of its current
    /// record at the time `now`: it has the folder's name and no
    /// description.
    pub open spec fn new_collection(self, now: i64) -> NewCollectionView {
        NewCollectionView {
            user: self.user,
            name: self.current().folder->0,
            description: None,
            created_at: now,
            updated_at: now,
        }
    }

    /// The bookmark that the run stores for its current record at the time
    /// `now`: it has the record's title and URL, no description and no
    /// tags, and stands in the collection of the record's folder.
    pub open spec fn new_bookmark(self, now: i64) -> NewBookmarkView {
        NewBookmarkView {
            user: self.user,
            title: self.current().title,
            url: self.current().url,
            description: None,
            tags: Seq::empty(),
            collection: target(self.folders, self.current().folder),
            created_at: now,
            updated_at: now,
        }
    }

    /// The request that the run waits on at the time `now`, or its end.
    pub open spec fn pending(self, now: i64) -> RequestView {
        match self.phase {
            Phase::Lookup => RequestView::FindBookmark { user: self.user, url: self.current().url },
            Phase::Resolve => RequestView::FindCollection {
                user: self.user,
                name: self.current().folder->0,
            },
            Phase::Create => RequestView::InsertCollection(self.new_collection(now)),
            Phase::Store => RequestView::InsertBookmark(self.new_bookmark(now)),
            Phase::Finished => RequestView::Done(self.summary()),
            Phase::Aborted => RequestView::Fail(ImportError::StorageFailure),
        }
    }

    /// The run after its current record is dealt with.
    pub open spec fn next_item(self) -> RunView {
        RunView {
            pos: self.pos + 1,
            phase: if self.pos + 1 == self.items.len() {
                Phase::Finished
            } else {
                Phase::Lookup
            },
            ..self
        }
    }

    /// The run after the store answered `reply` to its pending request. A
    /// failure, or an answer to another request, ends the run; a run that
    /// is over stays as it is.
    pub open spec fn advance(self, reply: Reply) -> RunView {
        match (self.phase, reply) {
            (Phase::Finished, _) => self,
            (Phase::Aborted, _) => self,
            (Phase::Lookup, Reply::BookmarkLookup { found: true }) => RunView {
                skipped: self.skipped + 1,
                ..self
            }.next_item(),
            (Phase::Lookup, Reply::BookmarkLookup { found: false }) => {
                if self.current().folder is Some && cached(
                    self.folders,
                    self.current().folder->0,
                ) is None {
                    RunView { phase: Phase::Resolve, ..self }
                } else {
                    RunView { phase: Phase::Store, ..self }
                }
            },
            (Phase::Resolve, Reply::CollectionLookup { id: Some(id) }) => RunView {
                folders: self.folders.push((self.current().folder->0, id)),
                phase: Phase::Store,
                ..self
            },
            (Phase::Resolve, Reply::CollectionLookup { id: None }) => RunView {
                phase: Phase::Create,
                ..self
            },
            (Phase::Create, Reply::CollectionInserted { id }) => RunView {
                folders: self.folders.push((self.current().folder->0, id)),
                created: self.created + 1,
                phase: Phase::Store,
                ..self
            },
            (Phase::Store, Reply::BookmarkInserted) => RunView {
                imported: self.imported + 1,
                ..self
            }.next_item(),
            _ => RunView { phase: Phase::Aborted, ..self },
        }
    }
}

/// The run that starts on `items` for `user`.
pub open spec fn first_run(user: RecordId, items: Seq<ParsedBookmarkView>) -> RunView {
    RunView {
        user,
        items,
        pos: 0,
        folders: Seq::empty(),
        imported: 0,
        skipped: 0,
        created: 0,
        phase: Phase::Lookup,
    }
}

/// A step keeps a run well formed.
pub proof fn lemma_advance_wf(run: RunView, reply: Reply)
    requires
        run.wf(),
    ensures
        run.advance(reply).wf(),
{
    if run.phase is Resolve || run.phase is Create {
        lemma_cached_none(run.folders, run.current().folder->0);
    }
}

/// A failure of the store ends a run that waits for the store: the run
/// then asks for nothing more and reports the failure, with the counts as
/// they were.
pub proof fn lemma_failure_ends_run(run: RunView, now: i64)
    requires
        run.active(),
    ensures
        run.advance(Reply::Failed).phase is Aborted,
        run.advance(Reply::Failed).pending(now) == RequestView::Fail(ImportError::StorageFailure),
        run.advance(Reply::Failed).summary() == run.summary(),
        forall|reply: Reply| run.advance(Reply::Failed).advance(reply) == run.advance(Reply::Failed),
{
}

/// A name that is not resolved names no entry, and one that is resolved
/// names an entry with its collection.
pub proof fn lemma_cached_none(folders: Seq<(Seq<char>, RecordId)>, name: Seq<char>)
    ensures
        cached(folders, name) is None ==> forall|i: int|
            0 <= i < folders.len() ==> (#[trigger] folders[i]).0 != name,
        cached(folders, name) is Some ==> exists|i: int|
            0 <= i < folders.len() && #[trigger] folders[i] == (name, cached(folders, name)->0),
    decreases folders.len(),
{
    if folders.len() > 0 {
        lemma_cached_none(folders.drop_last(), name);
        if cached(folders, name) is None {
            assert forall|i: int| 0 <= i < folders.len() implies (#[trigger] folders[i]).0
                != name by {
                if i < folders.len() - 1 {
                    assert(folders[i] == folders.drop_last()[i]);
                }
            }
        }
        if folders.last().0 != name && cached(folders, name) is Some {
            let i = choose|i: int|
                0 <= i < folders.drop_last().len() && #[trigger] folders.drop_last()[i] == (
                    name,
                    cached(folders, name)->0,
                );
            assert(folders[i] == folders.drop_last()[i]);
        }
    }
}

/// The entries of the folder cache as a contract sees them.
spec fn entries(folders: Seq<FolderEntry>) -> Seq<(Seq<char>, RecordId)> {
    Seq::new(folders.len(), |i: int| (folders[i].name@, folders[i].id))
}

impl View for ImportRun {
    type V = RunView;

    closed spec fn view(&self) -> RunView {
        RunView {
            user: self.user,
            items: self.items.deep_view(),
            pos: self.pos as int,
            folders: entries(self.folders@),
            imported: self.imported as int,
            skipped: self.skipped as int,
            created: self.created as int,
            phase: self.phase,
        }
    }
}

/// Looks a folder name up in the cache.
fn lookup(folders: &Vec<FolderEntry>, name: &String) -> (id: Option<RecordId>)
    ensures
        id == cached(entries(folders@), name@),
{
    let ghost all = entries(folders@);
    let mut i: usize = folders.len();
    assert(all.take(i as int) =~= all);
    while i > 0
        invariant
            i <= folders.len(),
            all == entries(folders@),
            cached(all, name@) == cached(all.take(i as int), name@),
        decreases i,
    {
        i -= 1;
        assert(all.take(i + 1).drop_last() =~= all.take(i as int));
        assert(all.take(i + 1).last() == all[i as int]);
        if folders[i].name == *name {
            return Some(folders[i].id);
        }
    }
    None
}

/// The folder name of a record, empty where it has none.
fn folder_text(item: &ParsedBookmark) -> (name: String)
    ensures
        item.folder is Some ==> name@ == item.deep_view().folder->0,
{
    match &item.folder {
        Some(name) => name.clone(),
        None => String::new(),
    }
}

impl ImportRun {
    /// Every run is well formed.
    #[verifier::type_invariant]
    spec fn well_formed(self) -> bool {
        self@.wf()
    }

    /// Starts a run on the records of an export. A run needs at least one
    /// record.
    pub fn start(user: RecordId, items: Vec<ParsedBookmark>) -> (run: Result<ImportRun, ImportError>)
        ensures
            match run {
                Ok(r) => items.len() > 0 && r@ == first_run(user, items.deep_view()) && r@.wf(),
                Err(e) => items.len() == 0 && e == ImportError::NothingToImport,
            },
    {
        if items.len() == 0 {
            return Err(ImportError::NothingToImport);
        }
        let run = ImportRun {
            user,
            items,
            pos: 0,
            folders: Vec::new(),
            imported: 0,
            skipped: 0,
            created: 0,
            phase: Phase::Lookup,
        };
        assert(run@.folders =~= Seq::empty());
        Ok(run)
    }

    /// What the run asks of the store at the time `now`, or how it ended.
    pub fn request_at(&self, now: i64) -> (request: Request)
        ensures
            request.deep_view() == self@.pending(now),
    {
        proof {
            use_type_invariant(self);
        }
        match self.phase {
            Phase::Lookup => Request::FindBookmark {
                user: self.user,
                url: self.items[self.pos].url.clone(),
            },
            Phase::Resolve => Request::FindCollection {
                user: self.user,
                name: folder_text(&self.items[self.pos]),
            },
            Phase::Create => Request::InsertCollection(
                NewCollection {
                    user: self.user,
                    name: folder_text(&self.items[self.pos]),
                    description: None,
                    created_at: now,
                    updated_at: now,
                },
            ),
            Phase::Store => {
                let item = &self.items[self.pos];
                let collection = match &item.folder {
                    Some(name) => lookup(&self.folders, name),
                    None => None,
                };
                let bookmark = NewBookmark {
                    user: self.user,
                    title: item.title.clone(),
                    url: item.url.clone(),
                    description: None,
                    tags: Vec::new(),
                    collection,
                    created_at: now,
                    updated_at: now,
                };
                assert(bookmark.tags.deep_view() =~= Seq::empty());
                Request::InsertBookmark(bookmark)
            },
            Phase::Finished => Request::Done(self.summary()),
            Phase::Aborted => Request::Fail(ImportError::StorageFailure),
        }
    }

    /// What the run asks of the store now, or how it ended: the request of
    /// [`ImportRun::request_at`] for the time that the clock shows.
    pub fn request(&self) -> (request: Request)
        ensures
            exists|now: i64| request.deep_view() == self@.pending(now),
    {
        self.request_at(clock_millis())
    }

    /// The counts so far.
    pub fn summary(&self) -> (summary: Summary)
        ensures
            summary == self@.summary(),
    {
        proof {
            use_type_invariant(self);
        }
        Summary {
            imported: self.imported,
            skipped: self.skipped,
            collections_created: self.created,
        }
    }

    /// Takes the store's answer to the pending request and moves on: a
    /// bookmark that was found is skipped, a folder that was looked up or
    /// created is remembered for the rest of the run, a bookmark that was
    /// stored is counted. A failure of the store, or an answer to another
    /// request than the pending one, ends the run.
    pub fn step(self, reply: Reply) -> (next: ImportRun)
        ensures
            next@ == self@.advance(reply),
            next@.wf(),
    {
        proof {
            use_type_invariant(&self);
            lemma_advance_wf(self@, reply);
        }
        let ghost goal = self@.advance(reply);
        let ImportRun {
            user,
            items,
            mut pos,
            mut folders,
            mut imported,
            mut skipped,
            mut created,
            mut phase,
        } = self;
        match (phase, reply) {
            (Phase::Finished, _) => {},
            (Phase::Aborted, _) => {},
            (Phase::Lookup, Reply::BookmarkLookup { found: true }) => {
                skipped = skipped + 1;
                pos = pos + 1;
                phase = if pos == items.len() {
                    Phase::Finished
                } else {
                    Phase::Lookup
                };
            },
            (Phase::Lookup, Reply::BookmarkLookup { found: false }) => {
                let open = match &items[pos].folder {
                    Some(name) => lookup(&folders, name).is_none(),
                    None => false,
                };
                phase = if open {
                    Phase::Resolve
                } else {
                    Phase::Store
                };
            },
            (Phase::Resolve, Reply::CollectionLookup { id: Some(id) }) => {
                let name = folder_text(&items[pos]);
                folders.push(FolderEntry { name, id });
                phase = Phase::Store;
            },
            (Phase::Resolve, Reply::CollectionLookup { id: None }) => {
                phase = Phase::Create;
            },
            (Phase::Create, Reply::CollectionInserted { id }) => {
                let name = folder_text(&items[pos]);
                folders.push(FolderEntry { name, id });
                created = created + 1;
                phase = Phase::Store;
            },
            (Phase::Store, Reply::BookmarkInserted) => {
                imported = imported + 1;
                pos = pos + 1;
                phase = if pos == items.len() {
                    Phase::Finished
                } else {
                    Phase::Lookup
                };
            },
            _ => {
                phase = Phase::Aborted;
            },
        }
        assert(entries(folders@) =~= goal.folders);
        ImportRun { user, items, pos, folders, imported, skipped, created, phase }
    }
}

/// Reads the clock with `chrono::Utc::now`, in milliseconds since the
/// epoch (`timestamp_millis`). Nothing is known of the time that comes
/// back. `Utc::now` panics on a machine whose clock stands before 1970.
#[verifier::external_body]
fn clock_millis() -> (now: i64) {
    chrono::Utc::now().timestamp_millis()
}

/// Reads uploaded bytes as text with `String::from_utf8`, which gives the
/// text exactly when the bytes are valid UTF-8.
#[verifier::external_body]
fn decode_text(bytes: Vec<u8>) -> (text: Option<String>)
    ensures
        text is Some <==> valid_utf8(bytes@),
        text is Some ==> text->0@ == decode_utf8(bytes@),
{
    match String::from_utf8(bytes) {
        Ok(text) => Some(text),
        Err(_) => None,
    }
}

/// Why an import of `upload` cannot start, if it cannot.
pub open spec fn upload_error(upload: Seq<u8>) -> Option<ImportError> {
    if upload.len() == 0 {
        Some(ImportError::EmptyInput)
    } else if !valid_utf8(upload) {
        Some(ImportError::InvalidEncoding)
    } else if document_bookmarks(decode_utf8(upload)).len() == 0 {
        Some(ImportError::NothingToImport)
    } else {
        None
    }
}

/// Why an import of `upload` for the user `sub` cannot start, if it cannot.
pub open spec fn start_error(sub: Seq<char>, upload: Seq<u8>) -> Option<ImportError> {
    if !is_id_text(sub) {
        Some(ImportError::InvalidUser)
    } else {
        upload_error(upload)
    }
}

/// The user of a session: the identifier that the session's subject
/// spells, or `InvalidUser` where the subject is not twenty-four
/// hexadecimal digits.
pub fn session_user(claims: &Claims) -> (user: Result<RecordId, ImportError>)
    ensures
        match user {
            Ok(id) => is_id_text(claims.sub@) && spells(claims.sub@, id),
            Err(e) => !is_id_text(claims.sub@) && e == ImportError::InvalidUser,
        },
{
    match read_record_id(claims.sub.as_str()) {
        Some(id) => Ok(id),
        None => Err(ImportError::InvalidUser),
    }
}

/// Begins the import of an uploaded export for `user`. It fails with
/// `EmptyInput` where nothing was uploaded, with `InvalidEncoding` where
/// the bytes are no text, and with `NothingToImport` where the document
/// holds no bookmark; else it gives the run on the document's records.
pub fn import_upload(user: RecordId, upload: Vec<u8>) -> (run: Result<ImportRun, ImportError>)
    ensures
        match run {
            Ok(r) => {
                &&& upload_error(upload@) is None
                &&& r@ == first_run(user, document_bookmarks(decode_utf8(upload@)))
                &&& r@.wf()
            },
            Err(e) => upload_error(upload@) == Some(e),
        },
{
    if upload.len() == 0 {
        return Err(ImportError::EmptyInput);
    }
    let text = match decode_text(upload) {
        Some(text) => text,
        None => {
            return Err(ImportError::InvalidEncoding);
        },
    };
    let items = parse_bookmarks_html(text.as_str());
    ImportRun::start(user, items)
}

/// Begins the import of an uploaded export for the user of a session. It
/// fails with `InvalidUser` where the user's identifier is malformed, and
/// else as [`import_upload`] does.
pub fn import_bookmarks(claims: &Claims, upload: Vec<u8>) -> (run: Result<ImportRun, ImportError>)
    ensures
        match run {
            Ok(r) => {
                &&& start_error(claims.sub@, upload@) is None
                &&& spells(claims.sub@, r@.user)
                &&& r@ == first_run(r@.user, document_bookmarks(decode_utf8(upload@)))
                &&& r@.wf()
            },
            Err(e) => start_error(claims.sub@, upload@) == Some(e),
        },
{
    match session_user(claims) {
        Ok(user) => import_upload(user, upload),
        Err(e) => Err(e),
    }
}

} // verus!

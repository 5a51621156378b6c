//! A model of the store that an import run talks to, the run driven
//! against it from start to end, and what then holds of the store and of
//! the summary.

use crate::ident::RecordId;
use crate::parser::ParsedBookmarkView;
use crate::reconcile::{cached, first_run, lemma_advance_wf, lemma_cached_none, target};
use crate::reconcile::{NewBookmarkView, NewCollectionView, Phase, Reply, RequestView, RunView};
use vstd::prelude::*;

verus! {

/// A stored collection: what was handed in, and the identifier it got.
pub struct CollectionRecord {
    pub id: RecordId,
    pub user: RecordId,
    pub name: Seq<char>,
    pub description: Option<Seq<char>>,
    pub created_at: i64,
    pub updated_at: i64,
}

/// What is stored, in the order in which it was stored.
pub struct Store {
    pub bookmarks: Seq<NewBookmarkView>,
    pub collections: Seq<CollectionRecord>,
}

/// What decides an exchange besides the store and the request: the
/// identifier that a new collection gets, and the time at which the run
/// makes its request.
pub struct World {
    pub ids: spec_fn(Store) -> RecordId,
    pub clock: spec_fn(Store) -> i64,
}

/// The record of a collection that was stored under `id`.
pub open spec fn stored_as(id: RecordId, c: NewCollectionView) -> CollectionRecord {
    CollectionRecord {
        id,
        user: c.user,
        name: c.name,
        description: c.description,
        created_at: c.created_at,
        updated_at: c.updated_at,
    }
}

/// The collection of `user` named `name`, if there is one; where there are
/// several, the one stored last.
pub open spec fn find_collection(
    collections: Seq<CollectionRecord>,
    user: RecordId,
    name: Seq<char>,
) -> Option<RecordId>
    decreases collections.len(),
{
    if collections.len() == 0 {
        None
    } else if collections.last().user == user && collections.last().name == name {
        Some(collections.last().id)
    } else {
        find_collection(collections.drop_last(), user, name)
    }
}

/// How many collections of `user` are named `name`.
pub open spec fn count_named(collections: Seq<CollectionRecord>, user: RecordId, name: Seq<char>) -> nat
    decreases collections.len(),
{
    if collections.len() == 0 {
        0
    } else {
        count_named(collections.drop_last(), user, name) + if collections.last().user == user
            && collections.last().name == name {
            1nat
        } else {
            0nat
        }
    }
}

impl Store {
    /// Whether `user` has a bookmark with the URL `url`.
    pub open spec fn has_bookmark(self, user: RecordId, url: Seq<char>) -> bool {
        exists|i: int|
            0 <= i < self.bookmarks.len() && (#[trigger] self.bookmarks[i]).user == user
                && self.bookmarks[i].url == url
    }

    /// What the store answers to a request, and the store after it. A new
    /// collection gets the identifier `fresh`. The end of a run is no
    /// request.
    pub open spec fn answer(self, request: RequestView, fresh: RecordId) -> (Store, Reply) {
        match request {
            RequestView::FindBookmark { user, url } => (
                self,
                Reply::BookmarkLookup { found: self.has_bookmark(user, url) },
            ),
            RequestView::FindCollection { user, name } => (
                self,
                Reply::CollectionLookup { id: find_collection(self.collections, user, name) },
            ),
            RequestView::InsertCollection(collection) => (
                Store { collections: self.collections.push(stored_as(fresh, collection)), ..self },
                Reply::CollectionInserted { id: fresh },
            ),
            RequestView::InsertBookmark(bookmark) => (
                Store { bookmarks: self.bookmarks.push(bookmark), ..self },
                Reply::BookmarkInserted,
            ),
            RequestView::Done(_) => (self, Reply::Failed),
            RequestView::Fail(_) => (self, Reply::Failed),
        }
    }

    /// Whether `later` holds all of this store, in place, and maybe more
    /// behind it.
    pub open spec fn grown_to(self, later: Store) -> bool {
        &&& self.bookmarks.len() <= later.bookmarks.len()
        &&& later.bookmarks.take(self.bookmarks.len() as int) == self.bookmarks
        &&& self.collections.len() <= later.collections.len()
        &&& later.collections.take(self.collections.len() as int) == self.collections
    }

    /// Whether `user` has a bookmark for the URL of each of the first `n`
    /// records of `items`.
    pub open spec fn covers(self, user: RecordId, items: Seq<ParsedBookmarkView>, n: int) -> bool {
        forall|i: int| 0 <= i < n ==> self.has_bookmark(user, (#[trigger] items[i]).url)
    }
}

/// How far a run is from its end.
pub open spec fn distance(run: RunView) -> int {
    (run.items.len() - run.pos) * 5 + match run.phase {
        Phase::Lookup => 4int,
        Phase::Resolve => 3int,
        Phase::Create => 2int,
        Phase::Store => 1int,
        Phase::Finished => 0int,
        Phase::Aborted => 0int,
    }
}

/// The run and the store after the run was driven to its end against the
/// store: each pending request is answered by the store, and the answer is
/// handed to the run.
pub open spec fn run_to_end(run: RunView, store: Store, world: World) -> (RunView, Store)
    decreases distance(run),
{
    if run.wf() && run.active() {
        let (after, reply) = store.answer(run.pending((world.clock)(store)), (world.ids)(store));
        run_to_end(run.advance(reply), after, world)
    } else {
        (run, store)
    }
}

/// The summary and the store after an import of `items` for `user`.
pub open spec fn import_all(
    user: RecordId,
    items: Seq<ParsedBookmarkView>,
    store: Store,
    world: World,
) -> (RunView, Store) {
    run_to_end(first_run(user, items), store, world)
}

/// A store that grew, and then grew again, grew.
pub proof fn lemma_grown_twice(a: Store, b: Store, c: Store)
    requires
        a.grown_to(b),
        b.grown_to(c),
    ensures
        a.grown_to(c),
{
    assert(c.bookmarks.take(a.bookmarks.len() as int) =~= c.bookmarks.take(
        b.bookmarks.len() as int,
    ).take(a.bookmarks.len() as int));
    assert(c.collections.take(a.collections.len() as int) =~= c.collections.take(
        b.collections.len() as int,
    ).take(a.collections.len() as int));
}

/// A bookmark that a store has, a store grown from it has too.
pub proof fn lemma_grown_keeps_bookmarks(a: Store, b: Store, user: RecordId, url: Seq<char>)
    requires
        a.grown_to(b),
        a.has_bookmark(user, url),
    ensures
        b.has_bookmark(user, url),
{
    let i = choose|i: int|
        0 <= i < a.bookmarks.len() && (#[trigger] a.bookmarks[i]).user == user
            && a.bookmarks[i].url == url;
    assert(b.bookmarks.take(a.bookmarks.len() as int)[i] == b.bookmarks[i]);
}

/// One exchange with the store: the store only grows, and what it answers
/// is an answer to the request.
pub proof fn lemma_answer_grows(store: Store, request: RequestView, fresh: RecordId)
    ensures
        store.grown_to(store.answer(request, fresh).0),
{
    let after = store.answer(request, fresh).0;
    assert(after.bookmarks.take(store.bookmarks.len() as int) =~= store.bookmarks);
    assert(after.collections.take(store.collections.len() as int) =~= store.collections);
}

/// A run that is driven against a store comes to its end with every
/// record dealt with: the counts of imported and skipped records add up to
/// the number of records, the store has only grown, and the user then has
/// a bookmark for the URL of every record.
pub proof fn lemma_run_finishes(run: RunView, store: Store, world: World)
    requires
        run.wf(),
        run.active() || run.phase is Finished,
        store.covers(run.user, run.items, run.pos),
    ensures
        ({
            let (end, last) = run_to_end(run, store, world);
            &&& end.wf()
            &&& end.phase is Finished
            &&& end.user == run.user
            &&& end.items == run.items
            &&& end.imported + end.skipped == run.items.len()
            &&& store.grown_to(last)
            &&& last.covers(run.user, run.items, run.items.len() as int)
        }),
    decreases distance(run),
{
    if run.active() {
        let fresh = (world.ids)(store);
        let request = run.pending((world.clock)(store));
        let (after, reply) = store.answer(request, fresh);
        let next = run.advance(reply);
        lemma_advance_wf(run, reply);
        lemma_answer_grows(store, request, fresh);
        assert(after.covers(run.user, run.items, next.pos)) by {
            assert forall|i: int| 0 <= i < next.pos implies after.has_bookmark(
                run.user,
                (#[trigger] run.items[i]).url,
            ) by {
                if i < run.pos {
                    lemma_grown_keeps_bookmarks(store, after, run.user, run.items[i].url);
                } else if run.phase is Store {
                    assert(after.bookmarks[store.bookmarks.len() as int].url == run.items[i].url);
                }
            }
        }
        lemma_run_finishes(next, after, world);
        lemma_grown_twice(store, after, run_to_end(next, after, world).1);
    } else {
        assert(store.bookmarks.take(store.bookmarks.len() as int) =~= store.bookmarks);
        assert(store.collections.take(store.collections.len() as int) =~= store.collections);
    }
}

/// A run on records whose URLs the user all has skips what is left of
/// them, and asks the store for nothing but that.
pub proof fn lemma_run_skips(run: RunView, store: Store, world: World)
    requires
        run.wf(),
        run.phase is Lookup || run.phase is Finished,
        store.covers(run.user, run.items, run.items.len() as int),
    ensures
        ({
            let (end, last) = run_to_end(run, store, world);
            &&& end.phase is Finished
            &&& end.imported == run.imported
            &&& end.skipped == run.skipped + (run.items.len() - run.pos)
            &&& end.created == run.created
            &&& end.folders == run.folders
            &&& last == store
        }),
    decreases distance(run),
{
    if run.phase is Lookup {
        assert(store.has_bookmark(run.user, run.items[run.pos].url));
        let reply = Reply::BookmarkLookup { found: true };
        lemma_advance_wf(run, reply);
        lemma_run_skips(run.advance(reply), store, world);
    }
}

/// Importing the same records again for the same user, right after an
/// import, imports nothing: the second run skips every record, creates no
/// collection and leaves the store as it is. What the second run skips is
/// what the first run imported and skipped together, so where the first
/// run skipped nothing, it is what the first run imported.
pub proof fn lemma_second_import_skips_all(
    user: RecordId,
    items: Seq<ParsedBookmarkView>,
    store: Store,
    world: World,
    later: World,
)
    requires
        0 < items.len() <= usize::MAX,
    ensures
        ({
            let (first, stored) = import_all(user, items, store, world);
            let (second, last) = import_all(user, items, stored, later);
            &&& first.phase is Finished && second.phase is Finished
            &&& second.imported == 0
            &&& second.skipped == first.imported + first.skipped
            &&& first.skipped == 0 ==> second.skipped == first.imported
            &&& second.created == 0
            &&& last == stored
        }),
{
    let start = first_run(user, items);
    lemma_run_finishes(start, store, world);
    let stored = import_all(user, items, store, world).1;
    lemma_run_skips(start, stored, later);
}

/// Whether no two collections of `user` have the same name.
pub open spec fn names_unique(collections: Seq<CollectionRecord>, user: RecordId) -> bool {
    forall|i: int, j: int|
        0 <= i < j < collections.len() && (#[trigger] collections[i]).user == user && (
        #[trigger] collections[j]).user == user ==> collections[i].name != collections[j].name
}

/// Whether every folder that the run has resolved is resolved to the
/// collection that the store finds under the folder's name.
pub open spec fn cache_agrees(run: RunView, store: Store) -> bool {
    forall|k: int|
        0 <= k < run.folders.len() ==> find_collection(
            store.collections,
            run.user,
            (#[trigger] run.folders[k]).0,
        ) == Some(run.folders[k].1)
}

/// Whether the stored bookmark `b` is the bookmark of one of `items`: it
/// belongs to `user`, has the record's title and URL, no description and
/// no tags, was created and updated at one time, and stands in the
/// collection of `user` that is named as the record's folder, or in none
/// where the record has no folder.
pub open spec fn placed(
    items: Seq<ParsedBookmarkView>,
    user: RecordId,
    collections: Seq<CollectionRecord>,
    b: NewBookmarkView,
) -> bool {
    b.user == user && exists|i: int|
        0 <= i < items.len() && {
            let item = #[trigger] items[i];
            &&& b.title == item.title
            &&& b.url == item.url
            &&& b.description is None
            &&& b.tags.len() == 0
            &&& b.created_at == b.updated_at
            &&& match item.folder {
                Some(name) => b.collection is Some && b.collection == find_collection(
                    collections,
                    user,
                    name,
                ),
                None => b.collection is None,
            }
        }
}

/// A name under which nothing is found names no collection of the user,
/// and one under which something is found names a collection with that
/// identifier.
pub proof fn lemma_find_collection(
    collections: Seq<CollectionRecord>,
    user: RecordId,
    name: Seq<char>,
)
    ensures
        find_collection(collections, user, name) is None ==> forall|i: int|
            0 <= i < collections.len() ==> !((#[trigger] collections[i]).user == user
                && collections[i].name == name),
        find_collection(collections, user, name) is Some ==> exists|i: int|
            0 <= i < collections.len() && (#[trigger] collections[i]).user == user
                && collections[i].name == name && Some(collections[i].id) == find_collection(
                collections,
                user,
                name,
            ),
    decreases collections.len(),
{
    if collections.len() > 0 {
        let rest = collections.drop_last();
        lemma_find_collection(rest, user, name);
        if collections.last().user == user && collections.last().name == name {
            assert(collections[collections.len() - 1] == collections.last());
        } else if find_collection(collections, user, name) is Some {
            let i = choose|i: int|
                0 <= i < rest.len() && (#[trigger] rest[i]).user == user && rest[i].name == name
                    && Some(rest[i].id) == find_collection(rest, user, name);
            assert(collections[i] == rest[i]);
        } else {
            assert forall|i: int| 0 <= i < collections.len() implies !((
            #[trigger] collections[i]).user == user && collections[i].name == name) by {
                if i < rest.len() {
                    assert(collections[i] == rest[i]);
                }
            }
        }
    }
}

/// Where no two collections of a user have the same name, a name names
/// exactly one collection of the user if one is found under it, and none
/// else.
pub proof fn lemma_unique_counts(collections: Seq<CollectionRecord>, user: RecordId, name: Seq<char>)
    requires
        names_unique(collections, user),
    ensures
        count_named(collections, user, name) == (if find_collection(collections, user, name) is Some {
            1nat
        } else {
            0nat
        }),
    decreases collections.len(),
{
    if collections.len() > 0 {
        let rest = collections.drop_last();
        assert forall|i: int, j: int|
            0 <= i < j < rest.len() && (#[trigger] rest[i]).user == user && (
            #[trigger] rest[j]).user == user implies rest[i].name != rest[j].name by {
            assert(rest[i] == collections[i] && rest[j] == collections[j]);
        }
        lemma_unique_counts(rest, user, name);
        lemma_find_collection(rest, user, name);
        if collections.last().user == user && collections.last().name == name {
            if find_collection(rest, user, name) is Some {
                let i = choose|i: int|
                    0 <= i < rest.len() && (#[trigger] rest[i]).user == user && rest[i].name
                        == name && Some(rest[i].id) == find_collection(rest, user, name);
                assert(collections[i] == rest[i]);
                assert(collections[collections.len() - 1] == collections.last());
            }
        }
    }
}

/// Whether every collection that `later` holds beyond `earlier` belongs to
/// `user`, has no description, was created and updated at one time, and
/// has a name that no collection of the user stored before it has.
pub open spec fn created_fresh(earlier: Store, later: Store, user: RecordId) -> bool {
    &&& forall|k: int|
        earlier.collections.len() <= k < later.collections.len() ==> {
            let c = #[trigger] later.collections[k];
            c.user == user && c.description is None && c.created_at == c.updated_at
        }
    &&& forall|k: int, j: int|
        earlier.collections.len() <= k < later.collections.len() && 0 <= j < k ==> !((
        #[trigger] later.collections[j]).user == user && later.collections[j].name == (
        #[trigger] later.collections[k]).name)
}

/// A store that grows only by collections with fresh names keeps the
/// names of a user's collections apart.
pub proof fn lemma_unique_kept(earlier: Store, later: Store, user: RecordId)
    requires
        names_unique(earlier.collections, user),
        earlier.grown_to(later),
        created_fresh(earlier, later, user),
    ensures
        names_unique(later.collections, user),
{
    assert forall|i: int, j: int|
        0 <= i < j < later.collections.len() && (#[trigger] later.collections[i]).user == user && (
        #[trigger] later.collections[j]).user == user implies later.collections[i].name
        != later.collections[j].name by {
        if j < earlier.collections.len() {
            let head = later.collections.take(earlier.collections.len() as int);
            assert(head[i] == later.collections[i] && head[j] == later.collections[j]);
        }
    }
}

/// A bookmark that was placed in a collection stands in a collection of
/// its own user.
pub proof fn lemma_placed_owned(
    items: Seq<ParsedBookmarkView>,
    user: RecordId,
    collections: Seq<CollectionRecord>,
    b: NewBookmarkView,
)
    requires
        placed(items, user, collections, b),
        b.collection is Some,
    ensures
        exists|i: int|
            0 <= i < collections.len() && (#[trigger] collections[i]).user == b.user
                && collections[i].id == b.collection->0,
{
    let i = choose|i: int|
        0 <= i < items.len() && {
            let item = #[trigger] items[i];
            &&& b.title == item.title
            &&& b.url == item.url
            &&& b.description is None
            &&& b.tags.len() == 0
            &&& b.created_at == b.updated_at
            &&& match item.folder {
                Some(name) => b.collection is Some && b.collection == find_collection(
                    collections,
                    user,
                    name,
                ),
                None => b.collection is None,
            }
        };
    lemma_find_collection(collections, user, items[i].folder->0);
}

/// A run that is driven against a store only adds to it. It creates a
/// collection only under a name that the user has no collection for. What
/// it stores are bookmarks of its records, each in the collection that is
/// named as the record's folder, and it counts what it stores.
pub proof fn lemma_run_places(run: RunView, store: Store, world: World)
    requires
        run.wf(),
        run.active() || run.phase is Finished,
        cache_agrees(run, store),
        run.phase is Create ==> find_collection(
            store.collections,
            run.user,
            run.current().folder->0,
        ) is None,
    ensures
        ({
            let (end, last) = run_to_end(run, store, world);
            &&& store.grown_to(last)
            &&& created_fresh(store, last, run.user)
            &&& forall|name: Seq<char>| #[trigger]
                find_collection(store.collections, run.user, name) is Some ==> find_collection(
                    last.collections,
                    run.user,
                    name,
                ) == find_collection(store.collections, run.user, name)
            &&& forall|k: int|
                store.bookmarks.len() <= k < last.bookmarks.len() ==> placed(
                    run.items,
                    run.user,
                    last.collections,
                    #[trigger] last.bookmarks[k],
                )
            &&& last.bookmarks.len() - store.bookmarks.len() == end.imported - run.imported
            &&& last.collections.len() - store.collections.len() == end.created - run.created
        }),
    decreases distance(run),
{
    let user = run.user;
    if run.active() {
        let fresh = (world.ids)(store);
        let request = run.pending((world.clock)(store));
        let (after, reply) = store.answer(request, fresh);
        let next = run.advance(reply);
        let (end, last) = run_to_end(next, after, world);
        lemma_advance_wf(run, reply);
        lemma_answer_grows(store, request, fresh);
        let folder = run.current().folder;
        if run.phase is Create || run.phase is Resolve {
            lemma_cached_none(run.folders, folder->0);
            lemma_find_collection(store.collections, user, folder->0);
        }
        assert forall|name: Seq<char>| #[trigger]
            find_collection(store.collections, user, name) is Some implies find_collection(
            after.collections,
            user,
            name,
        ) == find_collection(store.collections, user, name) by {
            if run.phase is Create {
                assert(after.collections.drop_last() =~= store.collections);
            }
        }
        assert(cache_agrees(next, after)) by {
            assert forall|k: int| 0 <= k < next.folders.len() implies find_collection(
                after.collections,
                user,
                (#[trigger] next.folders[k]).0,
            ) == Some(next.folders[k].1) by {
                if k < run.folders.len() {
                    assert(next.folders[k] == run.folders[k]);
                    assert(find_collection(store.collections, user, run.folders[k].0) is Some);
                } else if run.phase is Create {
                    assert(after.collections.drop_last() =~= store.collections);
                }
            }
        }
        lemma_run_places(next, after, world);
        lemma_grown_twice(store, after, last);
        assert forall|name: Seq<char>| #[trigger]
            find_collection(store.collections, user, name) is Some implies find_collection(
            last.collections,
            user,
            name,
        ) == find_collection(store.collections, user, name) by {
            assert(find_collection(after.collections, user, name) is Some);
        }
        assert(created_fresh(store, last, user)) by {
            let n = store.collections.len() as int;
            let head = last.collections.take(after.collections.len() as int);
            assert forall|k: int| n <= k < last.collections.len() implies {
                let c = #[trigger] last.collections[k];
                c.user == user && c.description is None && c.created_at == c.updated_at
            } by {
                if k < after.collections.len() {
                    assert(head[k] == last.collections[k]);
                }
            }
            assert forall|k: int, j: int| n <= k < last.collections.len() && 0 <= j < k implies !((
            #[trigger] last.collections[j]).user == user && last.collections[j].name == (
            #[trigger] last.collections[k]).name) by {
                if k < after.collections.len() {
                    assert(head[k] == last.collections[k]);
                    assert(head[j] == last.collections[j]);
                    assert(after.collections[j] == store.collections[j]);
                }
            }
        }
        assert forall|k: int| store.bookmarks.len() <= k < last.bookmarks.len() implies placed(
            run.items,
            user,
            last.collections,
            #[trigger] last.bookmarks[k],
        ) by {
            if k < after.bookmarks.len() {
                assert(last.bookmarks.take(after.bookmarks.len() as int)[k] == last.bookmarks[k]);
                assert(run.phase is Store);
                if folder is Some {
                    lemma_cached_none(run.folders, folder->0);
                    let id = cached(run.folders, folder->0)->0;
                    let e = choose|e: int|
                        0 <= e < run.folders.len() && #[trigger] run.folders[e] == (folder->0, id);
                    assert(find_collection(store.collections, user, run.folders[e].0) == Some(id));
                    assert(find_collection(last.collections, user, folder->0) == Some(id));
                }
                assert(run.items[run.pos] == run.current());
            }
        }
    } else {
        assert(store.bookmarks.take(store.bookmarks.len() as int) =~= store.bookmarks);
        assert(store.collections.take(store.collections.len() as int) =~= store.collections);
    }
}

/// An import comes to its end and leaves what was stored before in place.
/// Every bookmark that it stores is the bookmark of a record, without
/// description or tags, and stands in the collection of the user that is
/// named as the record's folder. Every collection that it creates belongs
/// to the user and has a name that the user had no collection for: at most
/// one is created for a folder name, and where no two collections of the
/// user had the same name before, none have after, so that all records
/// that share a folder name share the one collection of that name. The
/// summary counts the bookmarks and the collections that were stored.
pub proof fn lemma_folder_single_collection(
    user: RecordId,
    items: Seq<ParsedBookmarkView>,
    store: Store,
    world: World,
)
    requires
        0 < items.len() <= usize::MAX,
    ensures
        ({
            let (end, last) = import_all(user, items, store, world);
            &&& end.phase is Finished
            &&& store.grown_to(last)
            &&& created_fresh(store, last, user)
            &&& names_unique(store.collections, user) ==> names_unique(last.collections, user)
            &&& names_unique(store.collections, user) ==> forall|name: Seq<char>| #[trigger]
                count_named(last.collections, user, name) == (if find_collection(
                    last.collections,
                    user,
                    name,
                ) is Some {
                    1nat
                } else {
                    0nat
                })
            &&& forall|k: int|
                store.bookmarks.len() <= k < last.bookmarks.len() ==> placed(
                    items,
                    user,
                    last.collections,
                    #[trigger] last.bookmarks[k],
                )
            &&& last.bookmarks.len() == store.bookmarks.len() + end.imported
            &&& last.collections.len() == store.collections.len() + end.created
        }),
{
    let start = first_run(user, items);
    lemma_run_finishes(start, store, world);
    lemma_run_places(start, store, world);
    let last = import_all(user, items, store, world).1;
    if names_unique(store.collections, user) {
        lemma_unique_kept(store, last, user);
        assert forall|name: Seq<char>| #[trigger]
            count_named(last.collections, user, name) == (if find_collection(
                last.collections,
                user,
                name,
            ) is Some {
                1nat
            } else {
                0nat
            }) by {
            lemma_unique_counts(last.collections, user, name);
        }
    }
}

/// Where all records have the folder `name`, and the user had at most one
/// collection of that name, every bookmark that the import stores stands
/// in the collection of that name, and if the import stores a bookmark
/// there is exactly one such collection.
pub proof fn lemma_shared_folder(
    user: RecordId,
    items: Seq<ParsedBookmarkView>,
    name: Seq<char>,
    store: Store,
    world: World,
)
    requires
        0 < items.len() <= usize::MAX,
        forall|i: int| 0 <= i < items.len() ==> (#[trigger] items[i]).folder == Some(name),
        names_unique(store.collections, user),
    ensures
        ({
            let (end, last) = import_all(user, items, store, world);
            &&& forall|k: int|
                store.bookmarks.len() <= k < last.bookmarks.len() ==> {
                    let b = #[trigger] last.bookmarks[k];
                    b.collection is Some && b.collection == find_collection(
                        last.collections,
                        user,
                        name,
                    )
                }
            &&& end.imported > 0 ==> count_named(last.collections, user, name) == 1
            &&& last.bookmarks.len() == store.bookmarks.len() + end.imported
        }),
{
    lemma_folder_single_collection(user, items, store, world);
    let (end, last) = import_all(user, items, store, world);
    assert forall|k: int| store.bookmarks.len() <= k < last.bookmarks.len() implies {
        let b = #[trigger] last.bookmarks[k];
        b.collection is Some && b.collection == find_collection(last.collections, user, name)
    } by {
        assert(placed(items, user, last.collections, last.bookmarks[k]));
    }
    if end.imported > 0 {
        let b = last.bookmarks[store.bookmarks.len() as int];
        assert(b.collection is Some);
        assert(count_named(last.collections, user, name) == 1);
    }
}

/// A run on records whose URLs are all different and of which the user
/// has none yet skips none of them.
pub proof fn lemma_run_imports(run: RunView, store: Store, world: World)
    requires
        run.wf(),
        run.active() || run.phase is Finished,
        forall|i: int, j: int|
            0 <= i < j < run.items.len() ==> (#[trigger] run.items[i]).url != (
            #[trigger] run.items[j]).url,
        forall|j: int|
            run.pos <= j < run.items.len() ==> !store.has_bookmark(
                run.user,
                (#[trigger] run.items[j]).url,
            ),
    ensures
        ({
            let (end, last) = run_to_end(run, store, world);
            &&& end.phase is Finished
            &&& end.skipped == run.skipped
            &&& end.imported == run.imported + (run.items.len() - run.pos)
        }),
    decreases distance(run),
{
    if run.active() {
        let fresh = (world.ids)(store);
        let request = run.pending((world.clock)(store));
        let (after, reply) = store.answer(request, fresh);
        let next = run.advance(reply);
        lemma_advance_wf(run, reply);
        assert(run.items[run.pos] == run.current());
        assert forall|j: int| next.pos <= j < run.items.len() implies !after.has_bookmark(
            run.user,
            (#[trigger] run.items[j]).url,
        ) by {
            if after.has_bookmark(run.user, run.items[j].url) {
                let i = choose|i: int|
                    0 <= i < after.bookmarks.len() && (#[trigger] after.bookmarks[i]).user
                        == run.user && after.bookmarks[i].url == run.items[j].url;
                if i < store.bookmarks.len() {
                    assert(after.bookmarks[i] == store.bookmarks[i]);
                }
            }
        }
        lemma_run_imports(next, after, world);
    }
}

/// An import of records whose URLs are all different and of which the
/// user has none yet stores a bookmark for each and skips none.
pub proof fn lemma_fresh_import(
    user: RecordId,
    items: Seq<ParsedBookmarkView>,
    store: Store,
    world: World,
)
    requires
        0 < items.len() <= usize::MAX,
        forall|i: int, j: int|
            0 <= i < j < items.len() ==> (#[trigger] items[i]).url != (#[trigger] items[j]).url,
        forall|j: int| 0 <= j < items.len() ==> !store.has_bookmark(user, (#[trigger] items[j]).url),
    ensures
        ({
            let (end, last) = import_all(user, items, store, world);
            &&& end.phase is Finished
            &&& end.imported == items.len()
            &&& end.skipped == 0
            &&& last.bookmarks.len() == store.bookmarks.len() + items.len()
        }),
{
    lemma_run_imports(first_run(user, items), store, world);
    lemma_folder_single_collection(user, items, store, world);
}

/// Whether no two bookmarks of `user` have the same URL.
pub open spec fn urls_unique(bookmarks: Seq<NewBookmarkView>, user: RecordId) -> bool {
    forall|i: int, j: int|
        0 <= i < j < bookmarks.len() && (#[trigger] bookmarks[i]).user == user && (
        #[trigger] bookmarks[j]).user == user ==> bookmarks[i].url != bookmarks[j].url
}

/// A run stores a bookmark only after the store said that the user has
/// none with that URL: where no two bookmarks of the user had the same
/// URL before the run, none have after it.
pub proof fn lemma_run_keeps_urls_apart(run: RunView, store: Store, world: World)
    requires
        run.wf(),
        urls_unique(store.bookmarks, run.user),
        run.phase is Resolve || run.phase is Create || run.phase is Store ==> !store.has_bookmark(
            run.user,
            run.current().url,
        ),
    ensures
        urls_unique(run_to_end(run, store, world).1.bookmarks, run.user),
    decreases distance(run),
{
    if run.active() {
        let fresh = (world.ids)(store);
        let request = run.pending((world.clock)(store));
        let (after, reply) = store.answer(request, fresh);
        let next = run.advance(reply);
        lemma_advance_wf(run, reply);
        assert(urls_unique(after.bookmarks, run.user)) by {
            assert forall|i: int, j: int|
                0 <= i < j < after.bookmarks.len() && (#[trigger] after.bookmarks[i]).user
                    == run.user && (#[trigger] after.bookmarks[j]).user
                    == run.user implies after.bookmarks[i].url != after.bookmarks[j].url by {
                assert(after.bookmarks[i] == store.bookmarks[i]);
                if j < store.bookmarks.len() {
                    assert(after.bookmarks[j] == store.bookmarks[j]);
                }
            }
        }
        lemma_run_keeps_urls_apart(next, after, world);
    }
}

/// An import into a store in which no two bookmarks of the user have the
/// same URL leaves it so.
pub proof fn lemma_import_keeps_urls_apart(
    user: RecordId,
    items: Seq<ParsedBookmarkView>,
    store: Store,
    world: World,
)
    requires
        0 < items.len() <= usize::MAX,
        urls_unique(store.bookmarks, user),
    ensures
        urls_unique(import_all(user, items, store, world).1.bookmarks, user),
{
    lemma_run_keeps_urls_apart(first_run(user, items), store, world);
}

} // verus!

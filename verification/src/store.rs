//! The ordered store that keeps the event log, and what this crate takes
//! on trust about it.
//!
//! The log lives in a `sled` database: a set of named trees, each an
//! ordered map from byte keys to byte values. Nothing in this file is
//! proved. Each function here makes the calls into `sled` that its comment
//! names, and its contract records what `sled` documents of them, over
//! two names: what the database holds and the state of its id generator.
//!
//! The contracts describe a database that is reached through one handle
//! only. Every function that may change the database takes it by `&mut`
//! for that reason, although `sled` itself would accept `&`. A `sled::Db`
//! can be cloned, and the clones share what they hold: whoever writes
//! through a second handle, or from a second thread, leaves the ground on
//! which these contracts stand.
//!
//! Each function here that acts on a tree opens it first, so that it
//! holds two calls. A `sled::Tree` is a second handle onto what the
//! database holds; a contract on the tree alone could not say what the
//! database holds afterwards.
//!
//! Nothing is claimed of the trees once a call has failed. `sled` may
//! then have done a part of its work: a tree whose dropping failed
//! half-way is no longer among the names, and yet its records may be
//! found again. What a database holds is then no longer what one map
//! could tell. Every clause on the trees is therefore stated of a
//! database that is intact, which [`db_intact`] names: a call that
//! succeeds on an intact database leaves it intact, and of a call that
//! fails nothing of the kind is said.

use vstd::prelude::*;
use vstd::string::StringSliceAdditionalSpecFns;
use crate::partition::{Records, is_greatest, is_vacant, below};

verus! {

/// `sled::Db`: the handle of an open database. Nothing inside it is seen
/// here; what it holds is spoken of through [`db_trees`] and
/// [`db_next_id`].
#[verifier::external_type_specification]
#[verifier::external_body]
pub struct ExSledDb(sled::Db);

/// `sled::Error`: the failure of a call into the store. It is carried to
/// the caller as it is.
#[verifier::external_type_specification]
#[verifier::external_body]
pub struct ExSledError(sled::Error);

/// The trees of a database by name, each with the records it holds by key:
/// what `sled::Db::tree_names` names, and what opening each name finds.
pub uninterp spec fn db_trees(db: sled::Db) -> Map<Seq<u8>, Map<Seq<u8>, Seq<u8>>>;

/// Whether the database is in one piece: the names of its open trees are
/// the names of the trees that it records, so that what `tree_names`
/// names and what opening a name finds are told by the one map
/// [`db_trees`]. A database is so when it is opened, and stays so until a
/// call into it fails part-way.
pub uninterp spec fn db_intact(db: sled::Db) -> bool;

/// The number that the database's id generator hands out next: the
/// counter that `sled::Db::generate_id` reads and moves on.
pub uninterp spec fn db_next_id(db: sled::Db) -> u64;

/// The records of the tree called `name`; none where there is no such tree.
pub open spec fn tree_of(trees: Map<Seq<u8>, Records>, name: Seq<u8>) -> Records {
    if trees.contains_key(name) {
        trees[name]
    } else {
        Map::empty()
    }
}

/// `trees` after the tree called `name` was opened: a tree that was not
/// there is there now, and holds nothing.
pub open spec fn opened(trees: Map<Seq<u8>, Records>, name: Seq<u8>) -> Map<Seq<u8>, Records> {
    if trees.contains_key(name) {
        trees
    } else {
        trees.insert(name, Map::empty())
    }
}

/// `trees` after `value` was stored under `key` in the tree called `name`.
pub open spec fn stored(
    trees: Map<Seq<u8>, Records>,
    name: Seq<u8>,
    key: Seq<u8>,
    value: Seq<u8>,
) -> Map<Seq<u8>, Records> {
    trees.insert(name, tree_of(trees, name).insert(key, value))
}

/// The number after `id` in the id generator, which wraps around.
pub open spec fn id_after(id: u64) -> u64 {
    if id == u64::MAX {
        0
    } else {
        (id + 1) as u64
    }
}

/// `sled::Db::open_tree`, then `sled::Tree::insert` on that tree.
///
/// Opening makes the tree if it is not there. Where both calls succeed
/// the tree holds what it held, with `value` under `key`; no other tree
/// has changed. After a failure nothing is claimed of the trees. The id
/// generator is not touched.
#[verifier::external_body]
pub(crate) fn tree_insert(db: &mut sled::Db, name: &str, key: &[u8], value: Vec<u8>) -> (r: Result<
    (),
    sled::Error,
>)
    ensures
        db_next_id(*final(db)) == db_next_id(*old(db)),
        db_intact(*old(db)) && r is Ok ==> {
            &&& db_intact(*final(db))
            &&& db_trees(*final(db)) == stored(
                db_trees(*old(db)),
                name.spec_bytes(),
                key@,
                value@,
            )
        },
{
    db.open_tree(name)?.insert(key, value)?;
    Ok(())
}

/// `sled::Db::open_tree`, then `sled::Tree::get` on that tree.
///
/// Where both calls succeed the result is the value under `key`, if the
/// tree has that key, and the only change is that the tree now exists.
#[verifier::external_body]
pub(crate) fn tree_get(db: &mut sled::Db, name: &str, key: &[u8]) -> (r: Result<
    Option<Vec<u8>>,
    sled::Error,
>)
    ensures
        db_next_id(*final(db)) == db_next_id(*old(db)),
        db_intact(*old(db)) && r is Ok ==> {
            &&& db_intact(*final(db))
            &&& db_trees(*final(db)) == opened(db_trees(*old(db)), name.spec_bytes())
        },
        db_intact(*old(db)) ==> (match r {
            Ok(Some(value)) => {
                let tree = tree_of(db_trees(*old(db)), name.spec_bytes());
                tree.contains_key(key@) && tree[key@] == value@
            },
            Ok(None) => !tree_of(db_trees(*old(db)), name.spec_bytes()).contains_key(key@),
            Err(_) => true,
        }),
{
    Ok(db.open_tree(name)?.get(key)?.map(|value| value.to_vec()))
}

/// `sled::Db::open_tree`, then `sled::Tree::last` on that tree.
///
/// `sled` keeps a tree's keys in the lexicographic order of their bytes.
/// Where both calls succeed the result is the last key with its value,
/// or nothing if the tree holds nothing, and the only change is that the
/// tree now exists.
#[verifier::external_body]
pub(crate) fn tree_last(db: &mut sled::Db, name: &str) -> (r: Result<
    Option<(Vec<u8>, Vec<u8>)>,
    sled::Error,
>)
    ensures
        db_next_id(*final(db)) == db_next_id(*old(db)),
        db_intact(*old(db)) && r is Ok ==> {
            &&& db_intact(*final(db))
            &&& db_trees(*final(db)) == opened(db_trees(*old(db)), name.spec_bytes())
        },
        db_intact(*old(db)) ==> (match r {
            Ok(Some((key, value))) => {
                let tree = tree_of(db_trees(*old(db)), name.spec_bytes());
                is_greatest(tree, key@) && tree[key@] == value@
            },
            Ok(None) => is_vacant(tree_of(db_trees(*old(db)), name.spec_bytes())),
            Err(_) => true,
        }),
{
    Ok(db.open_tree(name)?.last()?.map(|(key, value)| (key.to_vec(), value.to_vec())))
}

/// `sled::Db::open_tree`, then `sled::Tree::get_lt` on that tree.
///
/// Where both calls succeed the result is the last of the keys that come
/// strictly before `bound`, with its value, or nothing if no key comes
/// before `bound`; the only change is that the tree now exists.
#[verifier::external_body]
pub(crate) fn tree_get_lt(db: &mut sled::Db, name: &str, bound: &[u8]) -> (r: Result<
    Option<(Vec<u8>, Vec<u8>)>,
    sled::Error,
>)
    ensures
        db_next_id(*final(db)) == db_next_id(*old(db)),
        db_intact(*old(db)) && r is Ok ==> {
            &&& db_intact(*final(db))
            &&& db_trees(*final(db)) == opened(db_trees(*old(db)), name.spec_bytes())
        },
        db_intact(*old(db)) ==> (match r {
            Ok(Some((key, value))) => {
                let tree = tree_of(db_trees(*old(db)), name.spec_bytes());
                is_greatest(below(tree, bound@), key@) && tree[key@] == value@
            },
            Ok(None) => is_vacant(below(tree_of(db_trees(*old(db)), name.spec_bytes()), bound@)),
            Err(_) => true,
        }),
{
    Ok(db.open_tree(name)?.get_lt(bound)?.map(|(key, value)| (key.to_vec(), value.to_vec())))
}

/// `sled::Db::drop_tree`.
///
/// Where it succeeds the tree called `name` is gone with all it held, no
/// other tree has changed, and the result says whether there was such a
/// tree. `sled` refuses to drop its own default tree and fails then. A
/// failure may come when the work is half done, and the database is then
/// no longer known to be intact.
#[verifier::external_body]
pub(crate) fn drop_tree(db: &mut sled::Db, name: &str) -> (r: Result<bool, sled::Error>)
    ensures
        db_next_id(*final(db)) == db_next_id(*old(db)),
        db_intact(*old(db)) ==> (match r {
            Ok(found) => {
                &&& db_intact(*final(db))
                &&& found == db_trees(*old(db)).contains_key(name.spec_bytes())
                &&& db_trees(*final(db)) == db_trees(*old(db)).remove(name.spec_bytes())
            },
            Err(_) => true,
        }),
{
    db.drop_tree(name)
}

/// `sled::Db::generate_id`.
///
/// The generator counts upwards: the call takes the next number and
/// moves the generator past it, whether or not persisting the counter
/// then fails. The trees are not touched, nor is the database any less
/// intact for it.
#[verifier::external_body]
pub(crate) fn generate_id(db: &mut sled::Db) -> (r: Result<u64, sled::Error>)
    ensures
        db_trees(*final(db)) == db_trees(*old(db)),
        db_intact(*final(db)) == db_intact(*old(db)),
        db_next_id(*final(db)) == id_after(db_next_id(*old(db))),
        match r {
            Ok(id) => id == db_next_id(*old(db)),
            Err(_) => true,
        },
{
    db.generate_id()
}

/// `sled::Db::tree_names`.
///
/// The names of the open trees, the default tree's among them, each
/// once, in no order that could be relied on. Of an intact database they
/// are the names of all its trees.
#[verifier::external_body]
pub(crate) fn tree_names(db: &sled::Db) -> (names: Vec<Vec<u8>>)
    ensures
        names.deep_view().no_duplicates(),
        db_intact(*db) ==> names.deep_view().to_set() == db_trees(*db).dom(),
{
    db.tree_names().into_iter().map(|name| name.to_vec()).collect()
}

} // verus!

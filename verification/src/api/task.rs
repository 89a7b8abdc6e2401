//! What the server decides when a client creates a task or sets its
//! parameters: which session is meant, whether the parameters are
//! parameters at all, and what the session is asked to do.

use vstd::prelude::*;
use crate::api::{ApiError, MaaManager, ParamsKind};
use crate::maa_sys::{Maa, MaaError, MaaView, refusal};
use crate::text::has_nul;
use crate::types::task::TaskId;

verus! {

/// The parameters that a session is handed for a request of the kind
/// `kind` with the text `text`: an empty object where the request has
/// none, the text of the object where it has one.
pub open spec fn params_text(kind: ParamsKind, text: Seq<char>) -> Seq<char> {
    match kind {
        ParamsKind::Null => "{}"@,
        _ => text,
    }
}

/// Why the server refuses to hand a request about tasks to the session
/// under `id`, if it does: no session is alive under the id, or the
/// parameters are no object.
pub open spec fn turned_down(manager: MaaManager, id: i64, kind: ParamsKind) -> Option<ApiError> {
    if !manager.instances().contains_key(id) {
        Some(ApiError::InstanceNotFound)
    } else if kind == ParamsKind::Other {
        Some(ApiError::InvalidRequest)
    } else {
        None
    }
}

/// The session `after` is the session `before` with the task `task` of the
/// type `types` and with the parameters `params` remembered, and nothing
/// else changed.
pub open spec fn remembers(
    before: MaaView,
    after: MaaView,
    task: TaskId,
    types: Seq<char>,
    params: Seq<char>,
) -> bool {
    &&& after.handle == before.handle
    &&& after.callback == before.callback
    &&& after.uuid == before.uuid
    &&& after.target == before.target
    &&& after.tasks.dom() == before.tasks.dom().insert(task.0)
    &&& after.tasks[task.0].id == task
    &&& after.tasks[task.0].task_type@ == types
    &&& after.tasks[task.0].params@ == params
    &&& forall|other: i32|
        other != task.0 && before.tasks.contains_key(other) ==> #[trigger] after.tasks[other]
            == before.tasks[other]
}

/// Every session of `before` but the one under `id` is in `after` as it
/// was.
pub open spec fn others_untouched(before: Map<i64, Maa>, after: Map<i64, Maa>, id: i64) -> bool {
    forall|other: i64|
        other != id && before.contains_key(other) ==> #[trigger] after[other] == before[other]
}

/// The session `before` was asked to create the task that `after`
/// remembers as `task`: it did not refuse, the engine was handed the type
/// and the parameters of the request and gave the task its id, and the
/// session remembers the task with that type and those parameters.
pub open spec fn created<F: FnOnce(usize, String, String) -> i32>(
    before: MaaView,
    after: MaaView,
    types: String,
    params: Seq<char>,
    append: F,
    task: TaskId,
) -> bool {
    &&& refusal(before, has_nul(types@) || has_nul(params)) is None
    &&& exists|handed: String|
        handed@ == params && #[trigger] append.ensures((before.handle, types, handed), task.0)
    &&& remembers(before, after, task, types@, params)
}

/// Creates a task of the type `types` for the session under `id`.
///
/// Without such a session the request is turned down, and so it is where
/// its parameters are neither an object nor missing. Otherwise the
/// session is asked to create the task, with the object's text as it is
/// or with an empty object: the task gets the id that the engine gives to
/// it, and the session remembers it with its type and those parameters.
/// A session that refuses is an internal failure. Whatever the outcome,
/// no other session changes, and a request that fails leaves the session
/// as it was.
pub fn create<F: FnOnce(usize, String, String) -> i32>(
    manager: &mut MaaManager,
    id: i64,
    types: String,
    kind: ParamsKind,
    text: String,
    append: F,
) -> (r: Result<TaskId, ApiError>)
    requires
        forall|handle: usize, of: String, with: String|
            handle != 0 ==> append.requires((handle, of, with)),
    ensures
        final(manager).last_id() == old(manager).last_id(),
        final(manager).instances().dom() == old(manager).instances().dom(),
        others_untouched(old(manager).instances(), final(manager).instances(), id),
        match r {
            Ok(task) => {
                &&& turned_down(*old(manager), id, kind) is None
                &&& created(
                    old(manager).instances()[id]@,
                    final(manager).instances()[id]@,
                    types,
                    params_text(kind, text@),
                    append,
                    task,
                )
            },
            Err(e) => {
                &&& old(manager).instances().contains_key(id) ==> final(manager).instances()[id]@
                    == old(manager).instances()[id]@
                &&& match turned_down(*old(manager), id, kind) {
                    Some(why) => e == why,
                    None => {
                        &&& e == ApiError::Internal
                        &&& refusal(
                            old(manager).instances()[id]@,
                            has_nul(types@) || has_nul(params_text(kind, text@)),
                        ) is Some
                    },
                }
            },
        },
{
    if manager.get(id).is_none() {
        return Err(ApiError::InstanceNotFound);
    }
    let params = match crate::api::task_params(kind, text) {
        Ok(params) => params,
        Err(e) => {
            return Err(e);
        },
    };
    let ghost before = old(manager).instances()[id];
    let ghost handed = params;
    let outcome = match manager.get_mut(id) {
        Some(maa) => maa.create_task(types, params, append),
        None => Err(MaaError::InvalidHandle),
    };
    let ghost after = manager.instances()[id];
    proof {
        assert(manager.instances() == old(manager).instances().insert(id, after));
        assert(others_untouched(old(manager).instances(), manager.instances(), id));
    }
    match outcome {
        Ok(task) => {
            proof {
                assert(append.ensures((before@.handle, types, handed), task.0));
                assert(after@.tasks.dom() =~= before@.tasks.dom().insert(task.0));
                assert(remembers(before@, after@, task, types@, params_text(kind, text@)));
                assert(created(before@, after@, types, params_text(kind, text@), append, task));
            }
            Ok(task)
        },
        Err(_) => Err(ApiError::Internal),
    }
}

/// The session `before` was asked to set the parameters of its task
/// `task`: it knows the task, the engine was handed the parameters of the
/// request and accepted them, and the session `after` is as `before` but
/// that it remembers those parameters for the task.
pub open spec fn updated<F: FnOnce(usize, i32, String) -> u8>(
    before: MaaView,
    after: MaaView,
    task: TaskId,
    params: Seq<char>,
    set: F,
) -> bool {
    &&& before.handle != 0
    &&& before.tasks.contains_key(task.0)
    &&& !has_nul(params)
    &&& exists|handed: String|
        handed@ == params && #[trigger] set.ensures((before.handle, task.0, handed), 1u8)
    &&& after.handle == before.handle
    &&& after.callback == before.callback
    &&& after.uuid == before.uuid
    &&& after.target == before.target
    &&& after.tasks.dom() == before.tasks.dom()
    &&& after.tasks[task.0].id == task
    &&& after.tasks[task.0].task_type == before.tasks[task.0].task_type
    &&& after.tasks[task.0].params@ == params
    &&& forall|other: i32|
        other != task.0 && before.tasks.contains_key(other) ==> #[trigger] after.tasks[other]
            == before.tasks[other]
}

/// Why the session `before` did not set the parameters of its task
/// `task`: it has no handle, or does not know the task, or the parameters
/// cannot be handed over, or the engine was handed them and did not
/// accept.
pub open spec fn not_updated<F: FnOnce(usize, i32, String) -> u8>(
    before: MaaView,
    task: TaskId,
    params: Seq<char>,
    set: F,
) -> bool {
    ||| before.handle == 0
    ||| !before.tasks.contains_key(task.0)
    ||| has_nul(params)
    ||| exists|handed: String, status: u8|
        handed@ == params && #[trigger] set.ensures((before.handle, task.0, handed), status)
            && status != 1
}

/// Sets the parameters of the task `task` of the session under `id`.
///
/// Without such a session the request is turned down, and so it is where
/// its parameters are neither an object nor missing. Otherwise the
/// session is asked to set them, the object's text as it is or an empty
/// object. A session that refuses, be it that it does not know the task,
/// or an engine that does not accept, is an internal failure. Whatever
/// the outcome, no other session changes, and a request that fails leaves
/// the session as it was.
pub fn set<F: FnOnce(usize, i32, String) -> u8>(
    manager: &mut MaaManager,
    id: i64,
    task: TaskId,
    kind: ParamsKind,
    text: String,
    apply: F,
) -> (r: Result<(), ApiError>)
    requires
        forall|handle: usize, of: i32, with: String|
            handle != 0 ==> apply.requires((handle, of, with)),
    ensures
        final(manager).last_id() == old(manager).last_id(),
        final(manager).instances().dom() == old(manager).instances().dom(),
        others_untouched(old(manager).instances(), final(manager).instances(), id),
        match r {
            Ok(()) => {
                &&& turned_down(*old(manager), id, kind) is None
                &&& updated(
                    old(manager).instances()[id]@,
                    final(manager).instances()[id]@,
                    task,
                    params_text(kind, text@),
                    apply,
                )
            },
            Err(e) => {
                &&& old(manager).instances().contains_key(id) ==> final(manager).instances()[id]@
                    == old(manager).instances()[id]@
                &&& match turned_down(*old(manager), id, kind) {
                    Some(why) => e == why,
                    None => {
                        &&& e == ApiError::Internal
                        &&& not_updated(
                            old(manager).instances()[id]@,
                            task,
                            params_text(kind, text@),
                            apply,
                        )
                    },
                }
            },
        },
{
    if manager.get(id).is_none() {
        return Err(ApiError::InstanceNotFound);
    }
    let params = match crate::api::task_params(kind, text) {
        Ok(params) => params,
        Err(e) => {
            return Err(e);
        },
    };
    let ghost before = old(manager).instances()[id];
    let ghost handed = params;
    let outcome = match manager.get_mut(id) {
        Some(maa) => maa.set_task_parameters(task, params, apply),
        None => Err(MaaError::InvalidHandle),
    };
    let ghost after = manager.instances()[id];
    proof {
        assert(manager.instances() == old(manager).instances().insert(id, after));
        assert(others_untouched(old(manager).instances(), manager.instances(), id));
    }
    match outcome {
        Ok(()) => {
            proof {
                assert(apply.ensures((before@.handle, task.0, handed), 1u8));
                assert(after@.tasks.dom() =~= before@.tasks.dom());
                assert(updated(before@, after@, task, params_text(kind, text@), apply));
            }
            Ok(())
        },
        Err(_) => {
            proof {
                if before@.handle != 0 && before@.tasks.contains_key(task.0) && !has_nul(handed@) {
                    let status = choose|status: u8| #[trigger]
                        apply.ensures((before@.handle, task.0, handed), status) && status != 1;
                    assert(apply.ensures((before@.handle, task.0, handed), status));
                }
                assert(not_updated(before@, task, params_text(kind, text@), apply));
            }
            Err(ApiError::Internal)
        },
    }
}

} // verus!

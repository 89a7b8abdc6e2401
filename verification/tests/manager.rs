use maars::api::{message_count, task, task_params, ApiError, Coord, MaaManager, ParamsKind};
use maars::types::task::TaskId;
use maars::database::DbError;
use maars::maa_sys::{Maa, MaaError};

fn open(id: i64) -> Maa {
    Maa::from_raw(0x1000 + id as usize, Some(id as usize))
}

#[test]
fn new_manager_is_empty() {
    let manager = MaaManager::new();
    assert!(manager.get_all_id().is_empty());
    assert_eq!(manager.current_id(), 0);
    assert!(manager.get(1).is_none());
}

#[test]
fn ids_are_not_reused_after_a_deletion() {
    let mut manager = MaaManager::new();
    assert_eq!(manager.create(open), 1);
    assert!(manager.delete(1).is_some());
    assert_eq!(manager.create(open), 2);
    assert_eq!(manager.get_all_id(), vec![2]);
}

#[test]
fn ids_go_up_by_one() {
    let mut manager = MaaManager::new();
    let mut ids = Vec::new();
    for round in 0..6i64 {
        let id = manager.create(open);
        ids.push(id);
        if round % 2 == 0 {
            manager.delete(id);
        }
    }
    assert_eq!(ids, vec![1, 2, 3, 4, 5, 6]);
    let mut alive = manager.get_all_id();
    alive.sort();
    assert_eq!(alive, vec![2, 4, 6]);
    assert_eq!(manager.current_id(), 6);
}

#[test]
fn gen_id_uses_an_id_up() {
    let mut manager = MaaManager::new();
    assert_eq!(manager.gen_id(), 1);
    assert_eq!(manager.gen_id(), 2);
    assert_eq!(manager.create(open), 3);
    assert_eq!(manager.get_all_id(), vec![3]);
}

#[test]
fn session_is_handed_the_id_it_is_put_under() {
    let mut manager = MaaManager::new();
    manager.gen_id();
    let id = manager.create(open);
    assert_eq!(id, 2);
    assert_eq!(manager.get(2).unwrap().handle(), Ok(0x1002));
}

#[test]
fn session_that_the_engine_never_made_has_no_handle() {
    let mut manager = MaaManager::new();
    let id = manager.create(|_| Maa::from_raw(0, None));
    assert_eq!(id, 1);
    assert_eq!(manager.get_all_id(), vec![1]);
    assert_eq!(manager.get(id).unwrap().handle(), Err(MaaError::InvalidHandle));
    assert_eq!(manager.get(id).unwrap().start(|_| 1), Err(MaaError::InvalidHandle));
    assert!(manager.delete(id).unwrap().release().is_empty());
}

#[test]
fn deleting_twice_yields_nothing_the_second_time() {
    let mut manager = MaaManager::new();
    let id = manager.create(open);
    let other = manager.create(open);
    let gone = manager.delete(id).unwrap();
    assert_eq!(gone.handle(), Ok(0x1001));
    assert!(manager.delete(id).is_none());
    assert!(manager.delete(77).is_none());
    assert_eq!(manager.get_all_id(), vec![other]);
    assert!(manager.get(id).is_none());
    assert!(manager.get_mut(id).is_none());
}

#[test]
fn session_is_worked_on_in_place() {
    let mut manager = MaaManager::new();
    let id = manager.create(open);
    let other = manager.create(open);
    assert_eq!(manager.get_target(id), None);
    manager
        .get_mut(id)
        .unwrap()
        .connect_async("adb".to_string(), "127.0.0.1:5555".to_string(), None, false, |_, _, _, _, _| 1)
        .unwrap();
    assert_eq!(manager.get_target(id), Some("127.0.0.1:5555".to_string()));
    assert_eq!(manager.get(id).unwrap().target(), Some("127.0.0.1:5555".to_string()));
    assert_eq!(manager.get_target(other), None);
    assert_eq!(manager.get_target(99), None);
    assert!(manager.get_mut(99).is_none());
    assert_eq!(manager.get(other).unwrap().handle(), Ok(0x1002));
}

#[test]
fn all_ids_are_listed_once() {
    let mut manager = MaaManager::new();
    for _ in 0..20 {
        manager.create(open);
    }
    manager.delete(7);
    let mut ids = manager.get_all_id();
    ids.sort();
    let expected: Vec<i64> = (1..=20).filter(|id| *id != 7).collect();
    assert_eq!(ids, expected);
}

#[test]
fn errors_have_their_messages() {
    assert_eq!(ApiError::Internal.message(), "Internal Error");
    assert_eq!(ApiError::InstanceNotFound.message(), "Instance Not Found");
    assert_eq!(ApiError::InvalidRequest.message(), "Invalid Request");
    assert_eq!(ApiError::Internal.status_code(), 200);
    assert_eq!(ApiError::InstanceNotFound.status_code(), 200);
}

#[test]
fn failures_below_the_server_are_internal() {
    assert_eq!(ApiError::from(DbError::IVecNotLongEnough), ApiError::Internal);
    assert_eq!(ApiError::from(MaaError::UnknownTask), ApiError::Internal);
    assert_eq!(ApiError::from(MaaError::InvalidHandle), ApiError::Internal);
}

#[test]
fn task_parameters_are_an_object_or_nothing() {
    assert_eq!(task_params(ParamsKind::Null, "null".to_string()), Ok("{}".to_string()));
    assert_eq!(task_params(ParamsKind::Object, "{\"a\":1}".to_string()), Ok("{\"a\":1}".to_string()));
    assert_eq!(task_params(ParamsKind::Other, "[1]".to_string()), Err(ApiError::InvalidRequest));
}

#[test]
fn message_count_defaults_to_all() {
    assert_eq!(message_count(None), i64::MAX as usize);
    assert_eq!(message_count(Some(3)), 3);
    assert_eq!(message_count(Some(0)), 0);
    assert_eq!(message_count(Some(-1)), usize::MAX);
    assert_eq!(message_count(Some(i64::MAX)), i64::MAX as usize);
}

#[test]
fn coordinates_are_plain_values() {
    let at = Coord { x: -3, y: 9 };
    assert_eq!((at.x, at.y), (-3, 9));
}

#[test]
fn task_is_created_for_the_session_that_is_meant() {
    let mut manager = MaaManager::new();
    let first = manager.create(open);
    let second = manager.create(open);
    let handed = std::cell::RefCell::new(None);
    let r = task::create(&mut manager, second, "StartUp".to_string(), ParamsKind::Object, "{}".to_string(), |handle, kind, params| {
        *handed.borrow_mut() = Some((handle, kind, params));
        41
    });
    assert_eq!(r, Ok(TaskId::new(41)));
    assert_eq!(handed.into_inner(), Some((0x1002, "StartUp".to_string(), "{}".to_string())));
    let live = |_: usize, capacity: usize| maars::buffer::Reply { reported: 1, data: vec![41; capacity.min(4)] };
    let tasks = manager.get_mut(second).unwrap().tasks(u64::MAX, &live).unwrap();
    assert_eq!(tasks.len(), 1);
    assert_eq!(tasks[&41].id, TaskId::new(41));
    assert_eq!(tasks[&41].task_type, "StartUp");
    assert_eq!(tasks[&41].params, "{}");
    assert!(manager.get_mut(first).unwrap().tasks(u64::MAX, &live).unwrap().is_empty());
}

#[test]
fn task_without_parameters_gets_an_empty_object() {
    let mut manager = MaaManager::new();
    let id = manager.create(open);
    let r = task::create(&mut manager, id, "Award".to_string(), ParamsKind::Null, "null".to_string(), |_, _, params| {
        assert_eq!(params, "{}");
        5
    });
    assert_eq!(r, Ok(TaskId::new(5)));
}

#[test]
fn task_requests_are_turned_down() {
    let mut manager = MaaManager::new();
    let id = manager.create(open);
    let called = std::cell::Cell::new(false);
    let r = task::create(&mut manager, 99, "StartUp".to_string(), ParamsKind::Object, "{}".to_string(), |_, _, _| {
        called.set(true);
        1
    });
    assert_eq!(r, Err(ApiError::InstanceNotFound));
    let r = task::create(&mut manager, 99, "StartUp".to_string(), ParamsKind::Other, "[]".to_string(), |_, _, _| 1);
    assert_eq!(r, Err(ApiError::InstanceNotFound));
    let r = task::create(&mut manager, id, "StartUp".to_string(), ParamsKind::Other, "[]".to_string(), |_, _, _| {
        called.set(true);
        1
    });
    assert_eq!(r, Err(ApiError::InvalidRequest));
    let r = task::create(&mut manager, id, "Start\0Up".to_string(), ParamsKind::Object, "{}".to_string(), |_, _, _| {
        called.set(true);
        1
    });
    assert_eq!(r, Err(ApiError::Internal));
    assert!(!called.get());
    assert_eq!(task::set(&mut manager, 99, TaskId::new(1), ParamsKind::Object, "{}".to_string(), |_, _, _| 1), Err(ApiError::InstanceNotFound));
    assert_eq!(task::set(&mut manager, id, TaskId::new(1), ParamsKind::Other, "7".to_string(), |_, _, _| 1), Err(ApiError::InvalidRequest));
    assert_eq!(task::set(&mut manager, id, TaskId::new(1), ParamsKind::Object, "{}".to_string(), |_, _, _| 1), Err(ApiError::Internal));
}

#[test]
fn task_parameters_are_set_for_the_session_that_is_meant() {
    let mut manager = MaaManager::new();
    let id = manager.create(open);
    let task = task::create(&mut manager, id, "Fight".to_string(), ParamsKind::Object, "{\"stage\":\"1-7\"}".to_string(), |_, _, _| 3).unwrap();
    let r = task::set(&mut manager, id, task, ParamsKind::Object, "{\"stage\":\"CE-6\"}".to_string(), |handle, of, params| {
        assert_eq!((handle, of, params.as_str()), (0x1001, 3, "{\"stage\":\"CE-6\"}"));
        1
    });
    assert_eq!(r, Ok(()));
    assert_eq!(task::set(&mut manager, id, task, ParamsKind::Null, "null".to_string(), |_, _, _| 0), Err(ApiError::Internal));
    let live = |_: usize, capacity: usize| maars::buffer::Reply { reported: 1, data: vec![3; capacity.min(4)] };
    let tasks = manager.get_mut(id).unwrap().tasks(u64::MAX, &live).unwrap();
    assert_eq!(tasks[&3].params, "{\"stage\":\"CE-6\"}");
    assert_eq!(tasks[&3].task_type, "Fight");
}

#[test]
fn identifiers_are_ordered_by_their_numbers() {
    assert!(TaskId::new(1) < TaskId::new(2));
    assert!(maars::types::task::ItemId::new(9) > maars::types::task::ItemId::new(3));
    assert!(maars::maa_sys::OptionKey::new(-1) < maars::maa_sys::OptionKey::new(0));
    assert!(maars::maa_sys::MessageType::new(5) <= maars::maa_sys::MessageType::new(5));
    assert!(maars::maa_sys::LogLevel::Trace < maars::maa_sys::LogLevel::Error);
    let mut ids = vec![TaskId::new(3), TaskId::new(1), TaskId::new(2)];
    ids.sort();
    assert_eq!(ids, vec![TaskId::new(1), TaskId::new(2), TaskId::new(3)]);
}

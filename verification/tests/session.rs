use maars::buffer::Reply;
use maars::maa_sys::{
    check_text, decode_callback, is_success, AsyncCallId, LogLevel, Maa, MaaError, MessageType,
    OptionKey, Teardown,
};
use maars::types::task::TaskId;
use std::cell::{Cell, RefCell};

const SENTINEL: u64 = u64::MAX;

fn session() -> Maa {
    Maa::new(0x1000, Some(0x2000)).unwrap()
}

fn released() -> Maa {
    let mut maa = session();
    maa.release();
    maa
}

fn task_list(ids: Vec<i32>) -> impl Fn(usize, usize) -> Reply<i32> {
    move |_handle: usize, capacity: usize| {
        let mut data = ids.clone();
        data.resize(capacity, 0);
        Reply { reported: ids.len() as u64, data }
    }
}

fn text<'a>(uuid: &'static str, calls: &'a Cell<usize>) -> impl Fn(usize, usize) -> Reply<u8> + 'a {
    move |_handle: usize, capacity: usize| {
        calls.set(calls.get() + 1);
        let mut data = uuid.as_bytes().to_vec();
        data.resize(capacity, 0xcc);
        Reply { reported: uuid.len() as u64, data }
    }
}

#[test]
fn session_needs_a_handle() {
    assert!(matches!(Maa::new(0, None), Err(MaaError::InvalidHandle)));
    let maa = Maa::new(5, None).unwrap();
    assert_eq!(maa.handle(), Ok(5));
    assert_eq!(maa.target(), None);
    assert_eq!(Maa::from_raw(6, Some(7)).handle(), Ok(6));
    assert_eq!(Maa::from_raw(0, Some(7)).handle(), Err(MaaError::InvalidHandle));
}

#[test]
fn scenario_connect_create_list_and_unknown_task() {
    let mut maa = session();
    let seen = RefCell::new(None);
    let id = maa
        .connect_async(
            "/bin/adb".to_string(),
            "127.0.0.1:5555".to_string(),
            None,
            false,
            |handle, path, address, config, block| {
                *seen.borrow_mut() = Some((handle, path, address, config, block));
                31
            },
        )
        .unwrap();
    assert_eq!(id, AsyncCallId::new(31));
    assert_eq!(
        seen.into_inner(),
        Some((0x1000, "/bin/adb".to_string(), "127.0.0.1:5555".to_string(), None, false))
    );
    assert_eq!(maa.target(), Some("127.0.0.1:5555".to_string()));

    let handed = RefCell::new(None);
    let task = maa
        .create_task("StartUp".to_string(), "{}".to_string(), |handle, kind, params| {
            *handed.borrow_mut() = Some((handle, kind, params));
            4
        })
        .unwrap();
    assert_eq!(task, TaskId::new(4));
    assert_eq!(handed.into_inner(), Some((0x1000, "StartUp".to_string(), "{}".to_string())));

    let tasks = maa.tasks(SENTINEL, &task_list(vec![4])).unwrap();
    assert_eq!(tasks.len(), 1);
    assert_eq!(tasks[&4].id, task);
    assert_eq!(tasks[&4].task_type, "StartUp");
    assert_eq!(tasks[&4].params, "{}");

    let called = Cell::new(false);
    let r = maa.set_task_parameters(TaskId::new(99), "{}".to_string(), |_, _, _| {
        called.set(true);
        1
    });
    assert_eq!(r, Err(MaaError::UnknownTask));
    assert!(!called.get());
}

#[test]
fn reconnecting_overwrites_the_target() {
    let mut maa = session();
    maa.connect_async("adb".to_string(), "10.0.0.1:1".to_string(), None, true, |_, _, _, _, _| 1).unwrap();
    maa.connect_async("adb".to_string(), "10.0.0.2:2".to_string(), Some("cfg".to_string()), true, |_, _, _, _, _| 2)
        .unwrap();
    assert_eq!(maa.target(), Some("10.0.0.2:2".to_string()));
}

#[test]
fn connect_hands_the_status_back() {
    let mut maa = session();
    let r = maa.connect("adb".to_string(), "10.0.0.1:1".to_string(), None, |_, _, _, _| 0);
    assert_eq!(r, Err(MaaError::OperationRejected));
    assert_eq!(maa.target(), None);
    let r = maa.connect("adb".to_string(), "10.0.0.1:1".to_string(), None, |_, _, _, _| 1);
    assert_eq!(r, Ok(()));
    assert_eq!(maa.target(), Some("10.0.0.1:1".to_string()));
}

#[test]
fn released_session_refuses_every_operation() {
    let mut maa = released();
    let called = Cell::new(0usize);
    assert_eq!(maa.handle(), Err(MaaError::InvalidHandle));
    let r = maa.connect_async("a".to_string(), "b".to_string(), None, false, |_, _, _, _, _| {
        called.set(called.get() + 1);
        1
    });
    assert_eq!(r.err(), Some(MaaError::InvalidHandle));
    assert_eq!(maa.target(), None);
    let r = maa.create_task("a".to_string(), "{}".to_string(), |_, _, _| {
        called.set(called.get() + 1);
        1
    });
    assert_eq!(r.err(), Some(MaaError::InvalidHandle));
    let bump = |_: usize| {
        called.set(called.get() + 1);
        1u8
    };
    assert_eq!(maa.start(bump), Err(MaaError::InvalidHandle));
    assert_eq!(maa.stop(bump), Err(MaaError::InvalidHandle));
    assert!(!maa.running(bump));
    assert_eq!(maa.click_async(1, 2, false, |_, _, _, _| 1).err(), Some(MaaError::InvalidHandle));
    assert_eq!(maa.take_screenshot_async(false, |_, _| 1).err(), Some(MaaError::InvalidHandle));
    assert_eq!(maa.set_option(OptionKey::new(1), "v".to_string(), |_, _, _| 1), Err(MaaError::InvalidHandle));
    let fetch = |_: usize, _: usize| {
        called.set(called.get() + 1);
        Reply { reported: 0, data: Vec::<u8>::new() }
    };
    assert_eq!(maa.screenshot(SENTINEL, &fetch).err(), Some(MaaError::InvalidHandle));
    assert_eq!(maa.uuid(SENTINEL, &fetch).err(), Some(MaaError::InvalidHandle));
    assert_eq!(maa.tasks(SENTINEL, &task_list(vec![])).err(), Some(MaaError::InvalidHandle));
    assert_eq!(called.get(), 0);
}

#[test]
fn text_with_nul_is_not_handed_over() {
    let mut maa = session();
    let r = maa.connect_async("a\0b".to_string(), "x".to_string(), None, false, |_, _, _, _, _| 1);
    assert_eq!(r.err(), Some(MaaError::CNull));
    let r = maa.connect_async("a".to_string(), "x".to_string(), Some("\0".to_string()), false, |_, _, _, _, _| 1);
    assert_eq!(r.err(), Some(MaaError::CNull));
    assert_eq!(maa.target(), None);
    let r = maa.create_task("T".to_string(), "{\0}".to_string(), |_, _, _| 1);
    assert_eq!(r.err(), Some(MaaError::CNull));
    assert_eq!(check_text("fine"), Ok(()));
    assert_eq!(check_text("not\0fine"), Err(MaaError::CNull));
    assert_eq!(check_text(""), Ok(()));
}

#[test]
fn task_parameters_are_remembered_when_accepted() {
    let mut maa = session();
    let id = maa.create_task("Fight".to_string(), "{\"stage\":\"1-7\"}".to_string(), |_, _, _| 2).unwrap();
    let r = maa.set_task_parameters(id, "{\"stage\":\"CE-6\"}".to_string(), |handle, task, params| {
        assert_eq!((handle, task, params.as_str()), (0x1000, 2, "{\"stage\":\"CE-6\"}"));
        1
    });
    assert_eq!(r, Ok(()));
    let r = maa.set_task_parameters(id, "{\"stage\":\"no\"}".to_string(), |_, _, _| 0);
    assert_eq!(r, Err(MaaError::OperationRejected));
    let r = maa.set_task_parameters(id, "\0".to_string(), |_, _, _| 1);
    assert_eq!(r, Err(MaaError::CNull));
    let tasks = maa.tasks(SENTINEL, &task_list(vec![2])).unwrap();
    assert_eq!(tasks[&2].params, "{\"stage\":\"CE-6\"}");
    assert_eq!(tasks[&2].task_type, "Fight");
}

#[test]
fn listing_prunes_the_tasks_that_the_engine_dropped() {
    let mut maa = session();
    for id in [1, 2, 3, 4] {
        maa.create_task("T".to_string(), format!("{{\"n\":{}}}", id), move |_, _, _| id).unwrap();
    }
    let tasks = maa.tasks(SENTINEL, &task_list(vec![4, 2, 9, 2])).unwrap();
    let mut ids: Vec<i32> = tasks.keys().copied().collect();
    ids.sort();
    assert_eq!(ids, vec![2, 4]);
    assert_eq!(tasks[&2].params, "{\"n\":2}");
    let tasks = maa.tasks(SENTINEL, &task_list(vec![1, 2, 3, 4])).unwrap();
    let mut ids: Vec<i32> = tasks.keys().copied().collect();
    ids.sort();
    assert_eq!(ids, vec![2, 4]);
    assert!(maa.tasks(SENTINEL, &task_list(vec![])).unwrap().is_empty());
    assert_eq!(
        maa.set_task_parameters(TaskId::new(2), "{}".to_string(), |_, _, _| 1),
        Err(MaaError::UnknownTask)
    );
}

#[test]
fn task_list_that_never_fits_is_oversized() {
    let mut maa = session();
    maa.create_task("T".to_string(), "{}".to_string(), |_, _, _| 1).unwrap();
    let calls = Cell::new(0usize);
    let fetch = |_: usize, _: usize| {
        calls.set(calls.get() + 1);
        Reply { reported: SENTINEL, data: Vec::<i32>::new() }
    };
    assert_eq!(maa.tasks(SENTINEL, &fetch).err(), Some(MaaError::OversizedResult));
    assert_eq!(calls.get(), 11);
    assert_eq!(maa.tasks(SENTINEL, &task_list(vec![1])).unwrap().len(), 1);
}

#[test]
fn uuid_is_fetched_once() {
    let mut maa = session();
    let calls = Cell::new(0usize);
    assert_eq!(maa.uuid(SENTINEL, &text("0123-abcd", &calls)), Ok("0123-abcd"));
    assert_eq!(calls.get(), 1);
    assert_eq!(maa.uuid(SENTINEL, &text("other", &calls)), Ok("0123-abcd"));
    assert_eq!(calls.get(), 1);
}

#[test]
fn uuid_that_is_no_text_is_an_encoding_error() {
    let mut maa = session();
    let broken = |_: usize, capacity: usize| Reply { reported: 2, data: vec![0xff; capacity] };
    assert_eq!(maa.uuid(SENTINEL, &broken), Err(MaaError::EncodingError));
    let calls = Cell::new(0usize);
    assert_eq!(maa.uuid(SENTINEL, &text("late", &calls)), Ok("late"));
}

#[test]
fn uuid_that_never_fits_is_oversized() {
    let mut maa = session();
    let largest = Cell::new(0usize);
    let fetch = |_: usize, capacity: usize| {
        largest.set(largest.get().max(capacity));
        Reply { reported: SENTINEL, data: Vec::<u8>::new() }
    };
    assert_eq!(maa.uuid(SENTINEL, &fetch), Err(MaaError::OversizedResult));
    assert_eq!(largest.get(), 1024 * 1024);
}

#[test]
fn screenshot_is_cut_to_the_reported_size() {
    let maa = session();
    let offered = Cell::new(0usize);
    let fetch = |handle: usize, capacity: usize| {
        assert_eq!(handle, 0x1000);
        offered.set(capacity);
        Reply { reported: 5, data: vec![1, 2, 3, 4, 5, 6, 7, 8] }
    };
    assert_eq!(maa.screenshot(SENTINEL, &fetch), Ok(vec![1, 2, 3, 4, 5]));
    assert_eq!(offered.get(), 2 * 1920 * 1080 * 4);
}

#[test]
fn screenshot_that_never_fits_is_oversized() {
    let maa = session();
    let calls = Cell::new(0usize);
    let fetch = |_: usize, _: usize| {
        calls.set(calls.get() + 1);
        Reply { reported: SENTINEL, data: Vec::<u8>::new() }
    };
    assert_eq!(maa.screenshot(SENTINEL, &fetch), Err(MaaError::OversizedResult));
    assert_eq!(calls.get(), 3);
}

#[test]
fn start_and_stop_follow_the_status() {
    let maa = session();
    assert_eq!(maa.start(|handle| if handle == 0x1000 { 1 } else { 0 }), Ok(()));
    assert_eq!(maa.start(|_| 0), Err(MaaError::OperationRejected));
    assert_eq!(maa.stop(|_| 1), Ok(()));
    assert_eq!(maa.stop(|_| 2), Err(MaaError::OperationRejected));
    assert!(maa.running(|_| 1));
    assert!(!maa.running(|_| 0));
    assert_eq!(is_success(1), Ok(()));
    assert_eq!(is_success(0), Err(MaaError::OperationRejected));
    assert_eq!(is_success(255), Err(MaaError::OperationRejected));
}

#[test]
fn asynchronous_calls_hand_their_id_back() {
    let mut maa = session();
    let id = maa.click_async(3, 4, true, |handle, x, y, block| {
        assert_eq!((handle, x, y, block), (0x1000, 3, 4, true));
        12
    });
    assert_eq!(id, Ok(AsyncCallId::new(12)));
    assert_eq!(maa.take_screenshot_async(false, |_, block| if block { 1 } else { 13 }), Ok(AsyncCallId::new(13)));
}

#[test]
fn option_is_set_through_the_engine() {
    let mut maa = session();
    let r = maa.set_option(OptionKey::new(2), "maatouch".to_string(), |handle, key, value| {
        assert_eq!((handle, key, value.as_str()), (0x1000, 2, "maatouch"));
        1
    });
    assert_eq!(r, Ok(()));
    assert_eq!(maa.set_option(OptionKey::new(2), "x".to_string(), |_, _, _| 0), Err(MaaError::OperationRejected));
    assert_eq!(maa.set_option(OptionKey::new(2), "\0".to_string(), |_, _, _| 1), Err(MaaError::CNull));
}

#[test]
fn teardown_releases_the_handle_before_the_callback() {
    let mut maa = session();
    assert_eq!(
        maa.release(),
        vec![Teardown::DestroyHandle(0x1000), Teardown::ReclaimCallback(0x2000)]
    );
    assert_eq!(maa.release(), vec![]);
    let mut plain = Maa::new(9, None).unwrap();
    assert_eq!(plain.release(), vec![Teardown::DestroyHandle(9)]);
    assert_eq!(plain.release(), vec![]);
    let mut never_made = Maa::from_raw(0, Some(0x3000));
    assert_eq!(never_made.release(), vec![Teardown::ReclaimCallback(0x3000)]);
    assert_eq!(never_made.release(), vec![]);
}

#[test]
fn teardown_keeps_what_the_session_remembers() {
    let mut maa = session();
    maa.connect_async("adb".to_string(), "10.0.0.1:1".to_string(), None, true, |_, _, _, _, _| 1).unwrap();
    maa.release();
    assert_eq!(maa.target(), Some("10.0.0.1:1".to_string()));
}

#[test]
fn callback_payload_is_decoded() {
    let (kind, text) = decode_callback(10001, b"{\"uuid\":\"x\"}".to_vec()).unwrap();
    assert_eq!(kind, MessageType::new(10001));
    assert_eq!(text, "{\"uuid\":\"x\"}");
    assert_eq!(decode_callback(1, vec![0xff, 0x00]), Err(MaaError::EncodingError));
    assert_eq!(decode_callback(1, Vec::new()), Ok((MessageType::new(1), String::new())));
}

#[test]
fn log_levels_have_their_names() {
    assert_eq!(LogLevel::Trace.name(), "TRC");
    assert_eq!(LogLevel::Debug.name(), "DBG");
    assert_eq!(LogLevel::Info.name(), "INF");
    assert_eq!(LogLevel::Warn.name(), "WRN");
    assert_eq!(LogLevel::Error.name(), "ERR");
}

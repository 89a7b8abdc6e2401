//! The managed side of the engine's calling surface: the identifiers it
//! hands out, the errors of a session, and the state of one session.
//!
//! The engine itself is reached through calls that this crate cannot
//! make. Each operation of a session therefore takes the foreign call as
//! a function: the session decides whether the call may be made, fixes
//! what is handed to it, and keeps its own state in step with what came
//! back.

use std::collections::HashMap;
use vstd::prelude::*;
use vstd::std_specs::hash::*;
use vstd::utf8::{valid_utf8, decode_utf8};
use crate::buffer::{
    BufferKind, Reply, Negotiated, negotiate, brought, gave_up, initial_capacity,
    capacity_ceiling,
};
use crate::text::{contains_nul, has_nul, string_from_utf8};
use crate::types::task::TaskId;

verus! {

broadcast use group_hash_axioms;

/// The id of a call that the engine completes asynchronously.
#[derive(Debug, PartialEq, Eq, Structural, Clone, Copy)]
pub struct AsyncCallId(pub i32);

impl AsyncCallId {
    /// Creates a new [`AsyncCallId`].
    pub fn new(id: i32) -> (r: Self)
        ensures
            r.0 == id,
    {
        Self(id)
    }
}

/// The key that identifies an option of the engine.
#[derive(Debug, PartialEq, Eq, Structural, PartialOrd, Ord, Clone, Copy, Hash)]
pub struct OptionKey(pub i32);

impl OptionKey {
    /// Creates a new [`OptionKey`].
    pub fn new(id: i32) -> (r: Self)
        ensures
            r.0 == id,
    {
        Self(id)
    }
}

/// The kind of a message that the engine emits.
#[derive(Debug, PartialEq, Eq, Structural, PartialOrd, Ord, Clone, Copy, Hash)]
pub struct MessageType(pub i32);

impl MessageType {
    /// Creates a new [`MessageType`].
    pub fn new(id: i32) -> (r: Self)
        ensures
            r.0 == id,
    {
        Self(id)
    }

    /// The four big-endian bytes of the kind tag.
    pub fn to_be_bytes(&self) -> (bytes: Vec<u8>)
        ensures
            bytes@ == crate::bytes::i32_be(self.0),
    {
        let mut bytes: Vec<u8> = Vec::new();
        crate::bytes::push_u32_be(&mut bytes, crate::bytes::i32_to_bits(self.0));
        assert(bytes@ =~= crate::bytes::i32_be(self.0));
        bytes
    }
}

/// What can go wrong in a session.
#[derive(Debug, PartialEq, Eq, Structural, Clone, Copy)]
pub enum MaaError {
    /// The session has no handle: it was released, or the engine never
    /// made one.
    InvalidHandle,
    /// A result of unknown length did not fit under the ceiling for its
    /// kind.
    OversizedResult,
    /// The engine answered an operation with a status other than success.
    OperationRejected,
    /// The task is not among those that the session has created.
    UnknownTask,
    /// Text that the engine handed over is not UTF-8.
    EncodingError,
    /// Text that is to be handed to the engine holds the character NUL.
    CNull,
}

/// The status with which the engine reports success.
pub const SUCCESS: u8 = 1;

/// Tells success from failure in a status of the engine.
pub fn is_success(code: u8) -> (r: Result<(), MaaError>)
    ensures
        r == if code == 1 {
            Ok::<(), MaaError>(())
        } else {
            Err::<(), MaaError>(MaaError::OperationRejected)
        },
{
    if code == SUCCESS {
        Ok(())
    } else {
        Err(MaaError::OperationRejected)
    }
}

/// Checks that a text can be handed to the engine.
pub fn check_text(text: &str) -> (r: Result<(), MaaError>)
    ensures
        r == if has_nul(text@) {
            Err::<(), MaaError>(MaaError::CNull)
        } else {
            Ok::<(), MaaError>(())
        },
{
    if contains_nul(text) {
        Err(MaaError::CNull)
    } else {
        Ok(())
    }
}

/// `r` is the result of handing `text` to the engine through `call`, which
/// answers with a status: a text that cannot be handed over is refused;
/// otherwise `call` was called with the text, and the result is success
/// exactly where the status was.
pub open spec fn text_result<F: FnOnce(String) -> u8>(
    text: String,
    call: F,
    r: Result<(), MaaError>,
) -> bool {
    match r {
        Ok(()) => !has_nul(text@) && call.ensures((text,), 1u8),
        Err(e) => if has_nul(text@) {
            e == MaaError::CNull
        } else {
            &&& e == MaaError::OperationRejected
            &&& exists|status: u8| #[trigger] call.ensures((text,), status) && status != 1
        },
    }
}

/// Has the engine load its resources from the directory `path`.
pub fn load_resource<F: FnOnce(String) -> u8>(path: String, load: F) -> (r: Result<(), MaaError>)
    requires
        forall|text: String| load.requires((text,)),
    ensures
        text_result(path, load, r),
{
    if contains_nul(path.as_str()) {
        return Err(MaaError::CNull);
    }
    is_success(load(path))
}

/// Sets the directory in which the engine keeps its logs and caches.
pub fn set_working_directory<F: FnOnce(String) -> u8>(path: String, set: F) -> (r: Result<
    (),
    MaaError,
>)
    requires
        forall|text: String| set.requires((text,)),
    ensures
        text_result(path, set, r),
{
    if contains_nul(path.as_str()) {
        return Err(MaaError::CNull);
    }
    is_success(set(path))
}

/// Sets an option that holds for the whole process.
pub fn set_static_option<F: FnOnce(i32, String) -> u8>(option: OptionKey, value: String, set: F) -> (r:
    Result<(), MaaError>)
    requires
        forall|key: i32, text: String| set.requires((key, text)),
    ensures
        match r {
            Ok(()) => !has_nul(value@) && set.ensures((option.0, value), 1u8),
            Err(e) => if has_nul(value@) {
                e == MaaError::CNull
            } else {
                &&& e == MaaError::OperationRejected
                &&& exists|status: u8| #[trigger]
                    set.ensures((option.0, value), status) && status != 1
            },
        },
{
    if contains_nul(value.as_str()) {
        return Err(MaaError::CNull);
    }
    is_success(set(option.0, value))
}

/// Writes a message to the engine's log.
pub fn log<F: FnOnce(&'static str, String)>(level: LogLevel, message: String, write: F) -> (r: Result<
    (),
    MaaError,
>)
    requires
        forall|name: &'static str, text: String| write.requires((name, text)),
    ensures
        match r {
            Ok(()) => !has_nul(message@) && exists|name: &'static str|
                name@ == log_level_name(level) && #[trigger] write.ensures((name, message), ()),
            Err(e) => has_nul(message@) && e == MaaError::CNull,
        },
{
    if contains_nul(message.as_str()) {
        return Err(MaaError::CNull);
    }
    write(level.name(), message);
    Ok(())
}

/// Reads the version that the engine reports: nothing reported means
/// that the engine is not there, and bytes that are not UTF-8 are an
/// error.
pub fn get_version(reported: Option<Vec<u8>>) -> (r: Result<String, MaaError>)
    ensures
        match reported {
            None => r == Err::<String, MaaError>(MaaError::InvalidHandle),
            Some(bytes) => match r {
                Ok(text) => valid_utf8(bytes@) && text@ == decode_utf8(bytes@),
                Err(e) => !valid_utf8(bytes@) && e == MaaError::EncodingError,
            },
        },
{
    match reported {
        None => Err(MaaError::InvalidHandle),
        Some(bytes) => match string_from_utf8(bytes) {
            Ok(text) => Ok(text),
            Err(_) => Err(MaaError::EncodingError),
        },
    }
}

/// Reads what the engine hands to its callback: the kind of the message
/// and its text. Bytes that are not UTF-8 are an error and nothing worse.
pub fn decode_callback(kind: i32, payload: Vec<u8>) -> (r: Result<(MessageType, String), MaaError>)
    ensures
        match r {
            Ok((msg, text)) => valid_utf8(payload@) && msg.0 == kind && text@ == decode_utf8(
                payload@,
            ),
            Err(e) => !valid_utf8(payload@) && e == MaaError::EncodingError,
        },
{
    match string_from_utf8(payload) {
        Ok(text) => Ok((MessageType::new(kind), text)),
        Err(_) => Err(MaaError::EncodingError),
    }
}

/// The levels at which the engine logs.
#[derive(Debug, PartialEq, Eq, Structural, PartialOrd, Ord, Clone, Copy)]
pub enum LogLevel {
    Trace,
    Debug,
    Info,
    Warn,
    Error,
}

/// The name under which the engine knows a log level.
pub open spec fn log_level_name(level: LogLevel) -> Seq<char> {
    match level {
        LogLevel::Trace => "TRC"@,
        LogLevel::Debug => "DBG"@,
        LogLevel::Info => "INF"@,
        LogLevel::Warn => "WRN"@,
        LogLevel::Error => "ERR"@,
    }
}

impl LogLevel {
    /// The name under which the engine knows the level.
    pub fn name(&self) -> (name: &'static str)
        ensures
            name@ == log_level_name(*self),
    {
        match self {
            LogLevel::Trace => "TRC",
            LogLevel::Debug => "DBG",
            LogLevel::Info => "INF",
            LogLevel::Warn => "WRN",
            LogLevel::Error => "ERR",
        }
    }
}

/// A task as the session remembers it.
#[derive(Debug, Clone)]
pub struct Task {
    /// The id that the engine gave to the task.
    pub id: TaskId,
    /// The type of the task.
    pub task_type: String,
    /// The parameters that were set last, as JSON text.
    pub params: String,
}

/// One step of taking a session apart.
#[derive(Debug, PartialEq, Eq, Structural, Clone, Copy)]
pub enum Teardown {
    /// Have the engine release this handle.
    DestroyHandle(usize),
    /// Reclaim the callback context at this address.
    ReclaimCallback(usize),
}

/// One session: the handle of one instance of the engine, and what the
/// session remembers of it.
///
/// The handle and the callback context are addresses that only the
/// caller can follow; the session keeps them as numbers, zero for a
/// handle that is not there.
pub struct Maa {
    handle: usize,
    callback: Option<usize>,
    uuid: Option<String>,
    target: Option<String>,
    tasks: HashMap<i32, Task>,
}

/// A session as a value: what [`Maa`] stands for in contracts.
pub struct MaaView {
    /// The handle; zero once it is released.
    pub handle: usize,
    /// The address of the callback context, while it is not reclaimed.
    pub callback: Option<usize>,
    /// The device's identifier, once it was fetched.
    pub uuid: Option<Seq<char>>,
    /// The address that was connected to last.
    pub target: Option<Seq<char>>,
    /// The tasks that the session knows, by id.
    pub tasks: Map<i32, Task>,
}

impl View for Maa {
    type V = MaaView;

    closed spec fn view(&self) -> MaaView {
        MaaView {
            handle: self.handle,
            callback: self.callback,
            uuid: match self.uuid {
                Some(text) => Some(text@),
                None => None,
            },
            target: match self.target {
                Some(text) => Some(text@),
                None => None,
            },
            tasks: self.tasks@,
        }
    }
}

impl Maa {
    /// Makes the session for a handle that the engine has created, with
    /// the address of the callback context that was registered with it.
    /// A handle of zero means that the engine made none.
    pub fn new(handle: usize, callback: Option<usize>) -> (r: Result<Maa, MaaError>)
        ensures
            match r {
                Ok(maa) => handle != 0 && maa@ == (MaaView {
                    handle,
                    callback,
                    uuid: None,
                    target: None,
                    tasks: Map::empty(),
                }),
                Err(e) => handle == 0 && e == MaaError::InvalidHandle,
            },
    {
        if handle == 0 {
            return Err(MaaError::InvalidHandle);
        }
        Ok(Maa { handle, callback, uuid: None, target: None, tasks: HashMap::new() })
    }

    /// Makes the session for whatever the engine handed out. A handle of
    /// zero makes a session that the engine never made: it is there, and
    /// refuses every operation for want of a handle.
    pub fn from_raw(handle: usize, callback: Option<usize>) -> (maa: Maa)
        ensures
            maa@ == (MaaView { handle, callback, uuid: None, target: None, tasks: Map::empty() }),
    {
        Maa { handle, callback, uuid: None, target: None, tasks: HashMap::new() }
    }

    /// The handle to hand to the engine, while the session has one.
    pub fn handle(&self) -> (r: Result<usize, MaaError>)
        ensures
            r == if self@.handle == 0 {
                Err::<usize, MaaError>(MaaError::InvalidHandle)
            } else {
                Ok::<usize, MaaError>(self@.handle)
            },
    {
        if self.handle == 0 {
            Err(MaaError::InvalidHandle)
        } else {
            Ok(self.handle)
        }
    }

    /// The address that was connected to last.
    pub fn target(&self) -> (target: Option<String>)
        ensures
            target matches Some(text) ==> self@.target == Some(text@),
            target is None ==> self@.target is None,
    {
        match &self.target {
            Some(text) => Some(text.clone()),
            None => None,
        }
    }

    /// Takes the session apart: returns what is to be done, in the order
    /// in which it is to be done, and forgets the handle and the callback
    /// context.
    ///
    /// The handle is released first, so that the engine calls back no
    /// more; only then is the callback context reclaimed. A session that
    /// was taken apart has nothing left to be done: nothing is released
    /// twice.
    pub fn release(&mut self) -> (steps: Vec<Teardown>)
        ensures
            final(self)@ == (MaaView { handle: 0, callback: None, ..old(self)@ }),
            steps@ == teardown_of(old(self)@),
    {
        let mut steps: Vec<Teardown> = Vec::new();
        if self.handle != 0 {
            steps.push(Teardown::DestroyHandle(self.handle));
        }
        match self.callback {
            Some(context) => {
                steps.push(Teardown::ReclaimCallback(context));
            },
            None => {},
        }
        self.handle = 0;
        self.callback = None;
        assert(steps@ =~= teardown_of(old(self)@));
        steps
    }
}

impl Maa {
    /// Connects to the device at `address` through the tool at
    /// `adb_path`, and remembers the address as the session's target.
    ///
    /// Without a handle nothing is called; nor is it where one of the
    /// texts cannot be handed over. Otherwise `connect` is called once,
    /// with the session's handle and the arguments as they were given,
    /// and what it returns is the id of the call. Connecting again
    /// replaces the target.
    pub fn connect_async<F: FnOnce(usize, String, String, Option<String>, bool) -> i32>(
        &mut self,
        adb_path: String,
        address: String,
        config: Option<String>,
        block: bool,
        connect: F,
    ) -> (r: Result<AsyncCallId, MaaError>)
        requires
            forall|handle: usize, path: String, to: String, with: Option<String>, wait: bool|
                handle != 0 ==> connect.requires((handle, path, to, with, wait)),
        ensures
            match r {
                Ok(id) => {
                    &&& refusal(old(self)@, connect_has_nul(adb_path@, address@, config)) is None
                    &&& connect.ensures((old(self)@.handle, adb_path, address, config, block), id.0)
                    &&& final(self)@ == (MaaView { target: Some(address@), ..old(self)@ })
                },
                Err(e) => {
                    &&& final(self)@ == old(self)@
                    &&& refusal(old(self)@, connect_has_nul(adb_path@, address@, config)) == Some(e)
                },
            },
    {
        if self.handle == 0 {
            return Err(MaaError::InvalidHandle);
        }
        if contains_nul(adb_path.as_str()) || contains_nul(address.as_str()) {
            return Err(MaaError::CNull);
        }
        match &config {
            Some(text) => {
                if contains_nul(text.as_str()) {
                    return Err(MaaError::CNull);
                }
            },
            None => {},
        }
        let id = connect(self.handle, adb_path, address.clone(), config, block);
        self.target = Some(address);
        Ok(AsyncCallId(id))
    }

    /// Connects to the device at `address` and waits for the outcome.
    ///
    /// As [`Maa::connect_async`], but the engine answers with a status:
    /// the address becomes the session's target only where the status is
    /// success.
    pub fn connect<F: FnOnce(usize, String, String, Option<String>) -> u8>(
        &mut self,
        adb_path: String,
        address: String,
        config: Option<String>,
        connect: F,
    ) -> (r: Result<(), MaaError>)
        requires
            forall|handle: usize, path: String, to: String, with: Option<String>|
                handle != 0 ==> connect.requires((handle, path, to, with)),
        ensures
            match r {
                Ok(()) => {
                    &&& refusal(old(self)@, connect_has_nul(adb_path@, address@, config)) is None
                    &&& connect.ensures((old(self)@.handle, adb_path, address, config), 1u8)
                    &&& final(self)@ == (MaaView { target: Some(address@), ..old(self)@ })
                },
                Err(e) => {
                    &&& final(self)@ == old(self)@
                    &&& match refusal(old(self)@, connect_has_nul(adb_path@, address@, config)) {
                        Some(why) => e == why,
                        None => {
                            &&& e == MaaError::OperationRejected
                            &&& exists|status: u8| #[trigger]
                                connect.ensures(
                                    (old(self)@.handle, adb_path, address, config),
                                    status,
                                ) && status != 1
                        },
                    }
                },
            },
    {
        if self.handle == 0 {
            return Err(MaaError::InvalidHandle);
        }
        if contains_nul(adb_path.as_str()) || contains_nul(address.as_str()) {
            return Err(MaaError::CNull);
        }
        match &config {
            Some(text) => {
                if contains_nul(text.as_str()) {
                    return Err(MaaError::CNull);
                }
            },
            None => {},
        }
        let status = connect(self.handle, adb_path, address.clone(), config);
        if status != SUCCESS {
            return Err(MaaError::OperationRejected);
        }
        self.target = Some(address);
        Ok(())
    }

    /// Creates a task of the type `task_type` with the parameters
    /// `params`, which are JSON text, and remembers it under the id that
    /// the engine gives to it.
    pub fn create_task<F: FnOnce(usize, String, String) -> i32>(
        &mut self,
        task_type: String,
        params: String,
        append: F,
    ) -> (r: Result<TaskId, MaaError>)
        requires
            forall|handle: usize, kind: String, with: String|
                handle != 0 ==> append.requires((handle, kind, with)),
        ensures
            match r {
                Ok(id) => {
                    &&& refusal(old(self)@, has_nul(task_type@) || has_nul(params@)) is None
                    &&& append.ensures((old(self)@.handle, task_type, params), id.0)
                    &&& final(self)@ == (MaaView {
                        tasks: old(self)@.tasks.insert(id.0, Task { id, task_type, params }),
                        ..old(self)@
                    })
                },
                Err(e) => {
                    &&& final(self)@ == old(self)@
                    &&& refusal(old(self)@, has_nul(task_type@) || has_nul(params@)) == Some(e)
                },
            },
    {
        if self.handle == 0 {
            return Err(MaaError::InvalidHandle);
        }
        if contains_nul(task_type.as_str()) || contains_nul(params.as_str()) {
            return Err(MaaError::CNull);
        }
        let id = append(self.handle, task_type.clone(), params.clone());
        self.tasks.insert(id, Task { id: TaskId(id), task_type, params });
        Ok(TaskId(id))
    }

    /// Sets the parameters of a task that the session has created, and
    /// remembers them where the engine accepts them.
    ///
    /// A task that the session does not know is refused before anything
    /// is called.
    pub fn set_task_parameters<F: FnOnce(usize, i32, String) -> u8>(
        &mut self,
        id: TaskId,
        params: String,
        set: F,
    ) -> (r: Result<(), MaaError>)
        requires
            forall|handle: usize, task: i32, with: String|
                handle != 0 ==> set.requires((handle, task, with)),
        ensures
            match r {
                Ok(()) => {
                    &&& old(self)@.handle != 0
                    &&& !has_nul(params@)
                    &&& set.ensures((old(self)@.handle, id.0, params), 1u8)
                    &&& old(self)@.tasks.contains_key(id.0)
                    &&& final(self)@ == (MaaView {
                        tasks: old(self)@.tasks.insert(
                            id.0,
                            Task { id, task_type: old(self)@.tasks[id.0].task_type, params },
                        ),
                        ..old(self)@
                    })
                },
                Err(e) => {
                    &&& final(self)@ == old(self)@
                    &&& if old(self)@.handle == 0 {
                        e == MaaError::InvalidHandle
                    } else if !old(self)@.tasks.contains_key(id.0) {
                        e == MaaError::UnknownTask
                    } else if has_nul(params@) {
                        e == MaaError::CNull
                    } else {
                        &&& e == MaaError::OperationRejected
                        &&& exists|status: u8| #[trigger]
                            set.ensures((old(self)@.handle, id.0, params), status) && status != 1
                    }
                },
            },
    {
        if self.handle == 0 {
            return Err(MaaError::InvalidHandle);
        }
        let known = match self.tasks.remove(&id.0) {
            Some(task) => task,
            None => {
                assert(self.tasks@ =~= old(self).tasks@);
                return Err(MaaError::UnknownTask);
            },
        };
        if contains_nul(params.as_str()) {
            self.tasks.insert(id.0, known);
            assert(self.tasks@ =~= old(self).tasks@);
            return Err(MaaError::CNull);
        }
        let status = set(self.handle, id.0, params.clone());
        if status != SUCCESS {
            self.tasks.insert(id.0, known);
            assert(self.tasks@ =~= old(self).tasks@);
            return Err(MaaError::OperationRejected);
        }
        self.tasks.insert(id.0, Task { id, task_type: known.task_type, params });
        assert(self.tasks@ =~= old(self).tasks@.insert(
            id.0,
            Task { id, task_type: old(self)@.tasks[id.0].task_type, params },
        ));
        Ok(())
    }

    /// Starts the tasks of the session.
    pub fn start<F: FnOnce(usize) -> u8>(&self, start: F) -> (r: Result<(), MaaError>)
        requires
            forall|handle: usize| handle != 0 ==> start.requires((handle,)),
        ensures
            status_result(self@, start, r),
    {
        if self.handle == 0 {
            return Err(MaaError::InvalidHandle);
        }
        is_success(start(self.handle))
    }

    /// Stops the task that runs and all that follow.
    pub fn stop<F: FnOnce(usize) -> u8>(&self, stop: F) -> (r: Result<(), MaaError>)
        requires
            forall|handle: usize| handle != 0 ==> stop.requires((handle,)),
        ensures
            status_result(self@, stop, r),
    {
        if self.handle == 0 {
            return Err(MaaError::InvalidHandle);
        }
        is_success(stop(self.handle))
    }

    /// Whether the engine is at work on the session's tasks. A session
    /// without a handle is not, and nothing is called for it.
    pub fn running<F: FnOnce(usize) -> u8>(&self, running: F) -> (at_work: bool)
        requires
            forall|handle: usize| handle != 0 ==> running.requires((handle,)),
        ensures
            at_work ==> self@.handle != 0 && running.ensures((self@.handle,), 1u8),
            !at_work && self@.handle != 0 ==> exists|status: u8| #[trigger]
                running.ensures((self@.handle,), status) && status != 1,
    {
        if self.handle == 0 {
            return false;
        }
        running(self.handle) == SUCCESS
    }

    /// Sets an option of the session.
    pub fn set_option<F: FnOnce(usize, i32, String) -> u8>(
        &mut self,
        option: OptionKey,
        value: String,
        set: F,
    ) -> (r: Result<(), MaaError>)
        requires
            forall|handle: usize, key: i32, to: String|
                handle != 0 ==> set.requires((handle, key, to)),
        ensures
            final(self)@ == old(self)@,
            match r {
                Ok(()) => {
                    &&& refusal(old(self)@, has_nul(value@)) is None
                    &&& set.ensures((old(self)@.handle, option.0, value), 1u8)
                },
                Err(e) => match refusal(old(self)@, has_nul(value@)) {
                    Some(why) => e == why,
                    None => {
                        &&& e == MaaError::OperationRejected
                        &&& exists|status: u8| #[trigger]
                            set.ensures((old(self)@.handle, option.0, value), status) && status
                                != 1
                    },
                },
            },
    {
        if self.handle == 0 {
            return Err(MaaError::InvalidHandle);
        }
        if contains_nul(value.as_str()) {
            return Err(MaaError::CNull);
        }
        is_success(set(self.handle, option.0, value))
    }

    /// Clicks on the screen at the given coordinates.
    pub fn click_async<F: FnOnce(usize, i32, i32, bool) -> i32>(
        &self,
        x: i32,
        y: i32,
        block: bool,
        click: F,
    ) -> (r: Result<AsyncCallId, MaaError>)
        requires
            forall|handle: usize, at_x: i32, at_y: i32, wait: bool|
                handle != 0 ==> click.requires((handle, at_x, at_y, wait)),
        ensures
            match r {
                Ok(id) => self@.handle != 0 && click.ensures((self@.handle, x, y, block), id.0),
                Err(e) => self@.handle == 0 && e == MaaError::InvalidHandle,
            },
    {
        if self.handle == 0 {
            return Err(MaaError::InvalidHandle);
        }
        Ok(AsyncCallId(click(self.handle, x, y, block)))
    }

    /// Has the engine capture the screen.
    pub fn take_screenshot_async<F: FnOnce(usize, bool) -> i32>(&mut self, block: bool, capture: F) -> (r:
        Result<AsyncCallId, MaaError>)
        requires
            forall|handle: usize, wait: bool| handle != 0 ==> capture.requires((handle, wait)),
        ensures
            final(self)@ == old(self)@,
            match r {
                Ok(id) => old(self)@.handle != 0 && capture.ensures(
                    (old(self)@.handle, block),
                    id.0,
                ),
                Err(e) => old(self)@.handle == 0 && e == MaaError::InvalidHandle,
            },
    {
        if self.handle == 0 {
            return Err(MaaError::InvalidHandle);
        }
        Ok(AsyncCallId(capture(self.handle, block)))
    }
}

impl Maa {
    /// Captures one frame of the device's screen.
    ///
    /// The frame comes through a buffer that is negotiated with `fetch`,
    /// from the capacity for a frame up to the ceiling for one, and is
    /// exactly as long as the engine reported.
    pub fn screenshot<F: Fn(usize, usize) -> Reply<u8>>(&self, sentinel: u64, fetch: &F) -> (r:
        Result<Vec<u8>, MaaError>)
        requires
            forall|handle: usize, capacity: usize|
                handle != 0 && capacity != 0 ==> fetch.requires((handle, capacity)),
        ensures
            match r {
                Ok(frame) => self@.handle != 0 && exists|found: Negotiated<u8>|
                    {
                        &&& #[trigger] negotiated(
                            *fetch,
                            self@.handle,
                            BufferKind::Image,
                            sentinel,
                            0u8,
                            found,
                        )
                        &&& found.data == frame
                    },
                Err(e) => if self@.handle == 0 {
                    e == MaaError::InvalidHandle
                } else {
                    &&& e == MaaError::OversizedResult
                    &&& exists|retries: usize| #[trigger]
                        abandoned(*fetch, self@.handle, BufferKind::Image, sentinel, retries)
                },
            },
    {
        if self.handle == 0 {
            return Err(MaaError::InvalidHandle);
        }
        let kind = BufferKind::Image;
        match negotiate(fetch, self.handle, kind.initial(), kind.ceiling(), sentinel, 0u8) {
            Ok(found) => {
                assert(negotiated(*fetch, self@.handle, BufferKind::Image, sentinel, 0u8, found));
                Ok(found.data)
            },
            Err(e) => {
                assert(abandoned(*fetch, self@.handle, BufferKind::Image, sentinel, e.retries));
                Err(MaaError::OversizedResult)
            },
        }
    }

    /// The identifier of the device that the session is connected to.
    ///
    /// It is fetched once, through a buffer that is negotiated with
    /// `fetch`, and kept for as long as the session lives; later calls
    /// return what was kept and call nothing. An identifier that is not
    /// UTF-8 is an error and is not kept.
    pub fn uuid<F: Fn(usize, usize) -> Reply<u8>>(&mut self, sentinel: u64, fetch: &F) -> (r:
        Result<&str, MaaError>)
        requires
            forall|handle: usize, capacity: usize|
                handle != 0 && capacity != 0 ==> fetch.requires((handle, capacity)),
        ensures
            match r {
                Ok(text) => {
                    &&& old(self)@.handle != 0
                    &&& final(self)@ == (MaaView { uuid: Some(text@), ..old(self)@ })
                    &&& old(self)@.uuid is Some ==> final(self)@ == old(self)@
                    &&& old(self)@.uuid is None ==> exists|found: Negotiated<u8>|
                        {
                            &&& #[trigger] negotiated(
                                *fetch,
                                old(self)@.handle,
                                BufferKind::Uuid,
                                sentinel,
                                0u8,
                                found,
                            )
                            &&& valid_utf8(found.data@)
                            &&& text@ == decode_utf8(found.data@)
                        }
                },
                Err(e) => {
                    &&& final(self)@ == old(self)@
                    &&& if old(self)@.handle == 0 {
                        e == MaaError::InvalidHandle
                    } else {
                        &&& old(self)@.uuid is None
                        &&& match e {
                            MaaError::OversizedResult => exists|retries: usize| #[trigger]
                                abandoned(
                                    *fetch,
                                    old(self)@.handle,
                                    BufferKind::Uuid,
                                    sentinel,
                                    retries,
                                ),
                            MaaError::EncodingError => exists|found: Negotiated<u8>|
                                {
                                    &&& #[trigger] negotiated(
                                        *fetch,
                                        old(self)@.handle,
                                        BufferKind::Uuid,
                                        sentinel,
                                        0u8,
                                        found,
                                    )
                                    &&& !valid_utf8(found.data@)
                                },
                            _ => false,
                        }
                    }
                },
            },
    {
        if self.handle == 0 {
            return Err(MaaError::InvalidHandle);
        }
        if self.uuid.is_some() {
            return Ok(self.cached_uuid());
        }
        let kind = BufferKind::Uuid;
        let found = match negotiate(
            fetch,
            self.handle,
            kind.initial(),
            kind.ceiling(),
            sentinel,
            0u8,
        ) {
            Ok(found) => found,
            Err(e) => {
                assert(abandoned(*fetch, self@.handle, BufferKind::Uuid, sentinel, e.retries));
                return Err(MaaError::OversizedResult);
            },
        };
        assert(negotiated(*fetch, self@.handle, BufferKind::Uuid, sentinel, 0u8, found));
        let ghost bytes = found.data@;
        match string_from_utf8(found.data) {
            Ok(text) => {
                self.uuid = Some(text);
                Ok(self.cached_uuid())
            },
            Err(_) => Err(MaaError::EncodingError),
        }
    }

    fn cached_uuid(&self) -> (text: &str)
        requires
            self.uuid is Some,
        ensures
            self@.uuid == Some(text@),
    {
        match &self.uuid {
            Some(text) => text.as_str(),
            None => "",
        }
    }

    /// The tasks that the session knows and the engine still has.
    ///
    /// The ids of the engine's tasks come through a buffer that is
    /// negotiated with `fetch`. The session then forgets every task that
    /// is not among them: the engine drops tasks behind the session's
    /// back, and this is where the two are brought in line.
    pub fn tasks<F: Fn(usize, usize) -> Reply<i32>>(&mut self, sentinel: u64, fetch: &F) -> (r:
        Result<&HashMap<i32, Task>, MaaError>)
        requires
            forall|handle: usize, capacity: usize|
                handle != 0 && capacity != 0 ==> fetch.requires((handle, capacity)),
        ensures
            match r {
                Ok(tasks) => {
                    &&& old(self)@.handle != 0
                    &&& tasks@ == final(self)@.tasks
                    &&& exists|found: Negotiated<i32>|
                        {
                            &&& #[trigger] negotiated(
                                *fetch,
                                old(self)@.handle,
                                BufferKind::TaskList,
                                sentinel,
                                0i32,
                                found,
                            )
                            &&& final(self)@ == (MaaView {
                                tasks: old(self)@.tasks.restrict(found.data@.to_set()),
                                ..old(self)@
                            })
                        }
                },
                Err(e) => {
                    &&& final(self)@ == old(self)@
                    &&& if old(self)@.handle == 0 {
                        e == MaaError::InvalidHandle
                    } else {
                        &&& e == MaaError::OversizedResult
                        &&& exists|retries: usize| #[trigger]
                            abandoned(
                                *fetch,
                                old(self)@.handle,
                                BufferKind::TaskList,
                                sentinel,
                                retries,
                            )
                    }
                },
            },
    {
        if self.handle == 0 {
            return Err(MaaError::InvalidHandle);
        }
        let kind = BufferKind::TaskList;
        let found = match negotiate(
            fetch,
            self.handle,
            kind.initial(),
            kind.ceiling(),
            sentinel,
            0i32,
        ) {
            Ok(found) => found,
            Err(e) => {
                assert(abandoned(
                    *fetch,
                    self@.handle,
                    BufferKind::TaskList,
                    sentinel,
                    e.retries,
                ));
                return Err(MaaError::OversizedResult);
            },
        };
        assert(negotiated(*fetch, self@.handle, BufferKind::TaskList, sentinel, 0i32, found));
        let mut kept: HashMap<i32, Task> = HashMap::new();
        let mut i: usize = 0;
        while i < found.data.len()
            invariant
                i <= found.data@.len(),
                kept@ == old(self)@.tasks.restrict(found.data@.take(i as int).to_set()),
                self.tasks@ == old(self)@.tasks.remove_keys(found.data@.take(i as int).to_set()),
                self.handle == old(self).handle,
                self.callback == old(self).callback,
                self.uuid == old(self).uuid,
                self.target == old(self).target,
            decreases found.data@.len() - i,
        {
            let id = found.data[i];
            let ghost front = found.data@.take(i as int);
            let ghost upto = found.data@.take(i + 1);
            let ghost seen = front.to_set();
            let ghost next = upto.to_set();
            proof {
                assert(upto =~= front.push(id));
                assert forall|x: i32| next.contains(x) <==> seen.insert(id).contains(x) by {
                    if next.contains(x) {
                        let j = choose|j: int| 0 <= j < upto.len() && upto[j] == x;
                        if j < i {
                            assert(front[j] == x);
                        }
                    }
                    if seen.contains(x) {
                        let j = choose|j: int| 0 <= j < front.len() && front[j] == x;
                        assert(upto[j] == x);
                    }
                    if x == id {
                        assert(upto[i as int] == x);
                    }
                }
                assert(next =~= seen.insert(id));
            }
            match self.tasks.remove(&id) {
                Some(task) => {
                    kept.insert(id, task);
                },
                None => {},
            }
            proof {
                assert(kept@ =~= old(self)@.tasks.restrict(next));
                assert(self.tasks@ =~= old(self)@.tasks.remove_keys(next));
            }
            i += 1;
        }
        proof {
            assert(found.data@.take(i as int) =~= found.data@);
        }
        self.tasks = kept;
        Ok(&self.tasks)
    }
}

/// The negotiation of a buffer for data of `kind` with `fetch` can have
/// brought `found`.
pub open spec fn negotiated<T, F: Fn(usize, usize) -> Reply<T>>(
    fetch: F,
    handle: usize,
    kind: BufferKind,
    sentinel: u64,
    fill: T,
    found: Negotiated<T>,
) -> bool {
    brought(
        fetch,
        handle,
        initial_capacity(kind),
        capacity_ceiling(kind),
        sentinel,
        fill,
        found,
    )
}

/// The negotiation of a buffer for data of `kind` with `fetch` can have
/// failed after `retries` doublings.
pub open spec fn abandoned<T, F: Fn(usize, usize) -> Reply<T>>(
    fetch: F,
    handle: usize,
    kind: BufferKind,
    sentinel: u64,
    retries: usize,
) -> bool {
    gave_up(fetch, handle, initial_capacity(kind), capacity_ceiling(kind), sentinel, retries)
}

/// Why a session in the state `maa` refuses an operation before anything
/// is called, if it does: for want of a handle, or else, where `nul` says
/// that one of the texts to hand over holds the character NUL, for that.
pub open spec fn refusal(maa: MaaView, nul: bool) -> Option<MaaError> {
    if maa.handle == 0 {
        Some(MaaError::InvalidHandle)
    } else if nul {
        Some(MaaError::CNull)
    } else {
        None
    }
}

/// Whether one of the texts that a connection hands over holds the
/// character NUL.
pub open spec fn connect_has_nul(
    adb_path: Seq<char>,
    address: Seq<char>,
    config: Option<String>,
) -> bool {
    has_nul(adb_path) || has_nul(address) || (config matches Some(text) && has_nul(text@))
}

/// `r` is the result of an operation of the session `maa` that the engine
/// answers with a status: without a handle it is refused; otherwise `call`
/// was called with the handle, and the result is success exactly where the
/// status was.
pub open spec fn status_result<F: FnOnce(usize) -> u8>(
    maa: MaaView,
    call: F,
    r: Result<(), MaaError>,
) -> bool {
    match r {
        Ok(()) => maa.handle != 0 && call.ensures((maa.handle,), 1u8),
        Err(e) => if maa.handle == 0 {
            e == MaaError::InvalidHandle
        } else {
            &&& e == MaaError::OperationRejected
            &&& exists|status: u8| #[trigger] call.ensures((maa.handle,), status) && status != 1
        },
    }
}

/// A session is taken apart once, and in order: after it was, nothing is
/// left to be done, so that no handle is released twice and no callback
/// context is reclaimed twice; and a callback context is reclaimed last,
/// after the handle, if there is one, was released.
pub proof fn law_teardown_happens_once(maa: MaaView)
    ensures
        teardown_of(MaaView { handle: 0, callback: None, ..maa }) == Seq::<Teardown>::empty(),
        maa.handle != 0 ==> teardown_of(maa)[0] == Teardown::DestroyHandle(maa.handle),
        forall|i: int|
            0 <= i < teardown_of(maa).len() && #[trigger] teardown_of(maa)[i] is ReclaimCallback
                ==> i == teardown_of(maa).len() - 1,
        forall|i: int|
            0 <= i < teardown_of(maa).len() && #[trigger] teardown_of(maa)[i] is DestroyHandle
                ==> i == 0,
{
}

/// What the release of the handle of a session in the state `maa`
/// consists of.
pub open spec fn handle_release(maa: MaaView) -> Seq<Teardown> {
    if maa.handle == 0 {
        Seq::empty()
    } else {
        seq![Teardown::DestroyHandle(maa.handle)]
    }
}

/// What taking apart a session in the state `maa` consists of: the
/// release of its handle, then the reclaiming of its callback context.
pub open spec fn teardown_of(maa: MaaView) -> Seq<Teardown> {
    match maa.callback {
        Some(context) => handle_release(maa).push(Teardown::ReclaimCallback(context)),
        None => handle_release(maa),
    }
}

} // verus!

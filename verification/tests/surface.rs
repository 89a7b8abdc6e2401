use maars::maa_sys::{
    get_version, load_resource, log, set_static_option, set_working_directory, LogLevel, MaaError,
    OptionKey,
};
use std::cell::RefCell;

#[test]
fn resources_are_loaded_through_the_engine() {
    let seen = RefCell::new(String::new());
    let r = load_resource("./resource".to_string(), |path| {
        *seen.borrow_mut() = path;
        1
    });
    assert_eq!(r, Ok(()));
    assert_eq!(seen.into_inner(), "./resource");
    assert_eq!(load_resource("./resource".to_string(), |_| 0), Err(MaaError::OperationRejected));
    assert_eq!(load_resource("a\0b".to_string(), |_| 1), Err(MaaError::CNull));
}

#[test]
fn working_directory_is_set_through_the_engine() {
    assert_eq!(set_working_directory("/tmp/maa".to_string(), |path| (path == "/tmp/maa") as u8), Ok(()));
    assert_eq!(set_working_directory("/tmp/maa".to_string(), |_| 3), Err(MaaError::OperationRejected));
    assert_eq!(set_working_directory("\0".to_string(), |_| 1), Err(MaaError::CNull));
}

#[test]
fn static_option_is_set_through_the_engine() {
    let r = set_static_option(OptionKey::new(4), "1".to_string(), |key, value| (key == 4 && value == "1") as u8);
    assert_eq!(r, Ok(()));
    assert_eq!(set_static_option(OptionKey::new(4), "1".to_string(), |_, _| 0), Err(MaaError::OperationRejected));
    assert_eq!(set_static_option(OptionKey::new(4), "\0".to_string(), |_, _| 1), Err(MaaError::CNull));
}

#[test]
fn log_lines_carry_the_name_of_their_level() {
    let lines = RefCell::new(Vec::new());
    assert_eq!(log(LogLevel::Warn, "careful".to_string(), |level, text| lines.borrow_mut().push((level, text))), Ok(()));
    assert_eq!(log(LogLevel::Info, "a\0".to_string(), |level, text| lines.borrow_mut().push((level, text))), Err(MaaError::CNull));
    assert_eq!(lines.into_inner(), vec![("WRN", "careful".to_string())]);
}

#[test]
fn version_is_read_as_text() {
    assert_eq!(get_version(Some(b"v5.1.0".to_vec())), Ok("v5.1.0".to_string()));
    assert_eq!(get_version(Some(vec![0xc0])), Err(MaaError::EncodingError));
    assert_eq!(get_version(None), Err(MaaError::InvalidHandle));
}

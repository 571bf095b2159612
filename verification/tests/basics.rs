use torrent_peer::{AsResult, Error};

#[test]
fn it_works() {
    assert_eq!(2 + 2, 4);
}

#[test]
fn as_result_some_is_ok() {
    assert_eq!(Some(7u32).as_result(), Ok(7u32));
}

#[test]
fn as_result_none_is_error() {
    let absent: Option<u32> = None;
    assert_eq!(absent.as_result(), Err(Error::NoValue));
}

#[test]
fn error_text() {
    assert_eq!(Error::NoValue.to_string(), "Acess to None Object");
}

use rj::engine::{jdo_result, record_output, MTYOER, MTYOEXIT, MTYOFM};

#[test]
fn output_is_collected() {
    let mut buf = String::new();
    record_output(&mut buf, MTYOFM, "2");
    record_output(&mut buf, MTYOER, "oops");
    record_output(&mut buf, MTYOEXIT, "bye");
    record_output(&mut buf, 3, "log");
    assert_eq!(buf, "2[ERROR] oopslog");
}

#[test]
fn return_codes() {
    assert_eq!(jdo_result(0), Ok(()));
    assert_eq!(jdo_result(3), Err(3));
    assert_eq!(jdo_result(-1), Err(-1));
}

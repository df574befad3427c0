use flightdata::connector::{read_data, FlightDataReadError, ReadOutcome};

#[test]
fn timeout_is_nonfatal_but_a_fault_is_fatal() {
    let timeout = read_data(ReadOutcome::TimedOut);
    assert_eq!(timeout, Err(FlightDataReadError::NonFatal));

    let fault = read_data(ReadOutcome::Failed(String::from("device removed")));
    assert_eq!(
        fault,
        Err(FlightDataReadError::Fatal(String::from("device removed")))
    );
    assert_ne!(timeout, fault);
}

#[test]
fn a_valid_line_decodes_to_a_sample() {
    let line = b"100, 200, 300, 10, 20, 30, 12345\n".to_vec();
    let got = read_data(ReadOutcome::Line(line)).unwrap();
    assert_eq!(got.ac_x, 100);
    assert_eq!(got.gy_z, 30);
    assert_eq!(got.dt, 12345);
}

#[test]
fn debug_and_malformed_lines_are_nonfatal() {
    assert_eq!(
        read_data(ReadOutcome::Line(b"DBG sensor warmup\n".to_vec())),
        Err(FlightDataReadError::NonFatal)
    );
    assert_eq!(
        read_data(ReadOutcome::Line(b"1,2,3,4,5,6,7\n".to_vec())),
        Err(FlightDataReadError::NonFatal)
    );
}

//! The connector's decision logic: the outcome of one transport read is
//! translated into the two-tier error taxonomy. A timeout is "no sample
//! yet" (non-fatal, the read loop continues); any other transport fault
//! is fatal and carries its cause; a received line goes to the frame
//! parser. The blocking read itself is performed by the caller that owns
//! the transport handle.

use vstd::prelude::*;

use crate::parse::is_dbg;
use crate::parse::parse_line;
use crate::parse::spec_parse_fields;
use crate::sample::RawFlightData;

verus! {

/// The two-tier error taxonomy of a read: a non-fatal rejection is
/// logged and skipped and the session continues; a fatal error carries
/// the underlying transport cause and ends the read loop.
#[derive(Debug, PartialEq, Eq)]
pub enum FlightDataReadError {
    Fatal(String),
    NonFatal,
}

/// What one blocking read of the transport produced: a whole line, a
/// timeout, or a transport fault with its diagnostic cause.
#[derive(Debug)]
pub enum ReadOutcome {
    Line(Vec<u8>),
    TimedOut,
    Failed(String),
}

/// The sample or error that one read outcome decodes to: a timeout is
/// non-fatal, a transport fault is fatal with its cause, and a line is
/// a sample exactly when the frame parser accepts it.
pub open spec fn spec_read_data(outcome: ReadOutcome) -> Result<RawFlightData, FlightDataReadError> {
    match outcome {
        ReadOutcome::TimedOut => Err(FlightDataReadError::NonFatal),
        ReadOutcome::Failed(cause) => Err(FlightDataReadError::Fatal(cause)),
        ReadOutcome::Line(line) => match spec_parse_fields(line@) {
            Some(d) => if is_dbg(line@) {
                Err(FlightDataReadError::NonFatal)
            } else {
                Ok(d)
            },
            None => Err(FlightDataReadError::NonFatal),
        },
    }
}

/// Decode the outcome of one transport read into a sample or an error
/// of the taxonomy.
pub fn read_data(outcome: ReadOutcome) -> (r: Result<RawFlightData, FlightDataReadError>)
    ensures
        r == spec_read_data(outcome),
{
    match outcome {
        ReadOutcome::TimedOut => Err(FlightDataReadError::NonFatal),
        ReadOutcome::Failed(cause) => Err(FlightDataReadError::Fatal(cause)),
        ReadOutcome::Line(line) => match parse_line(line.as_slice()) {
            crate::parse::ParsedLine::Sample(d) => Ok(d),
            crate::parse::ParsedLine::DebugLine(_) => Err(FlightDataReadError::NonFatal),
            crate::parse::ParsedLine::Rejected => Err(FlightDataReadError::NonFatal),
        },
    }
}

/// Law: given the same connector, a read that times out is observably
/// distinct from a transport fault — the timeout decodes to the
/// non-fatal outcome while the fault decodes to a fatal error carrying
/// its cause, whatever that cause is.
pub proof fn lemma_timeout_distinct_from_fault(cause: String)
    ensures
        spec_read_data(ReadOutcome::TimedOut) == Err::<RawFlightData, FlightDataReadError>(
            FlightDataReadError::NonFatal,
        ),
        spec_read_data(ReadOutcome::Failed(cause)) == Err::<RawFlightData, FlightDataReadError>(
            FlightDataReadError::Fatal(cause),
        ),
        spec_read_data(ReadOutcome::TimedOut) != spec_read_data(ReadOutcome::Failed(cause)),
{
}

} // verus!

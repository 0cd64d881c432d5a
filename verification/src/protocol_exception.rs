//! Exception frames: how protocol faults and executor errors are reported
//! back to the client.
use vstd::bytes::spec_u32_to_le_bytes;
use vstd::prelude::*;

use crate::binary::spec_str_enc;
use crate::binary::spec_uvarint;
use crate::binary::Encoder;
use crate::errors::DriverError;
use crate::errors::Error;
use crate::errors::UNEXPECTED_PACKET_FROM_CLIENT;
use crate::protocols::SERVER_EXCEPTION;

verus! {

/// The message reported for each protocol-level fault.
pub open spec fn spec_driver_error_text(d: DriverError) -> Seq<u8> {
    match d {
        DriverError::Overflow => seq![118u8, 97, 114, 105, 110, 116, 32, 111, 118, 101, 114, 102, 108, 111, 119],
        DriverError::UnknownPacket { .. } => seq![117u8, 110, 107, 110, 111, 119, 110, 32, 112, 97, 99, 107, 101, 116],
        DriverError::UnexpectedPacket => seq![117u8, 110, 101, 120, 112, 101, 99, 116, 101, 100, 32, 112, 97, 99, 107, 101, 116],
        DriverError::BadTypeName => seq![98u8, 97, 100, 32, 99, 111, 108, 117, 109, 110, 32, 116, 121, 112, 101],
        DriverError::BadChecksum => seq![99u8, 104, 101, 99, 107, 115, 117, 109, 32, 109, 105, 115, 109, 97, 116, 99, 104],
        DriverError::BadCompressionMethod => seq![98u8, 97, 100, 32, 99, 111, 109, 112, 114, 101, 115, 115, 105, 111, 110, 32, 109, 101, 116, 104, 111, 100],
        DriverError::BadFrame => seq![109u8, 97, 108, 102, 111, 114, 109, 101, 100, 32, 102, 114, 97, 109, 101],
    }
}

/// The message an error is reported with: executor errors carry their own
/// message, protocol faults a per-fault text, and the retryable
/// `WouldBlock` signal its own name (it is never serialized in normal
/// operation).
pub open spec fn spec_error_text(e: Error) -> Seq<u8> {
    match e {
        Error::WouldBlock => seq![119u8, 111, 117, 108, 100, 32, 98, 108, 111, 99, 107],
        Error::Driver(d) => spec_driver_error_text(d),
        Error::Server(se) => se.message@,
    }
}

/// Encoding of one exception frame: code, name, message, stack trace, and
/// the nested flag (always false).
pub open spec fn spec_exception_enc(
    code: u32,
    name: Seq<u8>,
    message: Seq<u8>,
    stack_trace: Seq<u8>,
) -> Seq<u8> {
    spec_uvarint(SERVER_EXCEPTION as nat) + spec_u32_to_le_bytes(code) + spec_str_enc(name)
        + spec_str_enc(message) + spec_str_enc(stack_trace) + seq![0u8]
}

/// The exception frame an error is reported as.  Executor errors carry
/// their own code and message, and their stack trace only when the session
/// asks for it; every other error is reported with the unexpected-packet
/// code and its own message.  The name field is always empty.
pub open spec fn spec_error_exception_enc(e: Error, with_stack_trace: bool) -> Seq<u8> {
    match e {
        Error::Server(se) => spec_exception_enc(
            se.code,
            Seq::<u8>::empty(),
            se.message@,
            if with_stack_trace {
                se.stack_trace@
            } else {
                Seq::<u8>::empty()
            },
        ),
        _ => spec_exception_enc(
            UNEXPECTED_PACKET_FROM_CLIENT,
            Seq::<u8>::empty(),
            spec_error_text(e),
            Seq::<u8>::empty(),
        ),
    }
}

/// The message of a protocol-level fault, as serialized.
fn driver_error_text(d: &DriverError) -> (r: Vec<u8>)
    ensures
        r@ == spec_driver_error_text(*d),
{
    let r: Vec<u8> = match d {
        DriverError::Overflow => vec![118u8, 97, 114, 105, 110, 116, 32, 111, 118, 101, 114, 102, 108, 111, 119],
        DriverError::UnknownPacket { .. } => vec![117u8, 110, 107, 110, 111, 119, 110, 32, 112, 97, 99, 107, 101, 116],
        DriverError::UnexpectedPacket => vec![117u8, 110, 101, 120, 112, 101, 99, 116, 101, 100, 32, 112, 97, 99, 107, 101, 116],
        DriverError::BadTypeName => vec![98u8, 97, 100, 32, 99, 111, 108, 117, 109, 110, 32, 116, 121, 112, 101],
        DriverError::BadChecksum => vec![99u8, 104, 101, 99, 107, 115, 117, 109, 32, 109, 105, 115, 109, 97, 116, 99, 104],
        DriverError::BadCompressionMethod => vec![98u8, 97, 100, 32, 99, 111, 109, 112, 114, 101, 115, 115, 105, 111, 110, 32, 109, 101, 116, 104, 111, 100],
        DriverError::BadFrame => vec![109u8, 97, 108, 102, 111, 114, 109, 101, 100, 32, 102, 114, 97, 109, 101],
    };
    proof {
        assert(r@ =~= spec_driver_error_text(*d));
    }
    r
}

/// Serializer for exception frames.
pub struct ExceptionResponse {}

impl ExceptionResponse {
    /// Append the exception frame for `error`.
    pub fn write(encoder: &mut Encoder, error: &Error, with_stack_trace: bool)
        ensures
            final (encoder)@ == old(encoder)@ + spec_error_exception_enc(*error, with_stack_trace),
    {
        let empty: Vec<u8> = Vec::new();
        match error {
            Error::Server(se) => {
                encoder.uvarint(SERVER_EXCEPTION);
                encoder.write_u32(se.code);
                encoder.string(&empty);
                encoder.string(&se.message);
                if with_stack_trace {
                    encoder.string(&se.stack_trace);
                } else {
                    encoder.string(&empty);
                }
                encoder.write_u8(0);
            },
            Error::Driver(d) => {
                let text = driver_error_text(d);
                encoder.uvarint(SERVER_EXCEPTION);
                encoder.write_u32(UNEXPECTED_PACKET_FROM_CLIENT);
                encoder.string(&empty);
                encoder.string(&text);
                encoder.string(&empty);
                encoder.write_u8(0);
            },
            Error::WouldBlock => {
                let text = vec![119u8, 111, 117, 108, 100, 32, 98, 108, 111, 99, 107];
                proof {
                    assert(text@ =~= spec_error_text(*error));
                }
                encoder.uvarint(SERVER_EXCEPTION);
                encoder.write_u32(UNEXPECTED_PACKET_FROM_CLIENT);
                encoder.string(&empty);
                encoder.string(&text);
                encoder.string(&empty);
                encoder.write_u8(0);
            },
        }
        assert(encoder@ =~= old(encoder)@ + spec_error_exception_enc(*error, with_stack_trace));
    }
}

} // verus!

use vstd::prelude::*;
use crate::types::Type;
use crate::interface::{ComponentInterface, resolves};
use crate::value::{Value, model_of, encode, conforms, string_bytes, fits_u32};
use crate::codec::{decode, decode_string};
use crate::lower::{CodecError, MAX_NESTING, lower, lower_string};
use crate::lift::{lift, lift_string};

verus! {

/// The outcome of one call across the boundary.
#[derive(Debug, PartialEq)]
pub enum CallOutcome {
    /// The call returned this value.
    Success(Value),
    /// The call failed with a variant of its declared error type.
    ExpectedError(Value),
    /// The native code failed in a way that its interface does not model.
    UnexpectedPanic(String),
}

/// The status code of a successful call.
pub const CALL_SUCCESS: i8 = 0;

/// The status code of a call that failed with its declared error.
pub const CALL_ERROR: i8 = 1;

/// The status code of a call that panicked.
pub const CALL_PANIC: i8 = 2;

/// What travels back from a call: a status code and one buffer, which holds
/// the returned value, the lowered error or the panic message.
#[derive(Debug, PartialEq)]
pub struct CallStatus {
    pub code: i8,
    pub buffer: Vec<u8>,
}

/// Lowers an outcome: a returned value as type `ret`, an expected error as
/// the declared error type `err`, a panic message as a string.
pub fn lower_outcome(o: &CallOutcome, ret: &Type, err: &Type, ci: &ComponentInterface) -> (r: Result<
    CallStatus,
    CodecError,
>)
    requires
        ci.wf(),
        err is Error,
    ensures
        match *o {
            CallOutcome::Success(v) => match r {
                Ok(s) => s.code == CALL_SUCCESS && s.buffer@ == encode(model_of(v)) && resolves(
                    *ret,
                    *ci,
                ) && conforms(model_of(v), *ret, *ci, MAX_NESTING as nat),
                Err(e) => !resolves(*ret, *ci) && e == CodecError::UnresolvedReference || resolves(
                    *ret,
                    *ci,
                ) && !conforms(model_of(v), *ret, *ci, MAX_NESTING as nat) && e
                    == CodecError::TypeMismatch,
            },
            CallOutcome::ExpectedError(v) => match r {
                Ok(s) => s.code == CALL_ERROR && s.buffer@ == encode(model_of(v)) && resolves(
                    *err,
                    *ci,
                ) && conforms(model_of(v), *err, *ci, MAX_NESTING as nat),
                Err(e) => !resolves(*err, *ci) && e == CodecError::UnresolvedReference || resolves(
                    *err,
                    *ci,
                ) && !conforms(model_of(v), *err, *ci, MAX_NESTING as nat) && e
                    == CodecError::TypeMismatch,
            },
            CallOutcome::UnexpectedPanic(m) => match r {
                Ok(s) => s.code == CALL_PANIC && s.buffer@ == string_bytes(m@),
                Err(e) => !fits_u32(vstd::utf8::encode_utf8(m@).len()) && e
                    == CodecError::TypeMismatch,
            },
        },
{
    match o {
        CallOutcome::Success(v) => match lower(v, ret, ci) {
            Ok(b) => Ok(CallStatus { code: CALL_SUCCESS, buffer: b }),
            Err(e) => Err(e),
        },
        CallOutcome::ExpectedError(v) => match lower(v, err, ci) {
            Ok(b) => Ok(CallStatus { code: CALL_ERROR, buffer: b }),
            Err(e) => Err(e),
        },
        CallOutcome::UnexpectedPanic(m) => {
            let mut b: Vec<u8> = Vec::new();
            if lower_string(m, &mut b) {
                proof {
                    assert(b@ =~= string_bytes(m@));
                }
                Ok(CallStatus { code: CALL_PANIC, buffer: b })
            } else {
                Err(CodecError::TypeMismatch)
            }
        },
    }
}

/// Lifts a call's status back into an outcome. An unknown status code, or
/// a buffer that does not hold exactly one value of the expected type, is
/// malformed.
pub fn lift_outcome(s: &CallStatus, ret: &Type, err: &Type, ci: &ComponentInterface) -> (r: Result<
    CallOutcome,
    CodecError,
>)
    requires
        ci.wf(),
        err is Error,
    ensures
        s.code == CALL_SUCCESS ==> match r {
            Ok(o) => o matches CallOutcome::Success(v) && resolves(*ret, *ci) && decode(
                s.buffer@,
                0,
                *ret,
                *ci,
                MAX_NESTING as nat,
            ) == Some((model_of(v), s.buffer@.len())),
            Err(_) => true,
        },
        s.code == CALL_ERROR ==> match r {
            Ok(o) => o matches CallOutcome::ExpectedError(v) && resolves(*err, *ci) && decode(
                s.buffer@,
                0,
                *err,
                *ci,
                MAX_NESTING as nat,
            ) == Some((model_of(v), s.buffer@.len())),
            Err(_) => true,
        },
        s.code == CALL_PANIC ==> match decode_string(s.buffer@, 0) {
            Some((m, p)) => if p == s.buffer@.len() {
                r matches Ok(CallOutcome::UnexpectedPanic(x)) && x@ == m
            } else {
                r == Err::<CallOutcome, CodecError>(CodecError::MalformedBuffer)
            },
            None => r == Err::<CallOutcome, CodecError>(CodecError::MalformedBuffer),
        },
        s.code != CALL_SUCCESS && s.code != CALL_ERROR && s.code != CALL_PANIC ==> r == Err::<
            CallOutcome,
            CodecError,
        >(CodecError::MalformedBuffer),
        (s.code == CALL_SUCCESS || s.code == CALL_ERROR) && r is Err ==> {
            let t = if s.code == CALL_SUCCESS {
                *ret
            } else {
                *err
            };
            !resolves(t, *ci) && r == Err::<CallOutcome, CodecError>(
                CodecError::UnresolvedReference,
            ) || resolves(t, *ci) && r == Err::<CallOutcome, CodecError>(
                CodecError::MalformedBuffer,
            ) && !(decode(s.buffer@, 0, t, *ci, MAX_NESTING as nat) matches Some((_, p)) && p
                == s.buffer@.len())
        },
{
    if s.code == CALL_SUCCESS {
        match lift(s.buffer.as_slice(), ret, ci) {
            Ok(v) => Ok(CallOutcome::Success(v)),
            Err(e) => Err(e),
        }
    } else if s.code == CALL_ERROR {
        match lift(s.buffer.as_slice(), err, ci) {
            Ok(v) => Ok(CallOutcome::ExpectedError(v)),
            Err(e) => Err(e),
        }
    } else if s.code == CALL_PANIC {
        match lift_string(s.buffer.as_slice(), 0) {
            Some((m, q)) => if q == s.buffer.len() {
                Ok(CallOutcome::UnexpectedPanic(m))
            } else {
                Err(CodecError::MalformedBuffer)
            },
            None => Err(CodecError::MalformedBuffer),
        }
    } else {
        Err(CodecError::MalformedBuffer)
    }
}

} // verus!

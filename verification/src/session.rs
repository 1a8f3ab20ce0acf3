use vstd::prelude::*;
use crate::input::{
    INPUT_SELECT_CODE, MapperError, MonitorInput, input_to_value, map_inputs,
    spec_input_from_value, spec_input_to_value,
};
use crate::model::{CapabilityModel, ModelView};
use crate::parse::{ParseError, parse, spec_parse};

verus! {

/// Which failure a monitor session reports: the monitor returned an empty
/// capability string, the string did not parse, its feature table lacks
/// Input Select, a requested input is not among the monitor's inputs, or
/// the hardware did not acknowledge a write.
#[derive(Debug, Clone, Copy, PartialEq, Eq, Structural)]
pub enum SessionError {
    EmptyCapabilities,
    ParseFailed,
    NoInputs,
    UnsupportedInput,
    TransportFailed,
}

/// The error a monitor session operation reports; `kind` says which
/// failure occurred. Parser and mapper failures are wrapped into this one
/// type at the session boundary, so a single error type reaches the
/// registry and its callers.
#[derive(Debug, Clone, Copy, PartialEq, Eq, Structural)]
pub struct MonitorError {
    pub kind: SessionError,
}

/// One VCP set-feature command for the transport to issue: write `value`
/// to feature `code` on the physical monitor behind `handle`.
#[derive(Debug, Clone, Copy, PartialEq, Eq, Structural)]
pub struct VcpSetRequest {
    pub handle: u64,
    pub code: u8,
    pub value: u8,
}

/// Mathematical view of a session.
pub struct SessionView {
    pub handle: u64,
    pub capabilities: ModelView,
    pub available_inputs: Seq<MonitorInput>,
}

/// One physical monitor bound to its parsed capabilities. `handle`
/// identifies the opaque monitor handle, whose lifetime the enumeration
/// collaborator owns. Immutable after construction: setting an input
/// changes the physical monitor, never this value.
#[derive(Debug, Clone)]
pub struct MonitorSession {
    pub handle: u64,
    pub capabilities: CapabilityModel,
    pub available_inputs: Vec<MonitorInput>,
}

impl View for MonitorSession {
    type V = SessionView;

    open spec fn view(&self) -> SessionView {
        SessionView {
            handle: self.handle,
            capabilities: self.capabilities@,
            available_inputs: self.available_inputs@,
        }
    }
}

/// What `MonitorSession::open` yields on a handle and a raw capability
/// string: the parse failure or the missing input feature, wrapped, or the
/// session with the Input Select values projected to named inputs in
/// declaration order.
pub open spec fn spec_open(handle: u64, raw: Seq<u8>) -> Result<SessionView, SessionError> {
    match spec_parse(raw) {
        Err(ParseError::Empty) => Err(SessionError::EmptyCapabilities),
        Err(ParseError::Malformed) => Err(SessionError::ParseFailed),
        Ok(m) => match m.lookup(INPUT_SELECT_CODE) {
            None => Err(SessionError::NoInputs),
            Some(vals) => Ok(
                SessionView {
                    handle,
                    capabilities: m,
                    available_inputs: vals.map_values(|v: u8| spec_input_from_value(v)),
                },
            ),
        },
    }
}

/// A capability string that does not parse never yields a session: `open`
/// reports the wrapped parse error, all or nothing, and a partially built
/// session does not exist.
pub proof fn lemma_open_never_partial(handle: u64, raw: Seq<u8>)
    requires
        spec_parse(raw) is Err,
    ensures
        spec_open(handle, raw) is Err,
        spec_parse(raw) == Err::<ModelView, ParseError>(ParseError::Empty) ==> spec_open(
            handle,
            raw,
        ) == Err::<SessionView, SessionError>(SessionError::EmptyCapabilities),
        spec_parse(raw) == Err::<ModelView, ParseError>(ParseError::Malformed) ==> spec_open(
            handle,
            raw,
        ) == Err::<SessionView, SessionError>(SessionError::ParseFailed),
{
}

impl MonitorSession {
    /// Binds one monitor handle to the capabilities its raw string
    /// describes: parser then mapper, all-or-nothing. An empty or
    /// unparsable string, or a table without Input Select, yields the
    /// wrapped error and no session.
    pub fn open(handle: u64, raw: &[u8]) -> (r: Result<MonitorSession, MonitorError>)
        ensures
            match r {
                Ok(sess) => spec_open(handle, raw@) == Ok::<SessionView, SessionError>(sess@)
                    && sess@.capabilities.wf(),
                Err(e) => spec_open(handle, raw@) == Err::<SessionView, SessionError>(e.kind),
            },
    {
        match parse(raw) {
            Err(ParseError::Empty) => Err(MonitorError { kind: SessionError::EmptyCapabilities }),
            Err(ParseError::Malformed) => Err(MonitorError { kind: SessionError::ParseFailed }),
            Ok(m) => match map_inputs(&m) {
                Err(MapperError::NoInputFeature) => Err(
                    MonitorError { kind: SessionError::NoInputs },
                ),
                Ok(inputs) => Ok(MonitorSession { handle, capabilities: m, available_inputs: inputs }),
            },
        }
    }

    /// Resolves `input` back to its numeric Input Select value and yields
    /// the one set-feature command a caller must issue for it. Fails with
    /// `UnsupportedInput`, and yields no command (so no hardware write
    /// follows), when `input` is not among `available_inputs` or names no
    /// single value (`Unknown`, `Reserved`).
    pub fn set_input_request(&self, input: MonitorInput) -> (r: Result<VcpSetRequest, MonitorError>)
        ensures
            match r {
                Ok(req) => self@.available_inputs.contains(input) && spec_input_to_value(input)
                    == Some(req.value) && req.code == INPUT_SELECT_CODE && req.handle
                    == self@.handle,
                Err(e) => e.kind == SessionError::UnsupportedInput && (
                !self@.available_inputs.contains(input) || spec_input_to_value(input) is None),
            },
    {
        let mut i: usize = 0;
        let mut present = false;
        while i < self.available_inputs.len()
            invariant
                i <= self.available_inputs@.len(),
                present == exists|k: int|
                    0 <= k < i && self.available_inputs@[k] == input,
            decreases self.available_inputs@.len() - i,
        {
            if self.available_inputs[i] == input {
                proof {
                    assert(self.available_inputs@[i as int] == input);
                }
                present = true;
            }
            i = i + 1;
        }
        if !present {
            return Err(MonitorError { kind: SessionError::UnsupportedInput });
        }
        match input_to_value(input) {
            None => Err(MonitorError { kind: SessionError::UnsupportedInput }),
            Some(v) => Ok(VcpSetRequest { handle: self.handle, code: INPUT_SELECT_CODE, value: v }),
        }
    }

    /// Folds the transport's acknowledgment of a set-feature write into
    /// the session's result: acknowledged, or `TransportFailed`. Holds of
    /// every acknowledgment value, so a monitor that silently ignores the
    /// write surfaces as a reported, recoverable error.
    pub fn set_input_outcome(acked: bool) -> (r: Result<(), MonitorError>)
        ensures
            acked ==> r == Ok::<(), MonitorError>(()),
            !acked ==> r == Err::<(), MonitorError>(
                MonitorError { kind: SessionError::TransportFailed },
            ),
    {
        if acked {
            Ok(())
        } else {
            Err(MonitorError { kind: SessionError::TransportFailed })
        }
    }
}

} // verus!

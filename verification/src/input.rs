use vstd::prelude::*;
use crate::model::{CapabilityModel, ModelView};

verus! {

/// The VCP feature code of Input Select, the feature that chooses which
/// physical video input a monitor displays.
pub const INPUT_SELECT_CODE: u8 = 0x60;

/// A named video input, in 1:1 correspondence with the values the Input
/// Select feature enumerates. `Unknown` is the catch-all for a value the
/// table does not name; `Reserved` is kept for future codes and is never
/// produced by the mapping.
#[derive(Debug, Clone, Copy, PartialEq, Eq, Structural)]
pub enum MonitorInput {
    AnalogVideo1,
    AnalogVideo2,
    DVI1,
    DVI2,
    CompositeVideo1,
    CompositeVideo2,
    SVideo1,
    SVideo2,
    Tuner1,
    Tuner2,
    Tuner3,
    ComponentVideo1,
    ComponentVideo2,
    ComponentVideo3,
    DisplayPort1,
    DisplayPort2,
    HDMI1,
    HDMI2,
    Unknown,
    Reserved,
}

/// The mapper has no input feature to project when code 60 (hex) is absent
/// from the feature table.
#[derive(Debug, Clone, Copy, PartialEq, Eq, Structural)]
pub enum MapperError {
    NoInputFeature,
}

/// The forward mapping from an Input Select value to its named input.
pub open spec fn spec_input_from_value(v: u8) -> MonitorInput {
    if v == 1 {
        MonitorInput::AnalogVideo1
    } else if v == 2 {
        MonitorInput::AnalogVideo2
    } else if v == 3 {
        MonitorInput::DVI1
    } else if v == 4 {
        MonitorInput::DVI2
    } else if v == 5 {
        MonitorInput::CompositeVideo1
    } else if v == 6 {
        MonitorInput::CompositeVideo2
    } else if v == 7 {
        MonitorInput::SVideo1
    } else if v == 8 {
        MonitorInput::SVideo2
    } else if v == 9 {
        MonitorInput::Tuner1
    } else if v == 10 {
        MonitorInput::Tuner2
    } else if v == 11 {
        MonitorInput::Tuner3
    } else if v == 12 {
        MonitorInput::ComponentVideo1
    } else if v == 13 {
        MonitorInput::ComponentVideo2
    } else if v == 14 {
        MonitorInput::ComponentVideo3
    } else if v == 15 {
        MonitorInput::DisplayPort1
    } else if v == 16 {
        MonitorInput::DisplayPort2
    } else if v == 17 {
        MonitorInput::HDMI1
    } else if v == 18 {
        MonitorInput::HDMI2
    } else {
        MonitorInput::Unknown
    }
}

/// The inverse mapping, used when a set-input request is resolved back to
/// the numeric value the hardware expects. `Unknown` and `Reserved` name no
/// single value and so have no inverse.
pub open spec fn spec_input_to_value(inp: MonitorInput) -> Option<u8> {
    match inp {
        MonitorInput::AnalogVideo1 => Some(1u8),
        MonitorInput::AnalogVideo2 => Some(2u8),
        MonitorInput::DVI1 => Some(3u8),
        MonitorInput::DVI2 => Some(4u8),
        MonitorInput::CompositeVideo1 => Some(5u8),
        MonitorInput::CompositeVideo2 => Some(6u8),
        MonitorInput::SVideo1 => Some(7u8),
        MonitorInput::SVideo2 => Some(8u8),
        MonitorInput::Tuner1 => Some(9u8),
        MonitorInput::Tuner2 => Some(10u8),
        MonitorInput::Tuner3 => Some(11u8),
        MonitorInput::ComponentVideo1 => Some(12u8),
        MonitorInput::ComponentVideo2 => Some(13u8),
        MonitorInput::ComponentVideo3 => Some(14u8),
        MonitorInput::DisplayPort1 => Some(15u8),
        MonitorInput::DisplayPort2 => Some(16u8),
        MonitorInput::HDMI1 => Some(17u8),
        MonitorInput::HDMI2 => Some(18u8),
        MonitorInput::Unknown => None,
        MonitorInput::Reserved => None,
    }
}

/// On every value the forward mapping names (1 through 18), the inverse
/// undoes the forward mapping.
pub proof fn lemma_input_value_round_trip(v: u8)
    requires
        1 <= v <= 18,
    ensures
        spec_input_to_value(spec_input_from_value(v)) == Some(v),
{
}

pub fn input_from_value(v: u8) -> (r: MonitorInput)
    ensures
        r == spec_input_from_value(v),
{
    if v == 1 {
        MonitorInput::AnalogVideo1
    } else if v == 2 {
        MonitorInput::AnalogVideo2
    } else if v == 3 {
        MonitorInput::DVI1
    } else if v == 4 {
        MonitorInput::DVI2
    } else if v == 5 {
        MonitorInput::CompositeVideo1
    } else if v == 6 {
        MonitorInput::CompositeVideo2
    } else if v == 7 {
        MonitorInput::SVideo1
    } else if v == 8 {
        MonitorInput::SVideo2
    } else if v == 9 {
        MonitorInput::Tuner1
    } else if v == 10 {
        MonitorInput::Tuner2
    } else if v == 11 {
        MonitorInput::Tuner3
    } else if v == 12 {
        MonitorInput::ComponentVideo1
    } else if v == 13 {
        MonitorInput::ComponentVideo2
    } else if v == 14 {
        MonitorInput::ComponentVideo3
    } else if v == 15 {
        MonitorInput::DisplayPort1
    } else if v == 16 {
        MonitorInput::DisplayPort2
    } else if v == 17 {
        MonitorInput::HDMI1
    } else if v == 18 {
        MonitorInput::HDMI2
    } else {
        MonitorInput::Unknown
    }
}

pub fn input_to_value(inp: MonitorInput) -> (r: Option<u8>)
    ensures
        r == spec_input_to_value(inp),
{
    match inp {
        MonitorInput::AnalogVideo1 => Some(1u8),
        MonitorInput::AnalogVideo2 => Some(2u8),
        MonitorInput::DVI1 => Some(3u8),
        MonitorInput::DVI2 => Some(4u8),
        MonitorInput::CompositeVideo1 => Some(5u8),
        MonitorInput::CompositeVideo2 => Some(6u8),
        MonitorInput::SVideo1 => Some(7u8),
        MonitorInput::SVideo2 => Some(8u8),
        MonitorInput::Tuner1 => Some(9u8),
        MonitorInput::Tuner2 => Some(10u8),
        MonitorInput::Tuner3 => Some(11u8),
        MonitorInput::ComponentVideo1 => Some(12u8),
        MonitorInput::ComponentVideo2 => Some(13u8),
        MonitorInput::ComponentVideo3 => Some(14u8),
        MonitorInput::DisplayPort1 => Some(15u8),
        MonitorInput::DisplayPort2 => Some(16u8),
        MonitorInput::HDMI1 => Some(17u8),
        MonitorInput::HDMI2 => Some(18u8),
        MonitorInput::Unknown => None,
        MonitorInput::Reserved => None,
    }
}

/// What `map_inputs` returns: each value the Input Select feature
/// enumerates, projected through the forward mapping, in declaration order.
pub open spec fn spec_map_inputs(m: ModelView) -> Result<Seq<MonitorInput>, MapperError> {
    match m.lookup(INPUT_SELECT_CODE) {
        None => Err(MapperError::NoInputFeature),
        Some(vals) => Ok(vals.map_values(|v: u8| spec_input_from_value(v))),
    }
}

/// Projects the Input Select entry of `m` into named inputs, one per
/// declared value, in the order the capability string declared them.
pub fn map_inputs(m: &CapabilityModel) -> (r: Result<Vec<MonitorInput>, MapperError>)
    ensures
        match r {
            Ok(inputs) => spec_map_inputs(m@) == Ok::<Seq<MonitorInput>, MapperError>(inputs@),
            Err(e) => spec_map_inputs(m@) == Err::<Seq<MonitorInput>, MapperError>(e),
        },
{
    match m.lookup(INPUT_SELECT_CODE) {
        None => Err(MapperError::NoInputFeature),
        Some(entry) => {
            let vals = &entry.allowed_values;
            let mut inputs: Vec<MonitorInput> = Vec::new();
            let mut i: usize = 0;
            while i < vals.len()
                invariant
                    i <= vals@.len(),
                    inputs@ == vals@.subrange(0, i as int).map_values(
                        |v: u8| spec_input_from_value(v),
                    ),
                decreases vals@.len() - i,
            {
                inputs.push(input_from_value(vals[i]));
                proof {
                    assert(vals@.subrange(0, i + 1 as int).drop_last() == vals@.subrange(
                        0,
                        i as int,
                    ));
                    assert(inputs@ =~= vals@.subrange(0, i + 1 as int).map_values(
                        |v: u8| spec_input_from_value(v),
                    ));
                }
                i = i + 1;
            }
            proof {
                assert(vals@.subrange(0, vals@.len() as int) == vals@);
            }
            Ok(inputs)
        },
    }
}

} // verus!

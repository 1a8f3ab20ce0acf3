use ddc_core::input::{input_from_value, input_to_value, map_inputs, MapperError, MonitorInput};
use ddc_core::parse::parse;

#[test]
fn map_inputs_projects_declared_values_in_order() {
    let m = parse(b"(vcp(60(01 02 0F 11)))").unwrap();
    let inputs = map_inputs(&m).unwrap();
    assert_eq!(
        inputs,
        vec![
            MonitorInput::AnalogVideo1,
            MonitorInput::AnalogVideo2,
            MonitorInput::DisplayPort1,
            MonitorInput::HDMI1,
        ]
    );
}

#[test]
fn map_inputs_without_input_feature_fails() {
    let m = parse(b"(vcp(10 12))").unwrap();
    assert_eq!(map_inputs(&m).unwrap_err(), MapperError::NoInputFeature);
}

#[test]
fn map_inputs_of_unenumerated_input_feature_is_empty() {
    let m = parse(b"(vcp(60))").unwrap();
    assert_eq!(map_inputs(&m).unwrap(), Vec::<MonitorInput>::new());
}

#[test]
fn unrecognized_value_maps_to_unknown() {
    let m = parse(b"(vcp(60(1F)))").unwrap();
    assert_eq!(map_inputs(&m).unwrap(), vec![MonitorInput::Unknown]);
}

#[test]
fn forward_and_inverse_mapping_agree_on_all_codes() {
    for v in 1u8..=18u8 {
        let input = input_from_value(v);
        assert_eq!(input_to_value(input), Some(v));
    }
}

#[test]
fn forward_mapping_table_endpoints() {
    assert_eq!(input_from_value(1), MonitorInput::AnalogVideo1);
    assert_eq!(input_from_value(18), MonitorInput::HDMI2);
    assert_eq!(input_from_value(0), MonitorInput::Unknown);
    assert_eq!(input_from_value(19), MonitorInput::Unknown);
}

#[test]
fn unknown_and_reserved_have_no_value() {
    assert_eq!(input_to_value(MonitorInput::Unknown), None);
    assert_eq!(input_to_value(MonitorInput::Reserved), None);
}

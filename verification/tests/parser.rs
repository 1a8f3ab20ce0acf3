use ddc_core::model::{CapabilityModel, VcpFeatureEntry};
use ddc_core::parse::{capability_string, parse, ParseError};

#[test]
fn parse_empty_fails_with_empty() {
    assert_eq!(parse(b"").unwrap_err(), ParseError::Empty);
}

#[test]
fn parse_whitespace_fails_with_empty() {
    assert_eq!(parse(b"   ").unwrap_err(), ParseError::Empty);
    assert_eq!(parse(b" \t\r\n ").unwrap_err(), ParseError::Empty);
}

#[test]
fn parse_input_select_group() {
    let m = parse(b"(vcp(60(01 02 0F 11)))").unwrap();
    let entry = m.lookup(0x60).unwrap();
    assert_eq!(entry.code, 0x60);
    assert_eq!(entry.allowed_values, vec![1, 2, 15, 17]);
    assert_eq!(m.model_name, None);
}

#[test]
fn parse_extracts_model_name() {
    let m = parse(b"(prot(monitor)type(lcd)model(U2720Q)cmds(01 02)vcp(60(0F 11) 10))").unwrap();
    assert_eq!(m.model_name, Some(b"U2720Q".to_vec()));
    assert_eq!(m.lookup(0x60).unwrap().allowed_values, vec![15, 17]);
    // A bare code is kept with no enumerated values.
    assert_eq!(m.lookup(0x10).unwrap().allowed_values, Vec::<u8>::new());
    // Unknown groups are ignored, not recorded.
    assert!(m.lookup(0x01).is_none());
}

#[test]
fn parse_model_name_keeps_inner_spaces() {
    let m = parse(b"(model(DELL U2720Q)vcp(60))").unwrap();
    assert_eq!(m.model_name, Some(b"DELL U2720Q".to_vec()));
}

#[test]
fn parse_is_whitespace_tolerant() {
    let m = parse(b"  ( vcp( 60( 01  02 )  10 ) )  ").unwrap();
    assert_eq!(m.lookup(0x60).unwrap().allowed_values, vec![1, 2]);
}

#[test]
fn parse_hex_is_case_insensitive() {
    let m = parse(b"(vcp(60(0f 1A aB)))").unwrap();
    assert_eq!(m.lookup(0x60).unwrap().allowed_values, vec![0x0F, 0x1A, 0xAB]);
}

#[test]
fn parse_later_duplicate_code_wins() {
    let m = parse(b"(vcp(60(01) 60(02 03)))").unwrap();
    assert_eq!(m.lookup(0x60).unwrap().allowed_values, vec![2, 3]);
    assert_eq!(m.features.len(), 1);
}

#[test]
fn parse_empty_value_list_is_unenumerated() {
    let m = parse(b"(vcp(60()))").unwrap();
    assert_eq!(m.lookup(0x60).unwrap().allowed_values, Vec::<u8>::new());
}

#[test]
fn parse_unbalanced_fails_with_malformed() {
    assert_eq!(parse(b"(vcp(60)").unwrap_err(), ParseError::Malformed);
    assert_eq!(parse(b"(vcp(60(01))").unwrap_err(), ParseError::Malformed);
    assert_eq!(parse(b")").unwrap_err(), ParseError::Malformed);
}

#[test]
fn parse_missing_vcp_group_fails_with_malformed() {
    assert_eq!(parse(b"(model(FOO))").unwrap_err(), ParseError::Malformed);
    assert_eq!(parse(b"(prot(monitor))").unwrap_err(), ParseError::Malformed);
}

#[test]
fn parse_trailing_text_fails_with_malformed() {
    assert_eq!(parse(b"(vcp(60)) x").unwrap_err(), ParseError::Malformed);
}

#[test]
fn parse_non_hex_vcp_child_fails_with_malformed() {
    assert_eq!(parse(b"(vcp(zz))").unwrap_err(), ParseError::Malformed);
    assert_eq!(parse(b"(vcp(6))").unwrap_err(), ParseError::Malformed);
}

#[test]
fn parse_skips_unknown_group_with_nested_parens() {
    let m = parse(b"(mccs_ver(2(1 (x))0)vcp(60(01)))").unwrap();
    assert_eq!(m.lookup(0x60).unwrap().allowed_values, vec![1]);
}

#[test]
fn parse_values_need_no_separating_spaces() {
    let m = parse(b"(vcp(60(0102)))").unwrap();
    assert_eq!(m.lookup(0x60).unwrap().allowed_values, vec![1, 2]);
}

#[test]
fn parse_empty_model_name_is_kept() {
    let m = parse(b"(model()vcp(60))").unwrap();
    assert_eq!(m.model_name, Some(Vec::new()));
}

#[test]
fn parse_later_duplicate_group_wins() {
    let m = parse(b"(model(A)model(B)vcp(60))").unwrap();
    assert_eq!(m.model_name, Some(b"B".to_vec()));
}

#[test]
fn serialize_then_parse_reconstructs_model() {
    let m = CapabilityModel {
        model_name: Some(b"DELL U2720Q".to_vec()),
        features: vec![
            VcpFeatureEntry { code: 0x60, allowed_values: vec![1, 2, 15, 17] },
            VcpFeatureEntry { code: 0x10, allowed_values: vec![] },
            VcpFeatureEntry { code: 0xFE, allowed_values: vec![0, 255] },
        ],
    };
    let raw = capability_string(&m);
    assert_eq!(parse(&raw).unwrap(), m);
}

#[test]
fn serialize_writes_canonical_form() {
    let m = CapabilityModel {
        model_name: Some(b"X1".to_vec()),
        features: vec![
            VcpFeatureEntry { code: 0x60, allowed_values: vec![1, 15] },
            VcpFeatureEntry { code: 0x10, allowed_values: vec![] },
        ],
    };
    assert_eq!(capability_string(&m), b"(model(X1)vcp(60(01 0F ) 10 ))".to_vec());
}

#[test]
fn serialize_then_parse_without_model_name() {
    let m = CapabilityModel {
        model_name: None,
        features: vec![VcpFeatureEntry { code: 0x60, allowed_values: vec![17] }],
    };
    let raw = capability_string(&m);
    assert_eq!(parse(&raw).unwrap(), m);
}

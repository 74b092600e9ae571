use rusty_embers::glow::{
    command_from_glow, Access, Command, GlowValue, ParameterType, GLOW_COMMAND_GET_DIRECTORY,
    GLOW_COMMAND_INVOKE, GLOW_COMMAND_SUBSCRIBE, GLOW_COMMAND_UNSUBSCRIBE,
};
use rusty_embers::s101::{decode_single_frame, encode_ember_frame, encode_keep_alive_request, encode_keep_alive_response};
use rusty_embers::server::{frame_action, FrameAction};

#[test]
fn glow_numbers_of_access_and_types() {
    assert_eq!(Access::NoAccess.to_i32(), 0);
    assert_eq!(Access::Read.to_i32(), 1);
    assert_eq!(Access::Write.to_i32(), 2);
    assert_eq!(Access::ReadWrite.to_i32(), 3);
    assert_eq!(ParameterType::NoType.to_i32(), 0);
    assert_eq!(ParameterType::Boolean.to_i32(), 4);
    assert_eq!(ParameterType::Trigger.to_i32(), 5);
    assert_eq!(ParameterType::Octets.to_i32(), 7);
}

#[test]
fn glow_value_clone_keeps_the_value() {
    for v in [
        GlowValue::NoValue,
        GlowValue::Integer(-3),
        GlowValue::Real((-0.25f64).to_bits()),
        GlowValue::Boolean(true),
        GlowValue::String("abc".to_string()),
        GlowValue::OctetString(vec![0, 255]),
    ] {
        assert_eq!(v.clone(), v);
    }
}

#[test]
fn glow_commands_by_number() {
    assert_eq!(
        command_from_glow(GLOW_COMMAND_GET_DIRECTORY, vec![1, 2], 0, 0),
        Command::GetDirectory { path: vec![1, 2], dir_field_mask: None }
    );
    assert_eq!(
        command_from_glow(GLOW_COMMAND_GET_DIRECTORY, vec![], 0xFF, 0),
        Command::GetDirectory { path: vec![], dir_field_mask: Some(0xFF) }
    );
    assert_eq!(
        command_from_glow(GLOW_COMMAND_SUBSCRIBE, vec![3], 5, 0),
        Command::Subscribe { path: vec![3] }
    );
    assert_eq!(
        command_from_glow(GLOW_COMMAND_UNSUBSCRIBE, vec![4], 0, 0),
        Command::Unsubscribe { path: vec![4] }
    );
    assert_eq!(
        command_from_glow(GLOW_COMMAND_INVOKE, vec![2, 7], 0, 41),
        Command::Invoke { path: vec![2, 7], invocation_id: 41 }
    );
    assert_eq!(GLOW_COMMAND_INVOKE, 33);
    assert_eq!(command_from_glow(34, vec![4], 0, 0), Command::Other);
    assert_eq!(command_from_glow(0, vec![4], 0, 0), Command::Other);
}

#[test]
fn frame_actions() {
    let keep_alive = decode_single_frame(&encode_keep_alive_request()).unwrap();
    match frame_action(&keep_alive) {
        FrameAction::Reply(bytes) => assert_eq!(bytes, encode_keep_alive_response()),
        other => panic!("unexpected {:?}", other),
    }
    let ember = decode_single_frame(&encode_ember_frame(b"x")).unwrap();
    assert!(matches!(frame_action(&ember), FrameAction::Dispatch));
    let response = decode_single_frame(&encode_keep_alive_response()).unwrap();
    assert!(matches!(frame_action(&response), FrameAction::Ignore));
}

#[test]
fn a_parameter_has_a_value_unless_it_holds_none() {
    let mut info = rusty_embers::glow::ParameterInfo {
        identifier: "Gain".to_string(),
        description: None,
        value: GlowValue::NoValue,
        access: Access::Read,
        parameter_type: ParameterType::NoType,
    };
    assert!(!info.has_value());
    info.value = GlowValue::Integer(0);
    assert!(info.has_value());
    info.value = GlowValue::Boolean(false);
    assert!(info.has_value());
}

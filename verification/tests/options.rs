use bash_builtins::args::Args;
use bash_builtins::convert::DecodedValue;
use bash_builtins::convert::ValueKind;
use bash_builtins::errors::HostAction;
use bash_builtins::options::OptionDescriptor;
use bash_builtins::options::OptionSchema;
use bash_builtins::options::OptionStep;
use bash_builtins::options::PayloadKind;
use bash_builtins::options::ScanEvent;
use bash_builtins::options::SchemaError;

fn descriptor(flag: u8, payload: PayloadKind, target: ValueKind) -> OptionDescriptor {
    OptionDescriptor { flag, payload, target }
}

fn sample_schema() -> OptionSchema {
    OptionSchema::build(vec![
        descriptor(b'a', PayloadKind::NoPayload, ValueKind::RawBytes),
        descriptor(b'b', PayloadKind::RequiredPayload, ValueKind::SignedInt),
        descriptor(b'c', PayloadKind::RequiredPayload, ValueKind::Text),
        descriptor(b'd', PayloadKind::RequiredPayload, ValueKind::PathName),
        descriptor(b'e', PayloadKind::RequiredPayload, ValueKind::Text),
        descriptor(b'f', PayloadKind::OptionalPayload, ValueKind::Text),
        descriptor(b'g', PayloadKind::RequiredPayload, ValueKind::PathName),
    ])
    .unwrap()
}

#[test]
fn parse_options() {
    let schema = sample_schema();

    assert_eq!(schema.parser_cstring(), b"ab:c:d:e:f;g:\0".to_vec());

    let mut args = Args::new(Vec::new());

    // Valid option.
    let step = schema.next_option(
        &mut args,
        ScanEvent::Flag { code: b'c', payload: Some(b"0123".to_vec()) },
    );
    match step {
        OptionStep::Matched { index, value } => {
            assert_eq!(index, 2);
            assert!(matches!(value, DecodedValue::Text(t) if t == b"0123".to_vec()));
        }
        _ => panic!("expected a match"),
    }
    assert_eq!(args.drain_actions(), Vec::new());

    // Invalid option.
    let step = schema.next_option(&mut args, ScanEvent::Flag { code: b'z', payload: None });
    assert!(matches!(step, OptionStep::Rejected));
    assert_eq!(args.drain_actions(), vec![HostAction::DisplayUsage]);

    // Missing argument.
    let step = schema.next_option(&mut args, ScanEvent::Flag { code: b'e', payload: None });
    assert!(matches!(step, OptionStep::Rejected));
    assert_eq!(args.drain_actions(), vec![HostAction::MissingArgument(b'e')]);

    // Non-required arguments.
    let step = schema.next_option(&mut args, ScanEvent::Flag { code: b'f', payload: None });
    match step {
        OptionStep::Matched { index, value } => {
            assert_eq!(index, 5);
            assert!(matches!(value, DecodedValue::Absent));
        }
        _ => panic!("expected a match"),
    }
    assert_eq!(args.drain_actions(), Vec::new());

    let step = schema.next_option(
        &mut args,
        ScanEvent::Flag { code: b'f', payload: Some(b"abc".to_vec()) },
    );
    match step {
        OptionStep::Matched { index, value } => {
            assert_eq!(index, 5);
            assert!(matches!(value, DecodedValue::Text(t) if t == b"abc".to_vec()));
        }
        _ => panic!("expected a match"),
    }
    assert_eq!(args.drain_actions(), Vec::new());
}

#[test]
fn parser_string_length_sums_descriptors() {
    let schema = sample_schema();
    // One byte per flag plus one marker per payload-carrying option.
    assert_eq!(schema.parser_string().len(), 7 + 6);

    let bare = OptionSchema::build(vec![
        descriptor(b'x', PayloadKind::NoPayload, ValueKind::RawBytes),
        descriptor(b'y', PayloadKind::NoPayload, ValueKind::RawBytes),
    ])
    .unwrap();
    assert_eq!(bare.parser_string().len(), 2);
    assert_eq!(bare.parser_string(), b"xy".to_vec());
}

#[test]
fn build_rejects_duplicate_flags() {
    let r = OptionSchema::build(vec![
        descriptor(b'a', PayloadKind::NoPayload, ValueKind::RawBytes),
        descriptor(b'a', PayloadKind::RequiredPayload, ValueKind::Text),
    ]);
    assert!(matches!(r, Err(SchemaError::DuplicateFlag(b'a'))));
}

#[test]
fn build_rejects_non_alphanumeric_flags() {
    let r = OptionSchema::build(vec![descriptor(
        b'-',
        PayloadKind::NoPayload,
        ValueKind::RawBytes,
    )]);
    assert!(matches!(r, Err(SchemaError::NotAlphanumeric(b'-'))));
}

#[test]
fn missing_required_payload_notifies_exactly_once() {
    let schema = sample_schema();
    let mut args = Args::new(Vec::new());
    let step = schema.next_option(&mut args, ScanEvent::Flag { code: b'e', payload: None });
    assert!(matches!(step, OptionStep::Rejected));
    let actions = args.drain_actions();
    assert_eq!(actions.len(), 1);
    assert_eq!(actions[0], HostAction::MissingArgument(b'e'));
}

#[test]
fn optional_payload_absent_is_silent() {
    let schema = sample_schema();
    let mut args = Args::new(Vec::new());
    let step = schema.next_option(&mut args, ScanEvent::Flag { code: b'f', payload: None });
    assert!(matches!(
        step,
        OptionStep::Matched { index: 5, value: DecodedValue::Absent }
    ));
    assert_eq!(args.drain_actions().len(), 0);
}

#[test]
fn help_event_displays_help() {
    let schema = sample_schema();
    let mut args = Args::new(Vec::new());
    let step = schema.next_option(&mut args, ScanEvent::HelpRequested);
    assert!(matches!(step, OptionStep::Rejected));
    assert_eq!(args.drain_actions(), vec![HostAction::DisplayHelp]);
}

#[test]
fn end_event_advances_cursor_to_free_arguments() {
    let schema = sample_schema();
    let mut args = Args::new(vec![b"-a".to_vec(), b"free".to_vec()]);
    args.options();
    let step = schema.next_option(&mut args, ScanEvent::End { next: 1 });
    assert!(matches!(step, OptionStep::Finished));
    let rest = args.raw_arguments();
    assert_eq!(rest, vec![b"free".to_vec()]);
}

#[test]
fn payload_conversion_failure_is_reported() {
    let schema = sample_schema();
    let mut args = Args::new(Vec::new());
    let step = schema.next_option(
        &mut args,
        ScanEvent::Flag { code: b'b', payload: Some(b"12x".to_vec()) },
    );
    assert!(matches!(step, OptionStep::Rejected));
    assert_eq!(args.drain_actions(), vec![HostAction::ConversionError(b'b')]);
}

#[test]
fn signed_payload_decodes_to_value() {
    let schema = sample_schema();
    let mut args = Args::new(Vec::new());
    let step = schema.next_option(
        &mut args,
        ScanEvent::Flag { code: b'b', payload: Some(b"-100".to_vec()) },
    );
    match step {
        OptionStep::Matched { index, value } => {
            assert_eq!(index, 1);
            assert!(matches!(value, DecodedValue::SignedInt(-100)));
        }
        _ => panic!("expected a match"),
    }
}

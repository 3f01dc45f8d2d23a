use sfsm::parsers::{DefinitionError, ValidationError};
use sfsm::trace::format_log;
use sfsm::types::{Machine, Message, MessageDir, Messages, Mode, State, TraitDefinitions, TryMachine};

fn bytes(text: &str) -> Vec<u8> {
    text.as_bytes().to_vec()
}

#[test]
fn parses_a_simple_machine() {
    let text = bytes("Hiker, Hike<Up>, [Hike<Up>, Picknic], [Hike<Up> => Picknic]");
    let m = Machine::parse(&text).unwrap();
    assert_eq!(m.name, bytes("Hiker"));
    assert_eq!(m.enum_name, bytes("HikerStates"));
    assert_eq!(m.init, 0);
    assert_eq!(m.states.len(), 2);
    assert_eq!(m.states[0].enum_name, bytes("HikeUpState"));
    assert_eq!(m.states[1].enum_name, bytes("PicknicState"));
    assert_eq!(m.states[0].transits, vec![1]);
    assert!(m.states[1].transits.is_empty());
    assert_eq!(m.mode, Mode::NonFallible);
    assert_eq!(m.error_state, None);
    assert_eq!(m.custom_error, None);
    assert_eq!(m.sfsm_error, bytes("SfsmError"));
}

#[test]
fn generic_instantiations_get_distinct_tags() {
    let text = bytes(
        "Rocket, Action<Ascent>, [Action<Ascent>, Action<Descent>], \
         [Action<Ascent> => Action<Descent>, Action<Descent> => Action<Ascent>]",
    );
    let m = Machine::parse(&text).unwrap();
    assert_eq!(m.states[0].enum_name, bytes("ActionAscentState"));
    assert_eq!(m.states[1].enum_name, bytes("ActionDescentState"));
    assert_eq!(m.states[0].transits, vec![1]);
    assert_eq!(m.states[1].transits, vec![0]);
}

#[test]
fn dispatch_tag_pascal_cases_type_arguments() {
    let tag = State::state_to_enum(&bytes("Worker"), &Some(bytes("<mail_room>")));
    assert_eq!(tag, bytes("WorkerMailRoomState"));
    let plain = State::state_to_enum(&bytes("Idle"), &None);
    assert_eq!(plain, bytes("IdleState"));
    // Punctuation is stripped before casing, so the comma does not
    // create a word boundary.
    let multi = State::state_to_enum(&bytes("Pair"), &Some(bytes("<up, down>")));
    assert_eq!(multi, bytes("PairUpdownState"));
}

#[test]
fn empty_transition_list_is_accepted() {
    let text = bytes("Solo, Only, [Only], []");
    let m = Machine::parse(&text).unwrap();
    assert_eq!(m.states.len(), 1);
    assert!(m.states[0].transits.is_empty());
}

#[test]
fn unknown_initial_state_is_a_validation_error() {
    let text = bytes("Hiker, Resting, [Walking], []");
    match Machine::parse(&text) {
        Err(DefinitionError::Validation(ValidationError::UnknownInitialState)) => {}
        other => panic!("expected unknown initial state, got {:?}", other),
    }
}

#[test]
fn unknown_transition_destination_is_a_validation_error() {
    let text = bytes("Hiker, Walking, [Walking], [Walking => Resting]");
    match Machine::parse(&text) {
        Err(DefinitionError::Validation(ValidationError::UnknownTransitionDestination {
            index,
        })) => assert_eq!(index, 0),
        other => panic!("expected unknown destination, got {:?}", other),
    }
}

#[test]
fn unknown_transition_source_is_a_validation_error() {
    let text = bytes("Hiker, Walking, [Walking], [Resting => Walking]");
    match Machine::parse(&text) {
        Err(DefinitionError::Validation(ValidationError::UnknownTransitionSource { index })) => {
            assert_eq!(index, 0)
        }
        other => panic!("expected unknown source, got {:?}", other),
    }
}

#[test]
fn duplicate_dispatch_tags_are_a_validation_error() {
    let text = bytes("Hiker, Walking, [Walking, Walking], []");
    match Machine::parse(&text) {
        Err(DefinitionError::Validation(ValidationError::DuplicateStateTag { index })) => {
            assert_eq!(index, 1)
        }
        other => panic!("expected duplicate tag, got {:?}", other),
    }
}

#[test]
fn malformed_text_is_a_parse_error_with_offset() {
    let text = bytes("Hiker Walking, [Walking], []");
    match Machine::parse(&text) {
        Err(DefinitionError::Parse(e)) => assert_eq!(e.pos, 6),
        other => panic!("expected parse error, got {:?}", other),
    }
}

#[test]
fn trailing_garbage_is_a_parse_error() {
    let text = bytes("Hiker, Walking, [Walking], [] extra");
    assert!(matches!(
        Machine::parse(&text),
        Err(DefinitionError::Parse(_))
    ));
}

#[test]
fn parses_a_fallible_machine() {
    let text = bytes(
        "Rocket, WaitForLaunch, [WaitForLaunch, Ascent, HandleMalfunction], \
         [WaitForLaunch => Ascent, HandleMalfunction => WaitForLaunch], \
         RocketMalfunction, HandleMalfunction",
    );
    let tm = TryMachine::parse(&text).unwrap();
    let m = &tm.state_machine;
    assert_eq!(m.mode, Mode::Fallible);
    assert_eq!(m.error_state, Some(2));
    assert_eq!(m.init, 0);
    assert_eq!(m.sfsm_error, bytes("ExtendedSfsmError"));
    assert_eq!(m.custom_error, Some(bytes("<RocketMalfunction>")));
    assert_eq!(m.states[0].transits, vec![1]);
    assert_eq!(m.states[2].transits, vec![0]);
}

#[test]
fn unknown_error_state_is_a_validation_error() {
    let text = bytes("Rocket, Up, [Up], [], Malfunction, Down");
    match TryMachine::parse(&text) {
        Err(DefinitionError::Validation(ValidationError::UnknownErrorState)) => {}
        other => panic!("expected unknown error state, got {:?}", other),
    }
}

#[test]
fn parses_messages_with_both_directions() {
    let text = bytes("Rocket, [Command<Launch> -> Ascent, Status <- Ascent]");
    let ms = Messages::parse(&text).unwrap();
    assert_eq!(ms.name, bytes("Rocket"));
    assert_eq!(ms.enum_name, bytes("RocketStates"));
    assert_eq!(ms.messages.len(), 2);
    match &ms.messages[0].message {
        MessageDir::Push(payload) => assert_eq!(payload.name, bytes("Command")),
        MessageDir::Poll(_) => panic!("first channel should push"),
    }
    match &ms.messages[1].message {
        MessageDir::Poll(payload) => assert_eq!(payload.name, bytes("Status")),
        MessageDir::Push(_) => panic!("second channel should poll"),
    }
}

#[test]
fn messages_validate_against_their_machine() {
    let machine_text = bytes("Rocket, Ascent, [Ascent, Descent], [Ascent => Descent]");
    let machine = Machine::parse(&machine_text).unwrap();
    let ms = Messages::parse(&bytes("Rocket, [Status <- Ascent]")).unwrap();
    let idxs = ms.validate(&machine).unwrap();
    assert_eq!(idxs, vec![0]);
}

#[test]
fn messages_for_another_machine_are_rejected() {
    let machine = Machine::parse(&bytes("Rocket, Ascent, [Ascent], []")).unwrap();
    let ms = Messages::parse(&bytes("Boat, [Status <- Ascent]")).unwrap();
    assert_eq!(ms.validate(&machine), Err(ValidationError::MachineNameMismatch));
}

#[test]
fn messages_for_undeclared_states_are_rejected() {
    let machine = Machine::parse(&bytes("Rocket, Ascent, [Ascent], []")).unwrap();
    let ms = Messages::parse(&bytes("Rocket, [Status <- Descent]")).unwrap();
    assert_eq!(
        ms.validate(&machine),
        Err(ValidationError::UnknownMessageState { index: 0 })
    );
}

#[test]
fn lowering_to_graph_keeps_edges_in_order() {
    let text = bytes("Trip, A, [A, B, C], [A => B, A => C, B => C]");
    let m = Machine::parse(&text).unwrap();
    let g = m.to_graph();
    assert_eq!(g.init, 0);
    assert_eq!(g.edges.len(), 3);
    assert_eq!(g.edges[0], vec![1, 2]);
    assert_eq!(g.edges[1], vec![2]);
    assert!(g.edges[2].is_empty());
}

#[test]
fn trait_bindings_follow_the_mode() {
    let plain = TraitDefinitions::for_mode(Mode::NonFallible);
    assert_eq!(plain.state_trait, bytes("State"));
    assert_eq!(plain.transit_trait, bytes("Transition"));
    assert_eq!(plain.entry, bytes("entry"));
    assert_eq!(plain.exit, bytes("exit"));
    assert_eq!(plain.execute, bytes("execute"));
    assert_eq!(plain.action, bytes("action"));
    let fallible = TraitDefinitions::for_mode(Mode::Fallible);
    assert_eq!(fallible.state_trait, bytes("TryState"));
    assert_eq!(fallible.transit_trait, bytes("TryTransition"));
    assert_eq!(fallible.entry, bytes("try_entry"));
    assert_eq!(fallible.exit, bytes("try_exit"));
    assert_eq!(fallible.execute, bytes("try_execute"));
    assert_eq!(fallible.action, bytes("try_action"));
}

#[test]
fn name_type_rendering_keeps_the_written_form() {
    let st = State {
        name: bytes("Hike"),
        generics: Some(bytes("<Up>")),
        enum_name: bytes("HikeUpState"),
        transits: vec![],
    };
    assert_eq!(st.get_name_type(), bytes("Hike<Up>"));
    let msg = Message { name: bytes("Command"), generics: Some(bytes("<Launch>")) };
    assert_eq!(msg.get_name_type(), bytes("Command<Launch>"));
}

#[test]
fn format_log_with_and_without_detail() {
    assert_eq!(
        format_log("Rocket", "Start", "WaitForLaunch"),
        "Rocket: Start - WaitForLaunch"
    );
    assert_eq!(format_log("Rocket", "Stop", ""), "Rocket: Stop");
}

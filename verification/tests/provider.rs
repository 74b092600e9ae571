use rusty_embers::glow::{Access, Command, GlowValue, ParameterType};
use rusty_embers::handler::Handler;
use rusty_embers::provider::{Provider, Response};
use rusty_embers::tree::CartTreeBuilder;
use rusty_embers::Error;
use std::sync::atomic::{AtomicUsize, Ordering};
use std::sync::Arc;

struct TestHandler {
    triggers: AtomicUsize,
}

impl Handler for TestHandler {
    fn on_value_change(&self, _path: &[u32], value: &GlowValue) -> rusty_embers::Result<()> {
        if matches!(value, GlowValue::Boolean(true)) {
            self.triggers.fetch_add(1, Ordering::SeqCst);
        }
        Ok(())
    }
}

fn test_provider() -> Provider<TestHandler> {
    let mut builder = CartTreeBuilder::new("Test", 1);
    builder.add_cart(10, "Cart 1", "Intro");
    builder.add_global_stop(100);
    let tree = builder.build();
    Provider::new(tree, TestHandler { triggers: AtomicUsize::new(0) })
}

fn node_identifier(r: &Response) -> (&[u32], &str) {
    match r {
        Response::Node { path, info } => (path, &info.identifier),
        Response::Parameter { path, info } => panic!("parameter {} at {:?}", info.identifier, path),
    }
}

fn parameter_of(r: &Response) -> (&[u32], &rusty_embers::glow::ParameterInfo) {
    match r {
        Response::Parameter { path, info } => (path, info),
        Response::Node { path, info } => panic!("node {} at {:?}", info.identifier, path),
    }
}

#[test]
fn get_directory_returns_qualified_elements() {
    let mut builder = CartTreeBuilder::new("Test", 1);
    builder.add_cart(10, "Cart 1", "Intro");
    let tree = builder.build();

    let handler = TestHandler { triggers: AtomicUsize::new(0) };
    let mut provider = Provider::new(tree, handler);
    let mut session = provider.session();

    // A GetDirectory command for the root node.
    let command = Command::GetDirectory { path: vec![], dir_field_mask: None };

    let responses = session.handle_command(&mut provider, &command).unwrap();
    assert!(!responses.is_empty(), "GetDirectory should return responses");

    // The root node is reported at the empty path.
    let (path, identifier) = node_identifier(&responses[0]);
    assert!(path.is_empty());
    assert_eq!(identifier, "Test");
}

#[test]
fn get_directory_of_a_node_lists_its_children() {
    let mut provider = test_provider();
    let mut session = provider.session();
    let command = Command::GetDirectory { path: vec![1], dir_field_mask: Some(-1) };
    let responses = session.handle_command(&mut provider, &command).unwrap();
    assert_eq!(responses.len(), 2);
    assert_eq!(node_identifier(&responses[0]), (&[1u32, 10][..], "Cart 1"));
    let (path, info) = parameter_of(&responses[1]);
    assert_eq!(path, [1, 100]);
    assert_eq!(info.identifier, "StopAll");

    let command = Command::GetDirectory { path: vec![1, 10], dir_field_mask: None };
    let responses = session.handle_command(&mut provider, &command).unwrap();
    let names: Vec<&str> = responses.iter().map(|r| parameter_of(r).1.identifier.as_str()).collect();
    assert_eq!(names, ["Name", "Trigger", "Status"]);
    assert_eq!(parameter_of(&responses[0]).1.value, GlowValue::String("Intro".to_string()));
    assert_eq!(parameter_of(&responses[2]).0, [1, 10, 3]);
}

#[test]
fn get_directory_of_a_parameter_or_missing_path() {
    let mut provider = test_provider();
    let mut session = provider.session();
    let command = Command::GetDirectory { path: vec![1, 10, 2], dir_field_mask: None };
    let responses = session.handle_command(&mut provider, &command).unwrap();
    assert_eq!(responses.len(), 1);
    let (path, info) = parameter_of(&responses[0]);
    assert_eq!(path, [1, 10, 2]);
    assert_eq!(info.identifier, "Trigger");
    assert_eq!(info.access, Access::ReadWrite);
    assert_eq!(info.parameter_type, ParameterType::Boolean);

    let command = Command::GetDirectory { path: vec![7], dir_field_mask: None };
    assert!(session.handle_command(&mut provider, &command).unwrap().is_empty());
}

#[test]
fn subscribe_reports_the_element_and_unsubscribe_nothing() {
    let mut provider = test_provider();
    let mut session = provider.session();
    let responses = session
        .handle_command(&mut provider, &Command::Subscribe { path: vec![1, 10, 3] })
        .unwrap();
    assert_eq!(responses.len(), 1);
    assert_eq!(parameter_of(&responses[0]).1.identifier, "Status");
    // Subscribing twice is harmless.
    let again = session
        .handle_command(&mut provider, &Command::Subscribe { path: vec![1, 10, 3] })
        .unwrap();
    assert_eq!(again.len(), 1);
    let responses = session
        .handle_command(&mut provider, &Command::Unsubscribe { path: vec![1, 10, 3] })
        .unwrap();
    assert!(responses.is_empty());
    let responses = session.handle_command(&mut provider, &Command::Subscribe { path: vec![9] }).unwrap();
    assert!(responses.is_empty());
}

#[test]
fn pulse_write_reports_the_parameter() {
    let mut provider = test_provider();
    let mut session = provider.session();
    let command = Command::SetValue { path: vec![1, 10, 2], value: GlowValue::Boolean(true) };
    let responses = session.handle_command(&mut provider, &command).unwrap();
    assert_eq!(responses.len(), 1);
    let (path, info) = parameter_of(&responses[0]);
    assert_eq!(path, [1, 10, 2]);
    // The pulse is reported as reset.
    assert_eq!(info.value, GlowValue::Boolean(false));

    // Writing false, or writing a read-only parameter, is answered with nothing.
    let command = Command::SetValue { path: vec![1, 10, 2], value: GlowValue::Boolean(false) };
    assert!(session.handle_command(&mut provider, &command).unwrap().is_empty());
    let command = Command::SetValue { path: vec![1, 10, 3], value: GlowValue::Boolean(true) };
    assert!(session.handle_command(&mut provider, &command).unwrap().is_empty());
}

struct FailingHandler;

impl Handler for FailingHandler {
    fn on_value_change(&self, _path: &[u32], _value: &GlowValue) -> rusty_embers::Result<()> {
        Err(Error::Glow("rejected".to_string()))
    }

    fn on_invoke(&self, _path: &[u32], args: &[GlowValue]) -> rusty_embers::Result<Vec<GlowValue>> {
        assert!(args.is_empty());
        Err(Error::Glow("no functions".to_string()))
    }
}

#[test]
fn handler_errors_are_passed_on() {
    let mut builder = CartTreeBuilder::new("Test", 1);
    builder.add_cart(10, "Cart 1", "Intro");
    let mut provider = Provider::new(builder.build(), FailingHandler);
    let mut session = provider.session();
    let command = Command::SetValue { path: vec![1, 10, 2], value: GlowValue::Boolean(true) };
    match session.handle_command(&mut provider, &command) {
        Err(Error::Glow(m)) => assert_eq!(m, "rejected"),
        other => panic!("unexpected {:?}", other),
    }
    let command = Command::Invoke { path: vec![1, 5], invocation_id: 3 };
    match session.handle_command(&mut provider, &command) {
        Err(Error::Glow(m)) => assert_eq!(m, "no functions"),
        other => panic!("unexpected {:?}", other),
    }
}

#[test]
fn invoke_and_other_commands_answer_nothing() {
    let mut provider = test_provider();
    let mut session = provider.session();
    let command = Command::Invoke { path: vec![1, 5], invocation_id: 3 };
    assert!(session.handle_command(&mut provider, &command).unwrap().is_empty());
    assert!(session.handle_command(&mut provider, &Command::Other).unwrap().is_empty());
}

#[test]
fn refresh_with_a_silent_handler_keeps_values() {
    let mut provider = test_provider();
    let mut session = provider.session();
    let command = Command::SetValue { path: vec![1, 10, 2], value: GlowValue::Boolean(true) };
    session.handle_command(&mut provider, &command).unwrap();
    session.handle_command(&mut provider, &command).unwrap();
    assert!(provider.refresh().is_ok());
    let responses = session
        .handle_command(&mut provider, &Command::Subscribe { path: vec![1, 10, 2] })
        .unwrap();
    assert_eq!(parameter_of(&responses[0]).1.value, GlowValue::Boolean(false));
}

struct LatchedHandler {
    writes: Arc<AtomicUsize>,
}

impl Handler for LatchedHandler {
    fn get_value(&self, path: &[u32]) -> Option<GlowValue> {
        if path == [1, 10, 2] {
            Some(GlowValue::Boolean(true))
        } else if path == [1, 10, 3] {
            Some(GlowValue::String("playing".to_string()))
        } else {
            None
        }
    }

    fn on_value_change(&self, path: &[u32], value: &GlowValue) -> rusty_embers::Result<()> {
        assert_eq!(path, [1, 10, 2]);
        assert_eq!(value, &GlowValue::Boolean(true));
        self.writes.fetch_add(1, Ordering::SeqCst);
        Ok(())
    }
}

#[test]
fn pulse_write_resets_a_parameter_that_holds_true() {
    let mut builder = CartTreeBuilder::new("Test", 1);
    builder.add_cart(10, "Cart 1", "Intro");
    let writes = Arc::new(AtomicUsize::new(0));
    let mut provider = Provider::new(builder.build(), LatchedHandler { writes: writes.clone() });
    let mut session = provider.session();
    provider.refresh().unwrap();
    let subscribe = Command::Subscribe { path: vec![1, 10, 2] };
    let responses = session.handle_command(&mut provider, &subscribe).unwrap();
    assert_eq!(parameter_of(&responses[0]).1.value, GlowValue::Boolean(true));
    let responses = session.handle_command(&mut provider, &Command::Subscribe { path: vec![1, 10, 3] }).unwrap();
    assert_eq!(parameter_of(&responses[0]).1.value, GlowValue::String("playing".to_string()));

    let command = Command::SetValue { path: vec![1, 10, 2], value: GlowValue::Boolean(true) };
    let responses = session.handle_command(&mut provider, &command).unwrap();
    assert_eq!(responses.len(), 1);
    let (path, info) = parameter_of(&responses[0]);
    assert_eq!(path, [1, 10, 2]);
    assert_eq!(info.value, GlowValue::Boolean(false));
    assert_eq!(writes.load(Ordering::SeqCst), 1);
    let responses = session.handle_command(&mut provider, &subscribe).unwrap();
    assert_eq!(parameter_of(&responses[0]).1.value, GlowValue::Boolean(false));
}

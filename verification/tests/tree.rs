use rusty_embers::glow::{Access, GlowValue, ParameterType};
use rusty_embers::handler::Handler;
use rusty_embers::tree::{refresh_tree_values, CartTreeBuilder, Node, Parameter, Tree, TreeElement};

fn sample_tree() -> Tree {
    let mut tree = Tree::new();
    let mut root = Node {
        number: 1,
        identifier: "Root".to_string(),
        description: None,
        children: Vec::new(),
    };
    root.children.push(TreeElement::Parameter(Parameter {
        number: 2,
        identifier: "Param".to_string(),
        description: None,
        value: GlowValue::Integer(42),
        access: Access::Read,
        parameter_type: ParameterType::Integer,
    }));
    tree.add(TreeElement::Node(root));
    tree
}

#[test]
fn find_element_by_path() {
    let tree = sample_tree();
    assert!(tree.find(&[1]).is_some());
    assert!(tree.find(&[1, 2]).is_some());
    assert!(tree.find(&[1, 3]).is_none());
}

#[test]
fn cart_tree_builder() {
    let mut builder = CartTreeBuilder::new("Callie", 1);
    builder.add_cart(10, "Cart 1", "Intro");
    builder.add_global_stop(100);
    let tree = builder.build();

    assert!(tree.find(&[1, 10, 2]).is_some());
    assert!(tree.find(&[1, 100]).is_some());
}

#[test]
fn find_returns_the_element_itself() {
    let tree = sample_tree();
    assert_eq!(tree.find(&[1]).unwrap().identifier(), "Root");
    let p = tree.find(&[1, 2]).unwrap();
    assert_eq!(p.identifier(), "Param");
    assert_eq!(p.number(), 2);
    assert!(tree.find(&[]).is_none());
    assert!(tree.find(&[2]).is_none());
    // A path may not go on below a parameter.
    assert!(tree.find(&[1, 2, 1]).is_none());
}

#[test]
fn find_takes_the_first_of_equal_numbers() {
    let mut tree = Tree::new();
    for id in ["First", "Second"] {
        tree.add(TreeElement::Node(Node {
            number: 5,
            identifier: id.to_string(),
            description: None,
            children: Vec::new(),
        }));
    }
    assert_eq!(tree.find(&[5]).unwrap().identifier(), "First");
}

#[test]
fn cart_tree_layout() {
    let mut builder = CartTreeBuilder::new("Callie", 1);
    builder.add_cart(10, "Cart 1", "Intro");
    builder.add_cart(11, "Cart 2", "Sting");
    builder.add_global_stop(100);
    builder.add_global_now_playing(101);
    let tree = builder.build();

    assert_eq!(tree.root.len(), 1);
    assert_eq!(tree.find(&[1]).unwrap().identifier(), "Callie");
    assert_eq!(tree.find(&[1, 11]).unwrap().identifier(), "Cart 2");
    match tree.find(&[1, 11, 1]).unwrap() {
        TreeElement::Parameter(p) => {
            assert_eq!(p.identifier, "Name");
            assert_eq!(p.description.as_deref(), Some("Cart name"));
            assert_eq!(p.value, GlowValue::String("Sting".to_string()));
            assert_eq!(p.access, Access::Read);
            assert_eq!(p.parameter_type, ParameterType::String);
        }
        other => panic!("unexpected {:?}", other),
    }
    match tree.find(&[1, 10, 2]).unwrap() {
        TreeElement::Parameter(p) => {
            assert_eq!(p.identifier, "Trigger");
            assert_eq!(p.value, GlowValue::Boolean(false));
            assert_eq!(p.access, Access::ReadWrite);
        }
        other => panic!("unexpected {:?}", other),
    }
    match tree.find(&[1, 10, 3]).unwrap() {
        TreeElement::Parameter(p) => {
            assert_eq!(p.identifier, "Status");
            assert_eq!(p.value, GlowValue::Integer(0));
        }
        other => panic!("unexpected {:?}", other),
    }
    match tree.find(&[1, 100]).unwrap() {
        TreeElement::Parameter(p) => {
            assert_eq!(p.identifier, "StopAll");
            assert_eq!(p.description.as_deref(), Some("Pulse to stop all"));
        }
        other => panic!("unexpected {:?}", other),
    }
    match tree.find(&[1, 101]).unwrap() {
        TreeElement::Parameter(p) => {
            assert_eq!(p.identifier, "NowPlaying");
            assert_eq!(p.value, GlowValue::String(String::new()));
        }
        other => panic!("unexpected {:?}", other),
    }
}

#[test]
fn find_parameter_mut_changes_only_that_parameter() {
    let mut builder = CartTreeBuilder::new("Callie", 1);
    builder.add_cart(10, "Cart 1", "Intro");
    let mut tree = builder.build();
    {
        let p = tree.find_parameter_mut(&[1, 10, 3]).unwrap();
        p.value = GlowValue::Integer(7);
    }
    match tree.find(&[1, 10, 3]).unwrap() {
        TreeElement::Parameter(p) => assert_eq!(p.value, GlowValue::Integer(7)),
        other => panic!("unexpected {:?}", other),
    }
    match tree.find(&[1, 10, 2]).unwrap() {
        TreeElement::Parameter(p) => assert_eq!(p.value, GlowValue::Boolean(false)),
        other => panic!("unexpected {:?}", other),
    }
    assert!(tree.find_parameter_mut(&[1, 10]).is_none());
    assert!(tree.find_parameter_mut(&[1, 99]).is_none());
    assert!(tree.find_parameter_mut(&[]).is_none());
}

struct StatusHandler;

impl Handler for StatusHandler {
    fn get_value(&self, path: &[u32]) -> Option<GlowValue> {
        if path == [1, 10, 3] {
            Some(GlowValue::Integer(2))
        } else {
            None
        }
    }
}

#[test]
fn refresh_takes_reported_values() {
    let mut builder = CartTreeBuilder::new("Callie", 1);
    builder.add_cart(10, "Cart 1", "Intro");
    let mut tree = builder.build();
    refresh_tree_values(&mut tree, &StatusHandler);
    match tree.find(&[1, 10, 3]).unwrap() {
        TreeElement::Parameter(p) => assert_eq!(p.value, GlowValue::Integer(2)),
        other => panic!("unexpected {:?}", other),
    }
    match tree.find(&[1, 10, 1]).unwrap() {
        TreeElement::Parameter(p) => assert_eq!(p.value, GlowValue::String("Intro".to_string())),
        other => panic!("unexpected {:?}", other),
    }
}

#[test]
fn parameter_glow_info_and_refresh_value() {
    let mut p = Parameter {
        number: 4,
        identifier: "Level".to_string(),
        description: Some("Output level".to_string()),
        value: GlowValue::Real(1.5f64.to_bits()),
        access: Access::Write,
        parameter_type: ParameterType::Real,
    };
    let info = p.to_glow_info();
    assert_eq!(info.identifier, "Level");
    assert_eq!(info.description.as_deref(), Some("Output level"));
    assert_eq!(info.value, GlowValue::Real(1.5f64.to_bits()));
    assert_eq!(info.access, Access::Write);
    assert_eq!(info.parameter_type, ParameterType::Real);
    p.refresh_value(None);
    assert_eq!(p.value, GlowValue::Real(1.5f64.to_bits()));
    p.refresh_value(Some(GlowValue::OctetString(vec![1, 2])));
    assert_eq!(p.value, GlowValue::OctetString(vec![1, 2]));
}

#[test]
fn tree_clone_and_default() {
    let mut builder = CartTreeBuilder::new("Callie", 1);
    builder.add_cart(10, "Cart 1", "Intro");
    let tree = builder.build();
    let mut copy = tree.clone();
    copy.find_parameter_mut(&[1, 10, 3]).unwrap().value = GlowValue::Integer(9);
    match tree.find(&[1, 10, 3]).unwrap() {
        TreeElement::Parameter(p) => assert_eq!(p.value, GlowValue::Integer(0)),
        other => panic!("unexpected {:?}", other),
    }
    match copy.find(&[1, 10, 1]).unwrap() {
        TreeElement::Parameter(p) => assert_eq!(p.value, GlowValue::String("Intro".to_string())),
        other => panic!("unexpected {:?}", other),
    }
    assert!(Tree::default().root.is_empty());
}

//! The start tag of a routed element.

use xeibe::element::start_element;
use xeibe::ns;
use xeibe::reader::{GmlReader, XmlEvent};
use xeibe::route::{RouteNode, Step};
use xeibe::NamespaceContext;

const APP: &str = "http://example.com/app";

fn attrs_of(tag: &str) -> xeibe::reader::Attributes {
    let mut context = NamespaceContext::new();
    context.declare(Some("app"), APP);
    context.declare(Some("xlink"), ns::XLINK);
    context.declare(Some("xsi"), ns::XSI);
    let mut reader = GmlReader::new(tag.as_bytes(), &context, 0);
    match reader.next_event() {
        Ok(XmlEvent::Start { attrs, .. }) => attrs,
        _ => panic!("no start tag in {tag}"),
    }
}

fn node(anchor: Option<usize>, attributes: Vec<(&str, Option<&str>, u32)>) -> RouteNode<u32> {
    let mut node: RouteNode<u32> = RouteNode::new(Step::Any);
    node.anchor = anchor;
    for (local, ns, target) in attributes {
        node.attributes.push((Step::Name { ns: ns.map(|n| n.to_string()), local: local.to_string() }, target));
    }
    node
}

#[test]
fn anchors_are_counted_once_per_node() {
    let a = node(Some(0), vec![]);
    let b = node(Some(1), vec![]);
    let c = node(Some(0), vec![]);
    let nodes = vec![&a, &b, &c];
    let mut counts = vec![2u32, 0];
    let (nil, puts) = start_element(&nodes, &attrs_of("<app:x/>"), &mut counts, false);
    assert_eq!(counts, vec![4, 1]);
    assert!(!nil);
    assert!(puts.is_empty());
}

#[test]
fn the_last_xsi_nil_decides() {
    let n = node(None, vec![]);
    let nodes = vec![&n];
    let mut counts: Vec<u32> = vec![];
    assert!(start_element(&nodes, &attrs_of("<app:x xsi:nil=' true '/>"), &mut counts, false).0);
    assert!(start_element(&nodes, &attrs_of("<app:x xsi:nil='1'/>"), &mut counts, false).0);
    assert!(!start_element(&nodes, &attrs_of("<app:x xsi:nil='false'/>"), &mut counts, false).0);
    assert!(!start_element(&nodes, &attrs_of("<app:x nil='true'/>"), &mut counts, false).0);
}

#[test]
fn routed_attributes_go_to_their_targets_trimmed() {
    let a = node(None, vec![("code", None, 7), ("href", Some(ns::XLINK), 9)]);
    let b = node(None, vec![("code", None, 8)]);
    let nodes = vec![&a, &b];
    let mut counts: Vec<u32> = vec![];
    let attrs = attrs_of("<app:x code=' A1 ' other='z' xlink:href='#p7' xsi:type='t'/>");
    let (_, puts) = start_element(&nodes, &attrs, &mut counts, true);
    assert_eq!(puts, vec![(7, "A1".to_string()), (8, "A1".to_string()), (9, "p7".to_string())]);
    let (_, kept) = start_element(&nodes, &attrs, &mut counts, false);
    assert_eq!(kept[2], (9, "#p7".to_string()));
}

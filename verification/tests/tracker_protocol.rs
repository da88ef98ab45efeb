use enum_tracker::node::Node;
use enum_tracker::node::NodeState;
use enum_tracker::tracker::EnumTracker;

fn basic_tree() -> EnumTracker {
    EnumTracker {
        nodes: vec![
            Node {
                name: "enum1".to_string(),
                this: 0,
                index: 1,
                max_index: 1,
                children: vec![Some(1), Some(2)],
                state: NodeState::Completed,
                recursive_variants: vec![],
            },
            Node {
                name: "enum1child1".to_string(),
                this: 1,
                index: 0,
                max_index: 0,
                children: vec![None],
                state: NodeState::Completed,
                recursive_variants: vec![],
            },
            Node {
                name: "enum1child2".to_string(),
                this: 2,
                index: 0,
                max_index: 0,
                children: vec![Some(3)],
                state: NodeState::Completed,
                recursive_variants: vec![],
            },
            Node {
                name: "enum1child2child1".to_string(),
                this: 3,
                index: 0,
                max_index: 0,
                children: vec![None],
                state: NodeState::Completed,
                recursive_variants: vec![],
            },
        ],
        breadcrumbs: vec![],
    }
}

#[test]
fn test_enum_tracker_can_add_new_enum_with_children() {
    let mut tracker = EnumTracker::new();
    let trace = |tracker: &mut EnumTracker| {
        // first iteration
        tracker.open_node("enum1".to_string(), 1);
        assert_eq!(tracker.breadcrumbs.last().unwrap(), &0);
        tracker.open_node("enum1child1".to_string(), 0);
        assert_eq!(tracker.breadcrumbs.last().unwrap(), &1);
        assert_eq!(tracker.next_variant_index(), 0);
        tracker.close_node();
        tracker.close_node();

        println!("one: {:#?}", tracker);

        // second iteration which finishes Discovery
        tracker.open_node("enum1".to_string(), 1);
        assert_eq!(tracker.next_variant_index(), 1);
        tracker.open_node("enum1child2".to_string(), 0);
        assert_eq!(tracker.breadcrumbs.last().unwrap(), &2);
        assert_eq!(tracker.next_variant_index(), 0);
        tracker.open_node("enum1child2child1".to_string(), 0);
        assert_eq!(tracker.breadcrumbs.last().unwrap(), &3);
        tracker.close_node();
        tracker.close_node();
        tracker.close_node();

        println!("two: {:#?}", tracker);
        // everything is in Completion now
        tracker.open_node("enum1".to_string(), 1);
        tracker.open_node("enum1child1".to_string(), 0);
        assert_eq!(tracker.next_variant_index(), 0);
        tracker.close_node();
        tracker.close_node();

        tracker.open_node("enum1".to_string(), 1);
        assert_eq!(tracker.next_variant_index(), 1, "{:#?}", tracker);
        tracker.open_node("enum1child2".to_string(), 0);
        assert_eq!(tracker.next_variant_index(), 0);
        tracker.open_node("enum1child2child1".to_string(), 0);
        assert_eq!(tracker.breadcrumbs.last().unwrap(), &3);
        tracker.close_node();
        tracker.close_node();
        tracker.close_node();
    };

    // at the beginning we should have only the root node
    assert!(tracker.nodes.is_empty());
    trace(&mut tracker);

    assert_eq!(tracker.nodes, basic_tree().nodes, "{:#?}", tracker);
    // and our scope tracker is back at the beginning where we started
    assert!(tracker.breadcrumbs.is_empty());

    trace(&mut tracker);

    // if this passes then we know that simply walking the tree again didn't add duplicate nodes
    assert_eq!(tracker.nodes, basic_tree().nodes);
}

#[test]
fn test_enum_tracker_can_iterate_variants() {
    let mut tracker = EnumTracker::new();
    // add a node and one child on the first pass
    tracker.open_node("enum1".to_string(), 1);
    assert_eq!(tracker.next_variant_index(), 0);
    tracker.open_node("enum1child1".to_string(), 0);
    assert_eq!(tracker.next_variant_index(), 0);
    tracker.close_node();
    tracker.close_node();

    // second pass which adds another child
    tracker.open_node("enum1".to_string(), 1);
    assert_eq!(tracker.next_variant_index(), 1);
    tracker.open_node("enum1child2".to_string(), 0);
    assert_eq!(tracker.next_variant_index(), 0);
    tracker.close_node();
    tracker.close_node();

    assert!(!tracker.all_complete(), "{:#?}", tracker);

    // third pass which finishes up
    tracker.open_node("enum1".to_string(), 1);
    assert_eq!(tracker.next_variant_index(), 0);
    tracker.open_node("enum1child2".to_string(), 0);
    assert_eq!(tracker.next_variant_index(), 0);
    tracker.close_node();
    tracker.close_node();

    assert!(tracker.all_complete(), "{:#?}", tracker);
}

#[test]
fn test_enum_tracker_is_complete_when_no_enums_found() {
    let mut tracker = EnumTracker::new();
    assert!(tracker.all_complete());
}

#[test]
fn test_enum_tracker_handles_recursion() {
    let mut tracker = EnumTracker::new();
    tracker.open_node("enum1".to_string(), 1);
    assert_eq!(tracker.next_variant_index(), 0, "{:#?}", tracker);
    tracker.open_node("enum1child1".to_string(), 0);
    assert_eq!(tracker.next_variant_index(), 0, "{:#?}", tracker);
    tracker.close_node();
    tracker.close_node();

    // second iteration from the top, we mimick the second variant of enum1 being Box<Self>
    tracker.open_node("enum1".to_string(), 1);
    assert_eq!(tracker.next_variant_index(), 1, "{:#?}", tracker);
    assert_eq!(
        tracker
            .nodes
            .iter()
            .map(|n| &n.state)
            .collect::<Vec<&NodeState>>(),
        vec![&NodeState::Discovery, &NodeState::Completion],
        "{:#?}",
        tracker
    );
    // we're now in a recursive loop looking at Self
    tracker.open_node("enum1".to_string(), 1);
    assert_eq!(tracker.next_variant_index(), 0, "{:#?}", tracker);
    assert_eq!(
        tracker
            .nodes
            .iter()
            .map(|n| &n.state)
            .collect::<Vec<&NodeState>>(),
        vec![&NodeState::Completion, &NodeState::Completion],
        "{:#?}",
        tracker
    );
    // we get sent to look at enum1child1 in the Completion scan
    tracker.open_node("enum1child1".to_string(), 0);
    assert_eq!(tracker.next_variant_index(), 0, "{:#?}", tracker);
    tracker.close_node();
    assert_eq!(
        tracker
            .nodes
            .iter()
            .map(|n| &n.state)
            .collect::<Vec<&NodeState>>(),
        vec![&NodeState::Completion, &NodeState::Completed],
        "{:#?}",
        tracker
    );
    // we exit the loop because we looked at a variant other than Self
    tracker.close_node();

    tracker.close_node();
}

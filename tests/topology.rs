use topic_consumer::topology::{provision_plan, routing_key, SpecError, TopologyOp, TopologySpec};

fn names(v: &[&str]) -> Vec<String> {
    v.iter().map(|s| s.to_string()).collect()
}

fn bindings(ops: &[TopologyOp]) -> Vec<(String, String, String)> {
    ops.iter()
        .filter_map(|op| match op {
            TopologyOp::BindQueue { queue, exchange, routing_key } => {
                Some((queue.clone(), exchange.clone(), routing_key.clone()))
            }
            _ => None,
        })
        .collect()
}

#[test]
fn routing_key_appends_wildcard() {
    assert_eq!(routing_key("orders"), "orders.#");
    assert_eq!(routing_key(""), ".#");
}

#[test]
fn events_topology_binds_orders_and_shipping() {
    let spec = TopologySpec::new("events".to_string(), names(&["orders", "shipping"])).unwrap();
    let ops = provision_plan(&spec);
    assert_eq!(
        bindings(&ops),
        vec![
            ("orders".to_string(), "events".to_string(), "orders.#".to_string()),
            ("shipping".to_string(), "events".to_string(), "shipping.#".to_string()),
        ]
    );
}

#[test]
fn plan_declares_exchange_once_then_each_queue_in_order() {
    let spec = TopologySpec::new("events".to_string(), names(&["orders", "shipping", "billing"]))
        .unwrap();
    let ops = provision_plan(&spec);
    assert_eq!(ops.len(), 7);
    let exchanges = ops
        .iter()
        .filter(|op| matches!(op, TopologyOp::DeclareExchange { .. }))
        .count();
    assert_eq!(exchanges, 1);
    assert!(matches!(&ops[0], TopologyOp::DeclareExchange { name } if name == "events"));
    let declared: Vec<&str> = ops
        .iter()
        .filter_map(|op| match op {
            TopologyOp::DeclareQueue { name } => Some(name.as_str()),
            _ => None,
        })
        .collect();
    assert_eq!(declared, vec!["orders", "shipping", "billing"]);
    assert!(matches!(&ops[1], TopologyOp::DeclareQueue { name } if name == "orders"));
    assert!(matches!(&ops[2], TopologyOp::BindQueue { queue, .. } if queue == "orders"));
    for (q, _, k) in bindings(&ops) {
        assert_eq!(k, format!("{}.#", q));
    }
}

#[test]
fn plan_is_the_same_when_run_again() {
    let spec = TopologySpec::new("events".to_string(), names(&["a", "b"])).unwrap();
    let first = bindings(&provision_plan(&spec));
    let second = bindings(&provision_plan(&spec));
    assert_eq!(first, second);
    let mut all = first.clone();
    all.extend(second);
    all.sort();
    all.dedup();
    assert_eq!(all.len(), 2);
}

#[test]
fn resource_names_the_queue_of_a_failed_step() {
    let spec = TopologySpec::new("events".to_string(), names(&["orders"])).unwrap();
    let ops = provision_plan(&spec);
    assert_eq!(ops[0].resource(), "events");
    assert_eq!(ops[1].resource(), "orders");
    assert_eq!(ops[2].resource(), "orders");
}

#[test]
fn empty_queue_list_is_refused() {
    let r = TopologySpec::new("events".to_string(), Vec::new());
    assert_eq!(r.unwrap_err(), SpecError::NoQueues);
}

#[test]
fn empty_queue_name_is_refused_with_its_index() {
    let r = TopologySpec::new("events".to_string(), names(&["a", "", "a"]));
    assert_eq!(r.unwrap_err(), SpecError::EmptyQueueName { index: 1 });
}

#[test]
fn repeated_queue_name_is_refused_with_its_index() {
    let r = TopologySpec::new("events".to_string(), names(&["a", "b", "a"]));
    assert_eq!(
        r.unwrap_err(),
        SpecError::DuplicateQueue { index: 2, name: "a".to_string() }
    );
}

#[test]
fn valid_spec_keeps_exchange_and_queues() {
    let spec = TopologySpec::new("ex".to_string(), names(&["q1", "q2"])).unwrap();
    assert_eq!(spec.exchange(), "ex");
    assert_eq!(spec.queues(), &names(&["q1", "q2"]));
}

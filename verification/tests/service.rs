use overlay_sim::dht::base::DHTNode;
use overlay_sim::dht::knodetable::GenericNodeTable;
use overlay_sim::dht::service::copy_nodes;
use overlay_sim::dht::service::DHTLookup;
use overlay_sim::dht::service::DHTLookupReply;
use overlay_sim::dht::service::FindResult;
use overlay_sim::dht::service::GenDHT;
use overlay_sim::dht::service::LookupStep;
use overlay_sim::dht::service::Ping;
use overlay_sim::dht::service::TickAction;
use overlay_sim::dht::service::DHT;
use overlay_sim::dht::service::MAX_NODE_COUNT;
use overlay_sim::dht::KNodeTable;
use overlay_sim::node::Handled;
use overlay_sim::node::HelloNode;
use overlay_sim::node::HelloOutcome;
use overlay_sim::node::Node;
use overlay_sim::packet::Packet;
use overlay_sim::packet::PacketData;

fn known(id: u64, route: &[u64]) -> DHTNode {
    DHTNode { id, route: route.to_vec() }
}

fn ids(nodes: &[DHTNode]) -> Vec<u64> {
    nodes.iter().map(|n| n.id).collect()
}

fn table_ids(dht: &DHT) -> Vec<u64> {
    ids(&dht.table().find(&0, 4096))
}

#[test]
fn max_node_count_is_sixteen() {
    assert_eq!(MAX_NODE_COUNT, 16);
}

#[test]
fn new_service_knows_nobody() {
    let dht: DHT = GenDHT::new(42);
    assert_eq!(dht.node_id(), 42);
    assert!(!dht.clean_needed());
    assert_eq!(dht.table().buckets().len(), 64);
    assert!(table_ids(&dht).is_empty());
}

#[test]
fn on_ping_remembers_the_sender() {
    let mut dht: DHT = GenDHT::new(42);
    assert!(dht.on_ping(&known(7, &[7])));
    assert_eq!(table_ids(&dht), vec![7]);
}

#[test]
fn service_passes_over_its_own_id() {
    let mut dht: DHT = GenDHT::new(42);
    assert!(dht.on_ping(&known(42, &[1, 2])));
    dht.update(&known(42, &[]));
    assert!(table_ids(&dht).is_empty());
    assert!(!dht.clean_needed());
}

#[test]
fn on_find_node_answers_before_it_remembers() {
    let mut dht: DHT = GenDHT::new(0);
    dht.update(&known(0b1001, &[1]));
    dht.update(&known(0b0011, &[2]));
    let found = dht.on_find_node(&known(0b1000, &[3]), &0b1000);
    assert_eq!(ids(&found), vec![0b1001, 0b0011]);
    let again = dht.on_find_node(&known(0b1000, &[3]), &0b1000);
    assert_eq!(ids(&again), vec![0b1000, 0b1001, 0b0011]);
}

#[test]
fn on_find_node_hands_back_sixteen_at_most() {
    let mut dht: DHT = GenDHT::new(0);
    for id in 1..=40u64 {
        dht.update(&known(id, &[id]));
    }
    let found = dht.on_find_node(&known(50, &[50]), &0);
    assert_eq!(ids(&found), (1..=16u64).collect::<Vec<u64>>());
}

#[test]
fn on_find_value_without_value_gives_closest_nodes_with_sender() {
    let mut dht: DHT = GenDHT::new(0);
    dht.update(&known(0b0011, &[2]));
    match dht.on_find_value(&known(0b1000, &[3]), &0b1001) {
        FindResult::ClosestNodes(nodes) => assert_eq!(ids(&nodes), vec![0b1000, 0b0011]),
        other => panic!("unexpected answer {:?}", other),
    }
}

#[test]
fn refusal_by_full_bucket_asks_for_clean() {
    let mut dht: DHT = GenDHT::new(0);
    let top = 1u64 << 63;
    for k in 0..32u64 {
        dht.update(&known(top + k, &[k]));
        assert!(!dht.clean_needed());
    }
    dht.update(&known(top + 32, &[32]));
    assert!(dht.clean_needed());
    assert_eq!(table_ids(&dht).len(), 32);
    let popped = dht.clean();
    assert_eq!(ids(&popped), vec![top]);
    assert!(!dht.clean_needed());
    assert_eq!(table_ids(&dht).len(), 31);
    assert!(dht.clean().is_empty());
    assert_eq!(table_ids(&dht).len(), 31);
}

#[test]
fn table_trait_update_and_find() {
    let mut table = <KNodeTable as GenericNodeTable>::new(5);
    assert!(GenericNodeTable::update(&mut table, &known(4, &[4])));
    assert_eq!(ids(&GenericNodeTable::find(&table, &4, 1)), vec![4]);
    assert!(GenericNodeTable::pop_oldest(&mut table).is_empty());
}

#[test]
fn copy_nodes_copies() {
    let nodes = vec![known(1, &[2, 3]), known(4, &[])];
    let copy = copy_nodes(&nodes);
    assert_eq!(ids(&copy), vec![1, 4]);
    assert_eq!(copy[0].route, vec![2, 3]);
    assert!(copy[1].route.is_empty());
}

#[test]
fn lookup_without_candidates_fails() {
    let node = Node::with_id(1, 0);
    assert!(matches!(node.dht_lookup(9, None, false), LookupStep::NotFound));
    assert!(matches!(node.dht_lookup(9, Some(Vec::new()), false), LookupStep::NotFound));
    assert!(matches!(node.lookup_step(9, Vec::new()), LookupStep::NotFound));
}

#[test]
fn lookup_fails_when_head_is_the_node_itself() {
    let node = Node::with_id(1, 0);
    let step = node.dht_lookup(9, Some(vec![known(1, &[]), known(9, &[9])]), false);
    assert!(matches!(step, LookupStep::NotFound));
}

#[test]
fn lookup_finds_goal_at_head_and_adds_own_id_to_route() {
    let node = Node::with_id(1, 0);
    match node.dht_lookup(9, Some(vec![known(9, &[4, 5]), known(3, &[3])]), false) {
        LookupStep::Found(found) => {
            assert_eq!(found.id, 9);
            assert_eq!(found.route, vec![4, 5, 1]);
        }
        other => panic!("unexpected step {:?}", other),
    }
}

#[test]
fn lookup_asks_the_head_along_its_route() {
    let node = Node::with_id(1, 0);
    match node.dht_lookup(9, Some(vec![known(3, &[7, 3]), known(4, &[4])]), false) {
        LookupStep::Ask { packet, candidates } => {
            assert_eq!(packet.from, 1);
            assert_eq!(packet.des, 3);
            assert_eq!(packet.route, vec![7, 3]);
            assert_eq!(packet.data.goal, 9);
            assert_eq!(packet.data.path_to, vec![7, 3]);
            assert_eq!(ids(&candidates), vec![3, 4]);
        }
        other => panic!("unexpected step {:?}", other),
    }
}

#[test]
fn lookup_uses_the_table_when_no_candidates_are_given() {
    let mut node = Node::with_id(0, 0);
    node.dht.update(&known(0b0011, &[2]));
    node.dht.update(&known(0b1001, &[1]));
    match node.dht_lookup(0b1000, None, false) {
        LookupStep::Ask { packet, candidates } => {
            assert_eq!(packet.des, 0b1001);
            assert_eq!(ids(&candidates), vec![0b1001, 0b0011]);
        }
        other => panic!("unexpected step {:?}", other),
    }
}

#[test]
fn bootstrap_lookup_skips_the_first_candidate() {
    let mut node = Node::with_id(0, 0);
    node.dht.update(&known(0b0011, &[2]));
    node.dht.update(&known(0b1001, &[1]));
    match node.dht_lookup(0b1000, None, true) {
        LookupStep::Ask { packet, candidates } => {
            assert_eq!(packet.des, 0b0011);
            assert_eq!(ids(&candidates), vec![0b0011]);
        }
        other => panic!("unexpected step {:?}", other),
    }
    let only = node.dht_lookup(5, Some(vec![known(5, &[5])]), true);
    assert!(matches!(only, LookupStep::NotFound));
}

#[test]
fn reply_with_goal_first_ends_the_search() {
    let mut node = Node::with_id(1, 0);
    let response = Packet {
        from: 3,
        des: 1,
        route: vec![6],
        data: DHTLookupReply { goal: 9, reply: vec![known(9, &[8]), known(5, &[5])] },
    };
    match node.lookup_reply(9, false, &response) {
        LookupStep::Found(found) => {
            assert_eq!(found.id, 9);
            assert_eq!(found.route, vec![8, 1, 6]);
        }
        other => panic!("unexpected step {:?}", other),
    }
    let merged = node.dht.table().find(&9, 16);
    assert_eq!(ids(&merged), vec![9, 5]);
    assert_eq!(merged[0].route, vec![8, 6, 1]);
    assert_eq!(merged[1].route, vec![5, 6, 1]);
}

#[test]
fn reply_without_goal_gives_the_next_question() {
    let mut node = Node::with_id(1, 0);
    let response = Packet {
        from: 3,
        des: 1,
        route: Vec::new(),
        data: DHTLookupReply { goal: 9, reply: vec![known(8, &[8]), known(5, &[5])] },
    };
    match node.lookup_reply(9, false, &response) {
        LookupStep::Ask { packet, candidates } => {
            assert_eq!(packet.from, 1);
            assert_eq!(packet.des, 8);
            assert_eq!(packet.route, vec![8]);
            assert_eq!(ids(&candidates), vec![8, 5]);
        }
        other => panic!("unexpected step {:?}", other),
    }
    assert_eq!(ids(&node.dht.table().find(&8, 16)), vec![8, 5]);
}

#[test]
fn empty_reply_ends_the_search_without_result() {
    let mut node = Node::with_id(1, 0);
    let response = Packet {
        from: 3,
        des: 1,
        route: Vec::new(),
        data: DHTLookupReply { goal: 9, reply: Vec::new() },
    };
    assert!(matches!(node.lookup_reply(9, false, &response), LookupStep::NotFound));
}

#[test]
fn failure_moves_on_to_the_next_candidate() {
    let node = Node::with_id(1, 0);
    match node.lookup_failed(9, vec![known(3, &[3]), known(4, &[2, 4]), known(5, &[5])]) {
        LookupStep::Ask { packet, candidates } => {
            assert_eq!(packet.des, 4);
            assert_eq!(packet.route, vec![2, 4]);
            assert_eq!(ids(&candidates), vec![4, 5]);
        }
        other => panic!("unexpected step {:?}", other),
    }
    assert!(matches!(node.lookup_failed(9, vec![known(3, &[3])]), LookupStep::NotFound));
    assert!(matches!(node.lookup_failed(9, Vec::new()), LookupStep::NotFound));
    match node.lookup_failed(9, vec![known(3, &[3]), known(9, &[9])]) {
        LookupStep::Found(found) => assert_eq!(found.route, vec![9, 1]),
        other => panic!("unexpected step {:?}", other),
    }
}

#[test]
fn lookup_bootstrap() {
    let (a, b) = (0xa0u64, 0x0bu64);
    let mut node_a = Node::with_id(a, 0);
    let mut node_b = Node::with_id(b, 1);
    assert_eq!(
        node_a.handle_hello(HelloNode { id: b, reply: false }),
        HelloOutcome::Added { index: 0, respond: true }
    );
    assert_eq!(
        node_b.handle_hello(HelloNode { id: a, reply: true }),
        HelloOutcome::Added { index: 0, respond: false }
    );
    node_a.dht.update(&known(b, &[b]));
    node_b.dht.update(&known(a, &[a]));

    let goal = 0x33u64;
    let actions = node_a.tick_with(&vec![(true, goal)]);
    assert_eq!(actions.len(), 3);
    let question = match actions.into_iter().last() {
        Some(TickAction::Lookup { goal: 0x33, init: false, step }) => match step {
            LookupStep::Ask { packet, .. } => packet,
            other => panic!("unexpected step {:?}", other),
        },
        other => panic!("unexpected action {:?}", other),
    };
    assert_eq!((question.from, question.des), (a, b));
    let hop = node_a.send_packet(question);
    assert_eq!(hop.neighbour, 0);
    assert!(hop.packet.route.is_empty());

    let answer = match node_b.route_packet(hop.packet, false) {
        Handled::Replied(answer) => answer,
        Handled::Forwarded { .. } => panic!("the packet was for this node"),
    };
    assert_eq!((answer.from, answer.des), (b, a));
    assert_eq!(answer.data.goal, goal);
    assert_eq!(ids(&answer.data.reply), vec![a]);

    let next = node_a.lookup_reply(goal, false, &answer);
    assert!(matches!(next, LookupStep::NotFound));
    assert_eq!(ids(&node_a.dht.table().find(&0, 64)), vec![b]);
}

#[test]
fn ping_is_remembered_under_the_reversed_route() {
    let mut node = Node::with_id(2, 0);
    let ping = Packet { from: 1, des: 2, route: Vec::new(), data: Ping };
    Ping::process(&ping, &mut node);
    let found = node.dht.table().find(&1, 1);
    assert_eq!(found[0].id, 1);
    assert_eq!(found[0].route, vec![1, 2]);
}

#[test]
fn lookup_is_answered_on_the_reverse_path() {
    let mut node = Node::with_id(2, 0);
    node.dht.update(&known(6, &[6]));
    let question = Packet {
        from: 1,
        des: 2,
        route: vec![4, 5],
        data: DHTLookup { goal: 7, path_to: vec![4, 5] },
    };
    let answer = DHTLookup::process(&question, &mut node);
    assert_eq!((answer.from, answer.des), (2, 1));
    assert_eq!(answer.route, vec![5, 4]);
    assert_eq!(answer.data.goal, 7);
    assert_eq!(ids(&answer.data.reply), vec![6]);
    let sender = node.dht.table().find(&1, 1);
    assert_eq!(sender[0].route, vec![5, 4]);
}

#[test]
fn lookup_reply_as_payload_changes_nothing() {
    let mut node = Node::with_id(2, 0);
    let packet = Packet {
        from: 1,
        des: 2,
        route: Vec::new(),
        data: DHTLookupReply { goal: 7, reply: vec![known(9, &[9])] },
    };
    DHTLookupReply::process(&packet, &mut node);
    assert!(node.dht.table().find(&9, 16).is_empty());
}

#[test]
fn first_tick_starts_the_bootstrap_search() {
    let mut node = Node::with_id(0, 0);
    node.handle_hello(HelloNode { id: 0b0011, reply: true });
    node.handle_hello(HelloNode { id: 0b1001, reply: true });
    node.dht.update(&known(0b0011, &[0b0011]));
    node.dht.update(&known(0b1001, &[0b1001]));
    assert!(!node.dht_init);
    let actions = node.tick_with(&vec![(false, 1), (true, 0b1000)]);
    assert!(node.dht_init);
    assert_eq!(actions.len(), 3);
    match &actions[0] {
        TickAction::Lookup { goal: 0, init: true, step: LookupStep::Ask { packet, .. } } => {
            assert_eq!(packet.data.goal, 0);
            assert_eq!(packet.des, 0b1001);
        }
        other => panic!("unexpected action {:?}", other),
    }
    match &actions[1] {
        TickAction::SendPing(ping) => {
            assert_eq!((ping.from, ping.des), (0, 0b1001));
            assert_eq!(ping.route, vec![0b1001]);
        }
        other => panic!("unexpected action {:?}", other),
    }
    match &actions[2] {
        TickAction::Lookup { goal: 0b1000, init: false, step: LookupStep::Ask { packet, .. } } => {
            assert_eq!(packet.data.goal, 0b1000);
            assert_eq!(packet.des, 0b1001);
        }
        other => panic!("unexpected action {:?}", other),
    }
    let later = node.tick_with(&vec![(false, 1), (false, 2)]);
    assert!(later.is_empty());
}

#[test]
fn tick_pings_about_a_tenth_of_the_neighbours() {
    let mut node = Node::with_id(0, 0);
    for id in 1..=50u64 {
        node.handle_hello(HelloNode { id, reply: true });
    }
    node.dht_init = true;
    let mut pings = 0usize;
    let rounds = 200usize;
    for _ in 0..rounds {
        let actions = node.dht_tick();
        assert_eq!(actions.len() % 2, 0);
        for pair in actions.chunks(2) {
            assert!(matches!(pair[0], TickAction::SendPing(_)));
            assert!(matches!(
                pair[1],
                TickAction::Lookup { init: false, step: LookupStep::NotFound, .. }
            ));
        }
        pings += actions.len() / 2;
    }
    assert!(pings > rounds * 50 / 20);
    assert!(pings < rounds * 50 / 5);
}

use overlay_sim::graph::GraphNode;
use overlay_sim::graph::Link;
use overlay_sim::world::level_nodes;
use overlay_sim::world::same_level_links;
use overlay_sim::world::spread;
use overlay_sim::world::Activation;
use overlay_sim::world::HelloWorld;
use overlay_sim::world::Introduction;
use overlay_sim::world::World;

fn world_of(nodes: usize) -> World {
    let mut world = World::new(4);
    for i in 0..nodes {
        assert_eq!(world.add_node(i % 4), i);
    }
    world
}

#[test]
fn new_world_is_empty_and_admitting() {
    let world = World::new(3);
    assert_eq!(world.node_count(), 0);
    assert_eq!(world.threads(), 3);
    assert_eq!(world.active(), 0);
    assert_eq!(world.pending(), 0);
    assert!(world.adding());
    assert_eq!(World::default().threads(), 4);
}

#[test]
fn add_thread_counts_up() {
    let mut world = World::new(4);
    assert_eq!(world.handle_add_thread(), 4);
    assert_eq!(world.handle_add_thread(), 5);
    assert_eq!(world.threads(), 6);
}

#[test]
fn nodes_get_consecutive_indices_and_their_thread() {
    let world = world_of(6);
    assert_eq!(world.node_count(), 6);
    assert_eq!(world.node(5), Some(GraphNode { thread: 1, spawned: false }));
    assert_eq!(world.node(6), None);
    assert_eq!(world.activate_node(3), Activation { index: 3, thread: 3 });
}

#[test]
fn edges_are_walked_latest_first() {
    let mut world = world_of(4);
    world.add_edge(0, 1, 10);
    world.add_edge(0, 2, 11);
    world.add_edge(3, 0, 12);
    world.add_edge(0, 1, 13);
    assert_eq!(
        world.links(0),
        vec![
            Link { target: 1, connection: 13 },
            Link { target: 2, connection: 11 },
            Link { target: 1, connection: 10 }
        ]
    );
    assert_eq!(world.links(3), vec![Link { target: 0, connection: 12 }]);
    assert!(world.links(1).is_empty());
    assert!(world.links(9).is_empty());
}

#[test]
fn connect_adds_both_directions_but_no_loop() {
    let mut world = world_of(3);
    world.connect(0, 1, 7);
    world.connect(2, 2, 8);
    assert_eq!(world.edge_count(), 2);
    assert_eq!(world.links(0), vec![Link { target: 1, connection: 7 }]);
    assert_eq!(world.links(1), vec![Link { target: 0, connection: 7 }]);
    assert!(world.links(2).is_empty());
}

#[test]
fn adopt_thread_takes_the_thread_of_the_other_node() {
    let mut world = world_of(4);
    world.adopt_thread(1, 3);
    assert_eq!(world.node(1), Some(GraphNode { thread: 3, spawned: false }));
    assert_eq!(world.node(3), Some(GraphNode { thread: 3, spawned: false }));
}

#[test]
fn admission_staging() {
    let mut world = world_of(100);
    let first = world.handle_wake();
    assert_eq!(first.activate, vec![Activation { index: 0, thread: 0 }]);
    assert!(!first.broadcast);
    assert_eq!((world.active(), world.pending()), (0, 1));

    let waiting = world.handle_wake();
    assert!(waiting.activate.is_empty());
    assert_eq!((world.active(), world.pending()), (0, 1));

    world.handle_hello_world(HelloWorld { graph_index: 0, id: 500 });
    assert_eq!((world.active(), world.pending()), (1, 0));
    assert_eq!(world.index_of(500), Some(0));
    assert_eq!(world.node(0), Some(GraphNode { thread: 0, spawned: true }));

    let second = world.handle_wake();
    assert_eq!(second.activate, vec![Activation { index: 1, thread: 1 }]);
    assert_eq!((world.active(), world.pending()), (1, 1));
    assert!(world.adding());
}

#[test]
fn batches_grow_by_a_twentieth() {
    let mut world = world_of(200);
    let mut id = 1000u64;
    let mut sizes: Vec<usize> = Vec::new();
    while world.adding() {
        let outcome = world.handle_wake();
        sizes.push(outcome.activate.len());
        for (k, a) in outcome.activate.iter().enumerate() {
            assert_eq!(a.index, world.active() + k);
        }
        let batch: Vec<Activation> = outcome.activate;
        for a in batch {
            world.handle_hello_world(HelloWorld { graph_index: a.index, id });
            id += 1;
        }
    }
    assert_eq!(world.active(), 200);
    assert_eq!(world.pending(), 0);
    assert_eq!(sizes.iter().sum::<usize>(), 200);
    assert!(sizes[..40].iter().all(|&s| s == 1));
    assert_eq!(sizes[40], 2);
    assert_eq!(*sizes.last().unwrap(), 0);
    for w in sizes[..sizes.len() - 2].windows(2) {
        assert!(w[0] <= w[1]);
    }
}

#[test]
fn add_nodes_says_when_the_graph_is_used_up() {
    let mut world = world_of(2);
    assert_eq!(world.add_nodes(), (vec![Activation { index: 0, thread: 0 }], true));
    world.handle_hello_world(HelloWorld { graph_index: 0, id: 1 });
    assert_eq!(world.add_nodes(), (vec![Activation { index: 1, thread: 1 }], true));
    world.handle_hello_world(HelloWorld { graph_index: 1, id: 2 });
    assert_eq!(world.add_nodes(), (Vec::new(), false));
}

#[test]
fn announced_node_is_introduced_to_spawned_neighbours() {
    let mut world = world_of(4);
    world.connect(0, 1, 10);
    world.connect(0, 2, 11);
    world.connect(0, 3, 12);
    world.handle_wake();
    assert!(world.handle_hello_world(HelloWorld { graph_index: 0, id: 70 }).is_empty());
    world.handle_wake();
    assert_eq!(
        world.handle_hello_world(HelloWorld { graph_index: 1, id: 71 }),
        vec![Introduction { to: 0, peer: 1, id: 71, connection: 10 }]
    );
    world.handle_wake();
    assert_eq!(
        world.handle_hello_world(HelloWorld { graph_index: 2, id: 72 }),
        vec![Introduction { to: 0, peer: 2, id: 72, connection: 11 }]
    );
    assert_eq!(world.index_of(72), Some(2));
    assert_eq!(world.index_of(73), None);
}

#[test]
fn introductions_follow_the_order_of_the_edges() {
    let mut world = world_of(4);
    world.add_edge(3, 0, 20);
    world.add_edge(3, 1, 21);
    world.add_edge(3, 2, 22);
    for (index, id) in [(0usize, 50u64), (2, 52)] {
        world.handle_wake();
        world.handle_hello_world(HelloWorld { graph_index: index, id });
    }
    world.handle_wake();
    assert_eq!(
        world.handle_hello_world(HelloWorld { graph_index: 3, id: 53 }),
        vec![
            Introduction { to: 2, peer: 3, id: 53, connection: 22 },
            Introduction { to: 0, peer: 3, id: 53, connection: 20 }
        ]
    );
}

fn admitted_world(nodes: usize) -> World {
    let mut world = world_of(nodes);
    let mut id = 1u64;
    while world.adding() {
        for a in world.handle_wake().activate {
            world.handle_hello_world(HelloWorld { graph_index: a.index, id });
            id += 1;
        }
    }
    world
}

#[test]
fn quiet_network_is_ticked() {
    let mut world = admitted_world(3);
    let outcome = world.handle_wake();
    assert!(outcome.broadcast);
    assert_eq!(outcome.tick, vec![0, 1, 2]);
    assert!(outcome.activate.is_empty());
    let again = world.handle_wake();
    assert!(again.broadcast);
    assert_eq!(again.tick, vec![0, 1, 2]);
}

#[test]
fn busy_network_is_not_ticked() {
    let mut world = admitted_world(3);
    assert_eq!((world.last_seen_message(), world.message_no()), (0, 0));
    world.handle_sent();
    assert_eq!((world.last_seen_message(), world.message_no()), (1, 0));
    let busy = world.handle_wake();
    assert!(!busy.broadcast);
    assert!(busy.tick.is_empty());
    let quiet = world.handle_wake();
    assert!(quiet.broadcast);
    world.handle_sent();
    world.handle_sent();
    assert!(!world.handle_wake().broadcast);
    assert!(world.handle_wake().broadcast);
}

#[test]
fn the_wake_that_ends_the_admission_may_tick() {
    let mut world = world_of(1);
    let first = world.handle_wake();
    assert_eq!(first.activate.len(), 1);
    assert!(!first.broadcast);
    world.handle_hello_world(HelloWorld { graph_index: 0, id: 9 });
    let last = world.handle_wake();
    assert!(last.activate.is_empty());
    assert!(!world.adding());
    assert!(last.broadcast);
    assert_eq!(last.tick, vec![0]);
}

#[test]
fn only_announced_nodes_are_ticked() {
    let mut world = world_of(3);
    world.handle_wake();
    world.handle_hello_world(HelloWorld { graph_index: 0, id: 1 });
    assert_eq!(world.active_nodes(), vec![0]);
    world.handle_wake();
    assert_eq!(world.active_nodes(), vec![0]);
    world.handle_hello_world(HelloWorld { graph_index: 1, id: 2 });
    assert_eq!(world.active_nodes(), vec![0, 1]);
}

#[test]
fn levels_of_the_generated_graph() {
    assert_eq!(overlay_sim::world::LEVELS, 4);
    assert_eq!(overlay_sim::world::CORE, 8);
    let sizes: Vec<usize> = (0..4).map(level_nodes).collect();
    assert_eq!(sizes, vec![8, 160, 3200, 32000]);
    let spreads: Vec<usize> = (0..4).map(spread).collect();
    assert_eq!(spreads, vec![1, 20, 20, 10]);
    let links: Vec<usize> = (0..4).map(same_level_links).collect();
    assert_eq!(links, vec![8, 2, 2, 2]);
}

#[test]
fn wake_period_and_defaults() {
    assert_eq!(overlay_sim::world::WAKE_PERIOD_NANOS, 100_000);
    assert_eq!(overlay_sim::world::DEFAULT_THREADS, 4);
    assert_eq!(overlay_sim::world::ADMISSION_DIVISOR, 20);
}

#[test]
fn a_level_is_dealt_to_the_threads_in_turn() {
    let mut world = world_of(3);
    assert_eq!(world.add_level(6), 3);
    assert_eq!(world.node_count(), 9);
    let threads: Vec<usize> = (3..9).map(|i| world.node(i).unwrap().thread).collect();
    assert_eq!(threads, vec![0, 1, 2, 3, 0, 1]);
    assert!((0..9).all(|i| world.node(i).unwrap().spawned == false && world.links(i).is_empty()));
    assert_eq!(world.add_level(0), 9);
    assert_eq!(world.node_count(), 9);
}

#[test]
fn link_node_connects_and_adopts() {
    let mut world = world_of(4);
    let peers = vec![
        Link { target: 1, connection: 30 },
        Link { target: 0, connection: 31 },
        Link { target: 2, connection: 32 },
    ];
    world.link_node(0, &peers, false);
    assert_eq!(
        world.links(0),
        vec![Link { target: 2, connection: 32 }, Link { target: 1, connection: 30 }]
    );
    assert_eq!(world.links(1), vec![Link { target: 0, connection: 30 }]);
    assert_eq!(world.links(2), vec![Link { target: 0, connection: 32 }]);
    assert_eq!(world.edge_count(), 4);
    assert_eq!(world.node(0).unwrap().thread, 0);

    let above = vec![Link { target: 1, connection: 40 }, Link { target: 2, connection: 41 }];
    world.link_node(3, &above, true);
    assert_eq!(world.node(3).unwrap().thread, 2);
    assert_eq!(
        world.links(3),
        vec![Link { target: 2, connection: 41 }, Link { target: 1, connection: 40 }]
    );
    assert_eq!(world.links(1)[0], Link { target: 3, connection: 40 });
    world.link_node(3, &Vec::new(), true);
    assert_eq!(world.edge_count(), 8);
}

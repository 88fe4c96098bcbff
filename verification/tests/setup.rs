use agent_tag::entities::{add_agents, Status};
use agent_tag::input::Input;
use agent_tag::resources::{LoadResources, Random, TagCount};
use rand::rngs::SmallRng;
use rand::SeedableRng;

#[test]
fn add_agents_population() {
    let mut rng = Random(SmallRng::seed_from_u64(7));
    let agents = add_agents(6, 7, &mut rng);
    assert_eq!(agents.len(), 6);
    for agent in agents.iter().take(5) {
        assert_eq!(agent.status, Status::Normal);
    }
    assert_eq!(agents[5].status, Status::Tagged);
    for agent in &agents {
        assert!(agent.position.0 < 7);
        assert!(agent.position.1 < 7);
    }
}

#[test]
fn add_agents_single() {
    let mut rng = Random(SmallRng::seed_from_u64(11));
    let agents = add_agents(1, 2, &mut rng);
    assert_eq!(agents.len(), 1);
    assert_eq!(agents[0].status, Status::Tagged);
    assert!(agents[0].position.0 < 2);
    assert!(agents[0].position.1 < 2);
}

#[test]
fn build_resources_valid() {
    let input = Input {
        print_announce: true,
        disable_grid: false,
        agents: 40,
        moves: 10,
        size: 25,
        time: 1000,
    };
    let resources = LoadResources::build(&input).unwrap();
    assert_eq!(resources.agents.0, 40);
    assert_eq!(resources.time.0, 1000);
    assert_eq!(resources.size.0, 25);
    assert_eq!(resources.moves.0, 10);
    assert!(resources.announce_tag.0);
    assert!(!resources.disable_grid.0);
    assert_eq!(resources.tag_count.0, 0);
    assert!(resources.grid.0.is_empty());
}

#[test]
fn build_resources_rejects_no_agents() {
    let input = Input {
        print_announce: false,
        disable_grid: false,
        agents: 0,
        moves: 10,
        size: 25,
        time: 1000,
    };
    assert!(LoadResources::build(&input).is_none());
}

#[test]
fn build_resources_rejects_tiny_grid() {
    let input = Input {
        print_announce: false,
        disable_grid: false,
        agents: 40,
        moves: 10,
        size: 1,
        time: 1000,
    };
    assert!(LoadResources::build(&input).is_none());
}

#[test]
fn tag_count_defaults_to_zero() {
    let count = TagCount::default();
    assert_eq!(count.0, 0);
}

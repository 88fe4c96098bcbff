use agent_tag::entities::{add_agents, move_agents, tag, Status};
use agent_tag::grid::update_grid;
use agent_tag::resources::{Grid, Random, TagCount};
use rand::rngs::SmallRng;
use rand::SeedableRng;

#[test]
fn single_agent_always_tagged() {
    // with one agent there is never a transfer target, so the tag stays put
    // and the counter never moves
    let mut rng = Random(SmallRng::seed_from_u64(3));
    let mut agents = add_agents(1, 5, &mut rng);
    let mut count = TagCount(0);
    let mut grid = Grid(Vec::new());
    for _ in 0..25 {
        move_agents(&mut agents, &mut rng, 5);
        update_grid(&agents, &mut grid, 5);
        let transferred = tag(&mut agents, &mut count, 5);
        assert!(!transferred);
        assert_eq!(agents.len(), 1);
        assert_eq!(agents[0].status, Status::Tagged);
        assert_eq!(count.0, 0);
    }
}

#[test]
fn invariants_hold_across_ticks() {
    let mut rng = Random(SmallRng::seed_from_u64(42));
    let mut agents = add_agents(8, 6, &mut rng);
    let mut count = TagCount(0);
    let mut grid = Grid(Vec::new());
    let mut previous_count = 0u32;
    for _ in 0..60 {
        move_agents(&mut agents, &mut rng, 6);
        update_grid(&agents, &mut grid, 6);
        tag(&mut agents, &mut count, 6);
        // exactly one agent is tagged, at most one is on cooldown
        let tagged = agents.iter().filter(|a| a.status == Status::Tagged).count();
        let untaggable = agents.iter().filter(|a| a.status == Status::UnTaggable).count();
        assert_eq!(tagged, 1);
        assert!(untaggable <= 1);
        // every agent stays on the grid
        for agent in &agents {
            assert!(agent.position.0 < 6);
            assert!(agent.position.1 < 6);
        }
        // the tag counter never decreases
        assert!(count.0 >= previous_count);
        previous_count = count.0;
    }
}

use agent_tag::entities::{tag, Agent, Position, Status};
use agent_tag::resources::TagCount;

#[test]
fn tag_transfer_adjacent() {
    let mut agents = vec![
        Agent { position: Position(2, 2), status: Status::Tagged },
        Agent { position: Position(3, 2), status: Status::Normal },
    ];
    let mut count = TagCount(0);
    let transferred = tag(&mut agents, &mut count, 5);
    assert!(transferred);
    assert_eq!(agents[0].status, Status::UnTaggable);
    assert_eq!(agents[1].status, Status::Tagged);
    assert_eq!(count.0, 1);
    // positions are untouched by resolution
    assert_eq!(agents[0].position, Position(2, 2));
    assert_eq!(agents[1].position, Position(3, 2));
}

#[test]
fn tag_no_transfer_when_isolated() {
    let mut agents = vec![
        Agent { position: Position(2, 2), status: Status::Tagged },
        Agent { position: Position(0, 0), status: Status::Normal },
    ];
    let mut count = TagCount(7);
    let transferred = tag(&mut agents, &mut count, 6);
    assert!(!transferred);
    assert_eq!(agents[0].status, Status::Tagged);
    assert_eq!(agents[1].status, Status::Normal);
    assert_eq!(count.0, 7);
}

#[test]
fn untaggable_neighbor_not_selected() {
    // the only adjacent agent is on cooldown: no transfer may happen
    let mut agents = vec![
        Agent { position: Position(2, 2), status: Status::Tagged },
        Agent { position: Position(3, 2), status: Status::UnTaggable },
    ];
    let mut count = TagCount(0);
    let transferred = tag(&mut agents, &mut count, 5);
    assert!(!transferred);
    assert_eq!(agents[0].status, Status::Tagged);
    assert_eq!(agents[1].status, Status::UnTaggable);
    assert_eq!(count.0, 0);
}

#[test]
fn first_eligible_in_iteration_order_wins() {
    let mut agents = vec![
        Agent { position: Position(3, 2), status: Status::Normal },
        Agent { position: Position(2, 2), status: Status::Tagged },
        Agent { position: Position(2, 3), status: Status::Normal },
    ];
    let mut count = TagCount(0);
    let transferred = tag(&mut agents, &mut count, 6);
    assert!(transferred);
    assert_eq!(agents[0].status, Status::Tagged);
    assert_eq!(agents[1].status, Status::UnTaggable);
    assert_eq!(agents[2].status, Status::Normal);
    assert_eq!(count.0, 1);
}

#[test]
fn cooldown_agent_resets_to_normal_on_next_transfer() {
    let mut agents = vec![
        Agent { position: Position(0, 0), status: Status::UnTaggable },
        Agent { position: Position(2, 2), status: Status::Tagged },
        Agent { position: Position(2, 3), status: Status::Normal },
    ];
    let mut count = TagCount(3);
    let transferred = tag(&mut agents, &mut count, 6);
    assert!(transferred);
    assert_eq!(agents[0].status, Status::Normal);
    assert_eq!(agents[1].status, Status::UnTaggable);
    assert_eq!(agents[2].status, Status::Tagged);
    assert_eq!(count.0, 4);
}

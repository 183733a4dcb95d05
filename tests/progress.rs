use there_and_back_again::game::GameEvent;
use there_and_back_again::grid::{Bonus, Level};
use there_and_back_again::progress::{GameInProgress, Outcome};

fn level(treasures: u32, losts: Option<u32>) -> Level {
    Level {
        floors: vec![],
        neighbours: vec![],
        start: (0, 0, 0),
        end: (0, 0, 0),
        nb_hobbits: 1,
        spawn_delay: 1000,
        message: None,
        goal: None,
        treasures,
        losts,
        bonus: vec![Bonus::Obstacle],
        file: String::new(),
    }
}

#[test]
fn events_update_score_and_losses() {
    let mut g = GameInProgress::new(2, vec![Bonus::Obstacle]);
    g.update_progress(&vec![
        GameEvent::ReachedGoal(1),
        GameEvent::Delivered(1),
        GameEvent::AgentLost(2),
        GameEvent::AgentDestroyedByHazard(3),
        GameEvent::Delivered(4),
    ]);
    assert_eq!(g.score, 2);
    assert_eq!(g.lost_hobbits, 2);
    assert_eq!(g.level, 2);
    assert_eq!(g.bonus, vec![Bonus::Obstacle]);
}

#[test]
fn round_is_won_when_treasures_are_home() {
    let mut g = GameInProgress::new(0, vec![]);
    assert_eq!(g.check_conditions(&level(2, Some(3))), Outcome::Playing);
    g.update_progress(&vec![GameEvent::Delivered(0), GameEvent::Delivered(1)]);
    assert_eq!(g.check_conditions(&level(2, Some(3))), Outcome::Won);
}

#[test]
fn round_is_lost_at_the_loss_limit() {
    let mut g = GameInProgress::new(0, vec![]);
    g.update_progress(&vec![GameEvent::AgentLost(0)]);
    assert_eq!(g.check_conditions(&level(2, Some(1))), Outcome::Lost);
    assert_eq!(g.check_conditions(&level(2, None)), Outcome::Playing);
}


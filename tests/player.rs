use std::cmp::Ordering;
use tycoon::msg::SetupState;
use tycoon::player::{Player, Rank};

#[test]
fn rank_points() {
    assert_eq!(Rank::Beggar.points(), 0);
    assert_eq!(Rank::Poor.points(), 10);
    assert_eq!(Rank::Rich.points(), 20);
    assert_eq!(Rank::Tycoon.points(), 30);
}

#[test]
fn rank_names() {
    assert_eq!(Rank::Beggar.to_string(), "Beggar");
    assert_eq!(Rank::Poor.to_string(), "Poor");
    assert_eq!(Rank::Rich.to_string(), "Rich");
    assert_eq!(Rank::Tycoon.to_string(), "Tycoon");
}

#[test]
fn rank_order() {
    assert_eq!(Rank::Beggar.compare(&Rank::Poor), Ordering::Less);
    assert_eq!(Rank::Tycoon.compare(&Rank::Rich), Ordering::Greater);
    assert_eq!(Rank::Rich.compare(&Rank::Rich), Ordering::Equal);
    assert_eq!(Rank::Poor.compare(&Rank::Tycoon), Ordering::Less);
}

#[test]
fn new_player_is_blank() {
    let p = Player::new("Ann");
    assert_eq!(p.name, "Ann");
    assert_eq!(p.score, 0);
    assert_eq!(p.rank, None);
    assert!(p.past_ranks.is_empty());
    assert!(!p.is_tycoon());
}

#[test]
fn set_rank_moves_previous_to_history() {
    let mut p = Player::new("Ann");
    p.set_rank(Rank::Rich);
    assert_eq!(p.rank, Some(Rank::Rich));
    assert!(p.past_ranks.is_empty());
    p.set_rank(Rank::Tycoon);
    assert_eq!(p.rank, Some(Rank::Tycoon));
    assert_eq!(p.past_ranks, vec![Rank::Rich]);
    assert!(p.is_tycoon());
    assert_eq!(p.score, 0);
}

#[test]
fn update_score_adds_points_of_standing() {
    let mut p = Player::new("Ann");
    p.update_score();
    assert_eq!(p.score, 0);
    p.set_rank(Rank::Poor);
    p.update_score();
    assert_eq!(p.score, 10);
    p.set_rank(Rank::Tycoon);
    p.update_score();
    assert_eq!(p.score, 40);
    p.set_rank(Rank::Beggar);
    p.update_score();
    assert_eq!(p.score, 40);
}

#[test]
fn apply_standing_and_reset() {
    let mut p = Player::new("Ann");
    p.apply_standing(Rank::Rich);
    p.apply_standing(Rank::Tycoon);
    assert_eq!(p.score, 50);
    assert_eq!(p.rank, Some(Rank::Tycoon));
    assert_eq!(p.past_ranks, vec![Rank::Rich]);
    let copy = p.duplicate();
    assert_eq!(copy, p);
    p.reset_for_new_game();
    assert_eq!(p.name, "Ann");
    assert_eq!(p.score, 0);
    assert_eq!(p.rank, None);
    assert!(p.past_ranks.is_empty());
}

#[test]
fn setup_state_starts_with_one_input() {
    let s = SetupState::new();
    assert_eq!(s.num_of_inputs, 1);
    assert!(s.player_names.is_empty());
}

#[test]
fn setup_state_names_in_input_order() {
    let mut s = SetupState::new();
    s.add_input();
    s.add_input();
    s.set_name(2, "Cy".to_string());
    s.set_name(0, "Al".to_string());
    s.set_name(5, "Nobody".to_string());
    assert_eq!(s.num_of_inputs, 3);
    assert_eq!(s.names_in_order(), vec!["Al".to_string(), "Cy".to_string()]);
    s.clear();
    assert_eq!(s.num_of_inputs, 1);
    assert!(s.names_in_order().is_empty());
}

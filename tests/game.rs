use tycoon::game::{update, Mode, Model};
use tycoon::msg::Msg;
use tycoon::player::Rank;

fn game_of(names: &[&str]) -> Model {
    let mut m = Model::default();
    update(Msg::Setup, &mut m);
    for (i, n) in names.iter().enumerate() {
        if i > 0 {
            update(Msg::MorePlayers, &mut m);
        }
        update(Msg::AddPlayer(n.to_string(), i), &mut m);
    }
    update(Msg::SavePlayers, &mut m);
    m
}

fn four() -> Model {
    game_of(&["A", "B", "C", "D"])
}

fn finish(m: &mut Model, order: &[usize]) {
    for &k in order {
        update(Msg::GoOut(k), m);
    }
}

fn scores(m: &Model) -> Vec<u8> {
    m.players.iter().map(|p| p.score).collect()
}

#[test]
fn roster_is_saved_in_input_order() {
    let m = four();
    assert_eq!(m.players.len(), 4);
    assert_eq!(m.players[2].name, "C");
    assert_eq!(m.mode, Mode::Normal);
    assert_eq!(m.round, 1);
    assert_eq!(m.setup_state.num_of_inputs, 1);
    assert!(m.setup_state.player_names.is_empty());
}

#[test]
fn first_round_standings_follow_finish_order() {
    let mut m = four();
    finish(&mut m, &[0, 1, 2, 3]);
    assert_eq!(m.rank_out(0), Some(Rank::Tycoon));
    assert_eq!(m.rank_out(1), Some(Rank::Rich));
    assert_eq!(m.rank_out(2), Some(Rank::Poor));
    assert_eq!(m.rank_out(3), Some(Rank::Beggar));
    assert_eq!(m.beggar_message, None);
}

#[test]
fn first_round_other_order() {
    let mut m = four();
    finish(&mut m, &[2, 0, 3]);
    assert_eq!(m.rank_out(2), Some(Rank::Tycoon));
    assert_eq!(m.rank_out(0), Some(Rank::Rich));
    assert_eq!(m.rank_out(3), Some(Rank::Poor));
    assert_eq!(m.rank_out(1), Some(Rank::Beggar));
    assert_eq!(m.players_out.len(), 4);
}

#[test]
fn carry_over_demotes_previous_tycoon() {
    let mut m = four();
    finish(&mut m, &[0, 1, 2, 3]);
    update(Msg::EndRound, &mut m);
    update(Msg::GoOut(2), &mut m);
    assert_eq!(m.rank_out(2), Some(Rank::Tycoon));
    assert_eq!(m.rank_out(0), Some(Rank::Beggar));
    assert_eq!(
        m.beggar_message,
        Some("C went out so A is the beggar automatically.".to_string())
    );
}

#[test]
fn tycoon_finishing_first_keeps_message_unset() {
    let mut m = four();
    finish(&mut m, &[0, 1, 2, 3]);
    update(Msg::EndRound, &mut m);
    update(Msg::GoOut(0), &mut m);
    assert_eq!(m.players_out, vec![(0, Rank::Tycoon)]);
    assert_eq!(m.beggar_message, None);
    finish(&mut m, &[3, 1]);
    assert_eq!(m.rank_out(3), Some(Rank::Rich));
    assert_eq!(m.rank_out(1), Some(Rank::Poor));
    assert_eq!(m.rank_out(2), Some(Rank::Beggar));
}

#[test]
fn third_finisher_after_beggar_is_rich() {
    let mut m = four();
    finish(&mut m, &[0, 1, 2, 3]);
    update(Msg::EndRound, &mut m);
    finish(&mut m, &[1, 3]);
    assert_eq!(m.rank_out(1), Some(Rank::Tycoon));
    assert_eq!(m.rank_out(0), Some(Rank::Beggar));
    assert_eq!(m.rank_out(3), Some(Rank::Rich));
    assert_eq!(m.rank_out(2), Some(Rank::Poor));
}

#[test]
fn finishing_twice_is_ignored() {
    let mut m = four();
    update(Msg::GoOut(1), &mut m);
    update(Msg::GoOut(1), &mut m);
    assert_eq!(m.players_out, vec![(1, Rank::Tycoon)]);
    update(Msg::GoOut(3), &mut m);
    update(Msg::GoOut(3), &mut m);
    assert_eq!(m.players_out, vec![(1, Rank::Tycoon), (3, Rank::Rich)]);
}

#[test]
fn unknown_player_is_ignored() {
    let mut m = four();
    update(Msg::GoOut(7), &mut m);
    assert!(m.players_out.is_empty());
}

#[test]
fn roster_other_than_four_is_not_ranked() {
    let mut m = game_of(&["A", "B", "C"]);
    update(Msg::GoOut(0), &mut m);
    assert!(m.players_out.is_empty());
}

#[test]
fn round_close_waits_for_every_standing() {
    let mut m = four();
    update(Msg::GoOut(0), &mut m);
    update(Msg::GoOut(1), &mut m);
    update(Msg::EndRound, &mut m);
    assert_eq!(m.round, 1);
    assert_eq!(m.players_out.len(), 2);
    assert_eq!(scores(&m), vec![0, 0, 0, 0]);
}

#[test]
fn round_close_adds_points() {
    let mut m = four();
    finish(&mut m, &[0, 1, 2, 3]);
    update(Msg::EndRound, &mut m);
    assert_eq!(scores(&m), vec![30, 20, 10, 0]);
    assert_eq!(m.round, 2);
    assert!(m.players_out.is_empty());
    assert_eq!(m.players[0].rank, Some(Rank::Tycoon));
    assert_eq!(m.mode, Mode::Normal);
}

#[test]
fn three_fixed_rounds_score_ninety() {
    let mut m = four();
    for round in 1..=3u8 {
        assert_eq!(m.mode, Mode::Normal);
        assert_eq!(m.round, round);
        finish(&mut m, &[0, 1, 2, 3]);
        update(Msg::EndRound, &mut m);
    }
    assert_eq!(scores(&m), vec![90, 60, 30, 0]);
    assert_eq!(m.mode, Mode::GameOver);
    assert_eq!(m.players[0].past_ranks, vec![Rank::Tycoon, Rank::Tycoon]);
    assert_eq!(m.players[3].past_ranks, vec![Rank::Beggar, Rank::Beggar]);
}

#[test]
fn game_over_only_after_third_round() {
    let mut m = four();
    finish(&mut m, &[0, 1, 2, 3]);
    update(Msg::EndRound, &mut m);
    assert_eq!(m.mode, Mode::Normal);
    finish(&mut m, &[0, 1, 2, 3]);
    update(Msg::EndRound, &mut m);
    assert_eq!(m.mode, Mode::Normal);
    finish(&mut m, &[0, 1, 2, 3]);
    update(Msg::EndRound, &mut m);
    assert_eq!(m.mode, Mode::GameOver);
    assert_eq!(m.round, 4);
    finish(&mut m, &[0, 1, 2, 3]);
    update(Msg::EndRound, &mut m);
    assert_eq!(m.round, 4);
    assert_eq!(scores(&m), vec![90, 60, 30, 0]);
}

#[test]
fn new_game_resets_players() {
    let mut m = four();
    finish(&mut m, &[0, 1, 2, 3]);
    update(Msg::EndRound, &mut m);
    update(Msg::GoOut(2), &mut m);
    update(Msg::NewGame, &mut m);
    assert_eq!(m.round, 1);
    assert_eq!(m.mode, Mode::Normal);
    assert!(m.players_out.is_empty());
    assert_eq!(m.beggar_message, None);
    for p in m.players.iter() {
        assert_eq!(p.score, 0);
        assert_eq!(p.rank, None);
        assert!(p.past_ranks.is_empty());
    }
    assert_eq!(m.players[1].name, "B");
}

#[test]
fn two_round_scenario() {
    let mut m = four();
    finish(&mut m, &[0, 1, 2, 3]);
    update(Msg::EndRound, &mut m);
    assert_eq!(scores(&m), vec![30, 20, 10, 0]);
    update(Msg::GoOut(2), &mut m);
    assert_eq!(m.rank_out(0), Some(Rank::Beggar));
    assert!(m.beggar_message.is_some());
    finish(&mut m, &[1, 3]);
    assert_eq!(m.rank_out(2), Some(Rank::Tycoon));
    assert_eq!(m.rank_out(1), Some(Rank::Rich));
    assert_eq!(m.rank_out(3), Some(Rank::Poor));
    update(Msg::EndRound, &mut m);
    assert_eq!(scores(&m), vec![30, 40, 40, 10]);
    assert_eq!(m.beggar_message, None);
}

#[test]
fn ranking_by_score_then_key() {
    let mut m = four();
    finish(&mut m, &[0, 1, 2, 3]);
    update(Msg::EndRound, &mut m);
    finish(&mut m, &[2, 1, 3]);
    update(Msg::EndRound, &mut m);
    assert_eq!(m.ranking_order(), vec![1, 2, 0, 3]);
    let names: Vec<String> = m.get_ranking().iter().map(|p| p.name.clone()).collect();
    assert_eq!(names, vec!["B", "C", "A", "D"]);
}

#[test]
fn find_tycoon_and_last_not_out() {
    let mut m = four();
    assert_eq!(m.find_tycoon(), None);
    assert_eq!(m.find_last_not_out(), Some(0));
    finish(&mut m, &[3, 1, 2, 0]);
    update(Msg::EndRound, &mut m);
    assert_eq!(m.find_tycoon(), Some(3));
    update(Msg::GoOut(0), &mut m);
    assert_eq!(m.find_last_not_out(), Some(1));
    assert!(m.contains_beggar());
}

#[test]
fn setup_mode_and_inputs() {
    let mut m = Model::default();
    update(Msg::Setup, &mut m);
    assert_eq!(m.mode, Mode::Setup);
    update(Msg::AddPlayerOnEnter("Enter".to_string()), &mut m);
    assert_eq!(m.setup_state.num_of_inputs, 2);
    update(Msg::AddPlayerOnEnter("a".to_string()), &mut m);
    assert_eq!(m.setup_state.num_of_inputs, 2);
    update(Msg::SetupComplete, &mut m);
    assert_eq!(m.mode, Mode::Normal);
    assert!(m.players.is_empty());
}

#[test]
fn direct_round_calls() {
    let mut m = four();
    m.handle_go_out(0);
    m.handle_go_out(1);
    m.handle_go_out(2);
    m.handle_end_round();
    assert_eq!(m.round, 2);
    assert_eq!(scores(&m), vec![30, 20, 10, 0]);
    m.new_game();
    assert_eq!(scores(&m), vec![0, 0, 0, 0]);
}

use crate::msg::{Msg, SetupState, names_seq};
use crate::player::{Player, Rank, history_after, points_of};
use vstd::prelude::*;
use vstd::string::*;

verus! {

/// Where the game stands: playing rounds, editing the roster, or finished.
#[derive(Debug, Clone, Copy, PartialEq, Eq, Structural)]
pub enum Mode {
    Normal,
    Setup,
    GameOver,
}

/// The number of rounds in one game.
pub const LAST_ROUND: u8 = 3;

/// The round tracker: each entry is a player key and the standing it was given
/// this round, in the order the standings were given.
pub type Tracker = Seq<(usize, Rank)>;

/// The standing that the tracker gives key `k`, if any.
pub open spec fn out_rank(out: Tracker, k: usize) -> Option<Rank>
    decreases out.len(),
{
    if out.len() == 0 {
        None
    } else if out.last().0 == k {
        Some(out.last().1)
    } else {
        out_rank(out.drop_last(), k)
    }
}

/// Whether some entry of the tracker is a Beggar.
pub open spec fn has_beggar(out: Tracker) -> bool {
    exists|i: int| 0 <= i < out.len() && (#[trigger] out[i]).1 == Rank::Beggar
}

/// No key appears twice in the tracker, and every key is below `n`.
pub open spec fn tracker_ok(out: Tracker, n: nat) -> bool {
    &&& forall|i: int, j: int|
        0 <= i < j < out.len() ==> (#[trigger] out[i]).0 != (#[trigger] out[j]).0
    &&& forall|i: int| 0 <= i < out.len() ==> ((#[trigger] out[i]).0 as nat) < n
}

/// The lowest index below `n` whose player currently holds Tycoon.
pub open spec fn first_tycoon(ps: Seq<Player>, n: nat) -> Option<usize>
    decreases n,
{
    if n == 0 {
        None
    } else {
        match first_tycoon(ps, (n - 1) as nat) {
            Some(t) => Some(t),
            None => if ps[n - 1].rank == Some(Rank::Tycoon) {
                Some((n - 1) as usize)
            } else {
                None
            },
        }
    }
}

/// The lowest key below `n` that the tracker gives no standing.
pub open spec fn first_not_out(out: Tracker, n: nat) -> Option<usize>
    decreases n,
{
    if n == 0 {
        None
    } else {
        match first_not_out(out, (n - 1) as nat) {
            Some(k) => Some(k),
            None => if out_rank(out, (n - 1) as usize) is None {
                Some((n - 1) as usize)
            } else {
                None
            },
        }
    }
}

/// The advisory message when `new_name` finishes first and `old_name`, the
/// previous Tycoon, is made Beggar.
pub open spec fn beggar_text(new_name: Seq<char>, old_name: Seq<char>) -> Seq<char> {
    new_name + " went out so "@ + old_name + " is the beggar automatically."@
}

/// Whether a finish of `pid` is taken into account: the roster has four
/// players, `pid` is one of them, and `pid` has no standing yet this round.
pub open spec fn finish_counts(ps: Seq<Player>, out: Tracker, pid: usize) -> bool {
    &&& ps.len() == 4
    &&& pid < ps.len()
    &&& out_rank(out, pid) is None
}

/// The previous Tycoon that a first finish of `pid` demotes to Beggar, if any.
pub open spec fn demoted(ps: Seq<Player>, round: u8, pid: usize) -> Option<usize> {
    if round != 1 {
        match first_tycoon(ps, ps.len()) {
            Some(t) => if t != pid {
                Some(t)
            } else {
                None
            },
            None => None,
        }
    } else {
        None
    }
}

/// The tracker after `pid` finishes.
pub open spec fn tracker_after(ps: Seq<Player>, round: u8, out: Tracker, pid: usize) -> Tracker {
    if !finish_counts(ps, out, pid) {
        out
    } else if out.len() == 0 {
        match demoted(ps, round, pid) {
            Some(t) => seq![(pid, Rank::Tycoon), (t, Rank::Beggar)],
            None => seq![(pid, Rank::Tycoon)],
        }
    } else if out.len() == 1 {
        out.push((pid, Rank::Rich))
    } else if out.len() == 2 {
        let (mine, rest) = if has_beggar(out) {
            (Rank::Rich, Rank::Poor)
        } else {
            (Rank::Poor, Rank::Beggar)
        };
        let o1 = out.push((pid, mine));
        match first_not_out(o1, ps.len()) {
            Some(l) => o1.push((l, rest)),
            None => o1,
        }
    } else {
        out
    }
}

/// The advisory message after `pid` finishes, `msg` being the one before.
pub open spec fn message_after(
    ps: Seq<Player>,
    round: u8,
    out: Tracker,
    pid: usize,
    msg: Option<Seq<char>>,
) -> Option<Seq<char>> {
    if finish_counts(ps, out, pid) && out.len() == 0 {
        match demoted(ps, round, pid) {
            Some(t) => Some(beggar_text(ps[pid as int].name@, ps[t as int].name@)),
            None => msg,
        }
    } else {
        msg
    }
}

/// The text of an optional message.
pub open spec fn text_of(m: Option<String>) -> Option<Seq<char>> {
    match m {
        Some(s) => Some(s@),
        None => None,
    }
}

/// `new_p` is `old_p` after a round closes in which it was given `r`: with a
/// standing it takes that standing and its points, without one it is unchanged.
pub open spec fn closed_player(old_p: Player, new_p: Player, r: Option<Rank>) -> bool {
    match r {
        Some(rank) => {
            &&& new_p.name@ == old_p.name@
            &&& new_p.rank == Some(rank)
            &&& new_p.past_ranks@ == history_after(old_p.past_ranks@, old_p.rank)
            &&& new_p.score == old_p.score + points_of(rank)
        },
        None => new_p@ == old_p@,
    }
}

/// Whether every player of the roster has a standing this round.
pub open spec fn round_complete(ps: Seq<Player>, out: Tracker) -> bool {
    forall|k: usize| k < ps.len() ==> (#[trigger] out_rank(out, k)) is Some
}

proof fn lemma_first_tycoon_stays(ps: Seq<Player>, m: nat, n: nat)
    requires
        m <= n,
        first_tycoon(ps, m) is Some,
    ensures
        first_tycoon(ps, n) == first_tycoon(ps, m),
    decreases n - m,
{
    if m < n {
        lemma_first_tycoon_stays(ps, m, (n - 1) as nat);
    }
}

proof fn lemma_first_not_out_stays(out: Tracker, m: nat, n: nat)
    requires
        m <= n,
        first_not_out(out, m) is Some,
    ensures
        first_not_out(out, n) == first_not_out(out, m),
    decreases n - m,
{
    if m < n {
        lemma_first_not_out_stays(out, m, (n - 1) as nat);
    }
}

/// The tracker after an entry for `k` is added gives `k` that standing and
/// leaves every other key as it was.
pub proof fn lemma_out_rank_push(out: Tracker, k: usize, r: Rank, j: usize)
    ensures
        out_rank(out.push((k, r)), j) == if j == k {
            Some(r)
        } else {
            out_rank(out, j)
        },
{
    assert(out.push((k, r)).drop_last() =~= out);
}

/// A key has no standing exactly when no entry of the tracker holds it.
pub proof fn lemma_out_rank_none(out: Tracker, k: usize)
    ensures
        (out_rank(out, k) is None) == (forall|i: int| 0 <= i < out.len() ==> (#[trigger] out[i]).0 != k),
    decreases out.len(),
{
    if out.len() > 0 {
        lemma_out_rank_none(out.drop_last(), k);
        assert forall|i: int| 0 <= i < out.len() - 1 implies out.drop_last()[i] == out[i] by {}
    }
}

proof fn lemma_first_not_out_found(out: Tracker, n: nat)
    ensures
        first_not_out(out, n) matches Some(l) ==> l < n && out_rank(out, l) is None,
    decreases n,
{
    if n > 0 {
        lemma_first_not_out_found(out, (n - 1) as nat);
    }
}

proof fn lemma_first_tycoon_found(ps: Seq<Player>, n: nat)
    requires
        n <= ps.len(),
        n <= usize::MAX,
    ensures
        first_tycoon(ps, n) matches Some(t) ==> t < n && ps[t as int].rank == Some(Rank::Tycoon),
    decreases n,
{
    if n > 0 {
        lemma_first_tycoon_found(ps, (n - 1) as nat);
    }
}

/// Adding an entry for a key that has none keeps the tracker well formed.
proof fn lemma_tracker_push(out: Tracker, n: nat, k: usize, r: Rank)
    requires
        tracker_ok(out, n),
        k < n,
        out_rank(out, k) is None,
    ensures
        tracker_ok(out.push((k, r)), n),
{
    lemma_out_rank_none(out, k);
}

/// A tracker with as many entries as players gives every player a standing.
pub proof fn lemma_full_tracker(out: Tracker, n: nat)
    requires
        tracker_ok(out, n),
        out.len() >= n,
    ensures
        forall|k: usize| k < n ==> (#[trigger] out_rank(out, k)) is Some,
{
    assert forall|k: usize| k < n implies (#[trigger] out_rank(out, k)) is Some by {
        if out_rank(out, k) is None {
            lemma_out_rank_none(out, k);
            let ks = out.map_values(|e: (usize, Rank)| e.0 as int);
            assert(ks.no_duplicates()) by {
                assert forall|i: int, j: int| 0 <= i < ks.len() && 0 <= j < ks.len() && i != j
                    implies ks[i] != ks[j] by {
                    if i < j {
                        assert(out[i].0 != out[j].0);
                    } else {
                        assert(out[j].0 != out[i].0);
                    }
                }
            }
            ks.unique_seq_to_set();
            let range = vstd::set_lib::set_int_range(0, n as int).remove(k as int);
            vstd::set_lib::lemma_int_range(0, n as int);
            assert(ks.to_set().subset_of(range)) by {
                assert forall|x: int| ks.to_set().contains(x) implies range.contains(x) by {
                    let i = choose|i: int| 0 <= i < ks.len() && ks[i] == x;
                    assert(out[i].0 != k);
                }
            }
            vstd::set_lib::lemma_len_subset(ks.to_set(), range);
        }
    }
}

/// Player `a` comes before player `b` in the ranking: a higher score, or an
/// equal score and a lower key.
pub open spec fn ranked_before(ps: Seq<Player>, a: usize, b: usize) -> bool {
    ps[a as int].score > ps[b as int].score || (ps[a as int].score == ps[b as int].score && a < b)
}

/// `order` lists every key of the roster once, best ranked first.
pub open spec fn is_ranking(ps: Seq<Player>, order: Seq<usize>) -> bool {
    &&& order.len() == ps.len()
    &&& forall|i: int| 0 <= i < order.len() ==> (#[trigger] order[i] as int) < ps.len()
    &&& forall|i: int, j: int|
        0 <= i < j < order.len() ==> (#[trigger] order[i]) != (#[trigger] order[j])
    &&& forall|i: int, j: int|
        0 <= i < j < order.len() ==> ranked_before(ps, #[trigger] order[i], #[trigger] order[j])
}

/// One game session: the roster (a player's key is its index), the round
/// being played, the mode, the setup form, the round tracker and the
/// advisory message.
#[derive(Debug)]
pub struct Model {
    pub players: Vec<Player>,
    pub round: u8,
    pub mode: Mode,
    pub setup_state: SetupState,
    pub players_out: Vec<(usize, Rank)>,
    pub beggar_message: Option<String>,
}

impl Default for Model {
    /// An empty roster in round one, in play, with an empty setup form.
    fn default() -> (m: Model)
        ensures
            m.wf(),
            m.players@ == Seq::<Player>::empty(),
            m.round == 1,
            m.mode == Mode::Normal,
            m.setup_state.num_of_inputs == 1,
            m.setup_state.player_names@ == Map::<usize, String>::empty(),
            m.players_out@ == Seq::<(usize, Rank)>::empty(),
            m.beggar_message is None,
    {
        Model {
            players: Vec::new(),
            round: 1,
            mode: Mode::Normal,
            setup_state: SetupState::new(),
            players_out: Vec::new(),
            beggar_message: None,
        }
    }
}

/// `after` is `before` once `msg` has been applied.
pub open spec fn update_result(msg: Msg, before: Model, after: Model) -> bool {
    match msg {
        Msg::GoOut(pid) => before.went_out(after, pid),
        Msg::EndRound => if before.can_end_round() {
            before.round_ended(after)
        } else {
            after == before
        },
        Msg::NewGame => before.game_reset(after) && after.setup_state
            == before.setup_state,
        Msg::Setup => after == (Model { mode: Mode::Setup, ..before }),
        Msg::SetupComplete => after == (Model { mode: Mode::Normal, ..before }),
        Msg::AddPlayer(name, idx) => {
            &&& after.setup_state.num_of_inputs == before.setup_state.num_of_inputs
            &&& after.setup_state.player_names@ == if idx
                < before.setup_state.num_of_inputs {
                before.setup_state.player_names@.insert(idx, name)
            } else {
                before.setup_state.player_names@
            }
            &&& after.players == before.players
            &&& after.round == before.round
            &&& after.mode == before.mode
            &&& after.players_out == before.players_out
            &&& after.beggar_message == before.beggar_message
        },
        Msg::MorePlayers => before.input_added(after),
        Msg::SavePlayers => before.roster_saved(after),
        Msg::AddPlayerOnEnter(key) => if key@ == "Enter"@ {
            before.input_added(after)
        } else {
            after == before
        },
    }
}

/// Applies one command of the presentation to the model.
pub fn update(msg: Msg, model: &mut Model)
    requires
        old(model).wf(),
    ensures
        final(model).wf(),
        update_result(msg, *old(model), *final(model)),
{
    match msg {
        Msg::GoOut(pid) => model.handle_go_out(pid),
        Msg::EndRound => model.end_round(),
        Msg::NewGame => model.new_game(),
        Msg::Setup => model.mode = Mode::Setup,
        Msg::SetupComplete => model.mode = Mode::Normal,
        Msg::AddPlayer(name, idx) => model.setup_state.set_name(idx, name),
        Msg::MorePlayers => model.setup_state.add_input(),
        Msg::SavePlayers => model.save_players(),
        Msg::AddPlayerOnEnter(key) => {
            let enter = "Enter".to_owned();
            if key == enter {
                model.setup_state.add_input();
            }
        },
    }
}

impl Model {
    /// `next` is this model with one more setup input shown.
    pub open spec fn input_added(self, next: Model) -> bool {
        &&& next.setup_state.player_names@ == self.setup_state.player_names@
        &&& next.setup_state.num_of_inputs == if self.setup_state.num_of_inputs < usize::MAX {
            (self.setup_state.num_of_inputs + 1) as usize
        } else {
            usize::MAX
        }
        &&& next.players == self.players
        &&& next.round == self.round
        &&& next.mode == self.mode
        &&& next.players_out == self.players_out
        &&& next.beggar_message == self.beggar_message
    }

    pub open spec fn wf(&self) -> bool {
        &&& 1 <= self.round <= LAST_ROUND + 1
        &&& self.setup_state.wf()
        &&& tracker_ok(self.players_out@, self.players@.len())
        &&& forall|i: int|
            0 <= i < self.players@.len() ==> (#[trigger] self.players@[i]).score <= 30 * (
            self.round - 1)
    }

    /// `next` is this model after `pid` finishes: only the tracker and the
    /// advisory message change.
    pub open spec fn went_out(self, next: Model, pid: usize) -> bool {
        &&& next.players@ == self.players@
        &&& next.round == self.round
        &&& next.mode == self.mode
        &&& next.setup_state == self.setup_state
        &&& next.players_out@ == tracker_after(self.players@, self.round, self.players_out@, pid)
        &&& text_of(next.beggar_message) == message_after(
            self.players@,
            self.round,
            self.players_out@,
            pid,
            text_of(self.beggar_message),
        )
    }

    /// `next` is this model after its round's standings are applied: each
    /// player with a standing gets it and its points, the others are
    /// unchanged; the tracker and message are cleared and the round advances.
    pub open spec fn round_closed(self, next: Model) -> bool {
        &&& next.players@.len() == self.players@.len()
        &&& forall|i: int|
            0 <= i < self.players@.len() ==> closed_player(
                self.players@[i],
                #[trigger] next.players@[i],
                out_rank(self.players_out@, i as usize),
            )
        &&& next.players_out@ == Seq::<(usize, Rank)>::empty()
        &&& next.round == self.round + 1
        &&& next.beggar_message is None
        &&& next.setup_state == self.setup_state
    }

    /// `next` is this model after its round closes in play: the game is over
    /// exactly when the last round closes.
    pub open spec fn round_ended(self, next: Model) -> bool {
        &&& self.round_closed(next)
        &&& next.mode == if self.round == LAST_ROUND {
            Mode::GameOver
        } else {
            Mode::Normal
        }
    }

    /// `next` starts a new game with this model's roster.
    pub open spec fn game_reset(self, next: Model) -> bool {
        &&& next.players@.len() == self.players@.len()
        &&& forall|i: int|
            0 <= i < self.players@.len() ==> {
                &&& (#[trigger] next.players@[i]).name@ == self.players@[i].name@
                &&& next.players@[i].score == 0
                &&& next.players@[i].rank is None
                &&& next.players@[i].past_ranks@ == Seq::<Rank>::empty()
            }
        &&& next.round == 1
        &&& next.players_out@ == Seq::<(usize, Rank)>::empty()
        &&& next.beggar_message is None
        &&& next.mode == Mode::Normal
    }

    /// `next` holds the roster typed into this model's setup form, fresh for
    /// a new game, with the form emptied.
    pub open spec fn roster_saved(self, next: Model) -> bool {
        let names = names_seq(self.setup_state.player_names@, self.setup_state.num_of_inputs as nat);
        &&& next.players@.len() == names.len()
        &&& forall|i: int|
            0 <= i < names.len() ==> {
                &&& (#[trigger] next.players@[i]).name@ == names[i]
                &&& next.players@[i].score == 0
                &&& next.players@[i].rank is None
                &&& next.players@[i].past_ranks@ == Seq::<Rank>::empty()
            }
        &&& next.round == 1
        &&& next.players_out@ == Seq::<(usize, Rank)>::empty()
        &&& next.beggar_message is None
        &&& next.mode == Mode::Normal
        &&& next.setup_state.num_of_inputs == 1
        &&& next.setup_state.player_names@ == Map::<usize, String>::empty()
    }

    /// Replaces the roster by the names typed into the setup form, in input
    /// order (key `i` is the `i`-th name), empties the form and starts a new
    /// game.
    pub fn save_players(&mut self)
        requires
            old(self).wf(),
        ensures
            final(self).wf(),
            old(self).roster_saved(*final(self)),
    {
        let ghost names = names_seq(
            self.setup_state.player_names@,
            self.setup_state.num_of_inputs as nat,
        );
        let typed = self.setup_state.names_in_order();
        let mut roster: Vec<Player> = Vec::new();
        let mut i: usize = 0;
        while i < typed.len()
            invariant
                typed@.map_values(|s: String| s@) == names,
                i <= typed@.len(),
                roster@.len() == i,
                forall|k: int|
                    0 <= k < i ==> {
                        &&& (#[trigger] roster@[k]).name@ == names[k]
                        &&& roster@[k].score == 0
                        &&& roster@[k].rank is None
                        &&& roster@[k].past_ranks@ == Seq::<Rank>::empty()
                    },
            decreases typed@.len() - i,
        {
            roster.push(Player::new(typed[i].as_str()));
            i = i + 1;
        }
        self.players = roster;
        self.players_out = Vec::new();
        self.setup_state.clear();
        self.new_game();
    }

    /// Records that player `pid` finished the round. The first finisher is
    /// Tycoon; after round one, a previous Tycoon who is not that finisher is
    /// made Beggar at once, with an advisory message. The second finisher is
    /// Rich. The third is Rich if a Beggar was given out already, and the
    /// player left is then Poor; otherwise the third is Poor and the player
    /// left is Beggar. A finish is ignored unless the roster has four players,
    /// `pid` is one of them and has no standing yet this round.
    pub fn handle_go_out(&mut self, pid: usize)
        requires
            old(self).wf(),
        ensures
            final(self).wf(),
            old(self).went_out(*final(self), pid),
    {
        let ghost ps = self.players@;
        let ghost n = self.players@.len();
        if self.players.len() != 4 || pid >= self.players.len() || self.rank_out(pid).is_some() {
            return;
        }
        let m = self.players_out.len();
        if m == 0 {
            proof {
                lemma_tracker_push(self.players_out@, n, pid, Rank::Tycoon);
            }
            self.players_out.push((pid, Rank::Tycoon));
            if self.round != 1 {
                match self.find_tycoon() {
                    Some(tid) => {
                        if tid != pid {
                            proof {
                                lemma_first_tycoon_found(ps, n);
                                lemma_out_rank_push(self.players_out@.drop_last(), pid, Rank::Tycoon, tid);
                                assert(self.players_out@.drop_last() =~= Seq::<(usize, Rank)>::empty());
                                lemma_tracker_push(self.players_out@, n, tid, Rank::Beggar);
                            }
                            self.players_out.push((tid, Rank::Beggar));
                            let mut text = self.players[pid].name.clone();
                            text.append(" went out so ");
                            text.append(self.players[tid].name.as_str());
                            text.append(" is the beggar automatically.");
                            self.beggar_message = Some(text);
                            assert(self.players_out@ =~= seq![(pid, Rank::Tycoon), (tid, Rank::Beggar)]);
                        }
                    },
                    None => {},
                }
            }
            assert(self.players_out@ =~= tracker_after(ps, self.round, Seq::empty(), pid));
        } else if m == 1 {
            proof {
                lemma_tracker_push(self.players_out@, n, pid, Rank::Rich);
            }
            self.players_out.push((pid, Rank::Rich));
        } else if m == 2 {
            let (mine, rest) = if self.contains_beggar() {
                (Rank::Rich, Rank::Poor)
            } else {
                (Rank::Poor, Rank::Beggar)
            };
            proof {
                lemma_tracker_push(self.players_out@, n, pid, mine);
            }
            self.players_out.push((pid, mine));
            match self.find_last_not_out() {
                Some(l) => {
                    proof {
                        lemma_first_not_out_found(self.players_out@, n);
                        lemma_tracker_push(self.players_out@, n, l, rest);
                    }
                    self.players_out.push((l, rest));
                },
                None => {},
            }
        }
    }

    /// Applies the round's standings to the player records, empties the
    /// tracker, clears the advisory message and moves to the next round.
    pub fn handle_end_round(&mut self)
        requires
            old(self).wf(),
            old(self).round <= LAST_ROUND,
        ensures
            final(self).wf(),
            old(self).round_closed(*final(self)),
            final(self).mode == old(self).mode,
    {
        let mut next: Vec<Player> = Vec::new();
        let mut i: usize = 0;
        while i < self.players.len()
            invariant
                self.wf(),
                self.round <= LAST_ROUND,
                i <= self.players@.len(),
                next@.len() == i,
                forall|j: int|
                    0 <= j < i ==> closed_player(
                        self.players@[j],
                        #[trigger] next@[j],
                        out_rank(self.players_out@, j as usize),
                    ),
                forall|j: int| 0 <= j < i ==> (#[trigger] next@[j]).score <= 30 * self.round,
            decreases self.players@.len() - i,
        {
            let mut p = self.players[i].duplicate();
            assert(self.players@[i as int].score <= 30 * (self.round - 1));
            match self.rank_out(i) {
                Some(r) => p.apply_standing(r),
                None => {},
            }
            next.push(p);
            i = i + 1;
        }
        self.players = next;
        self.players_out = Vec::new();
        self.round = self.round + 1;
        self.beggar_message = None;
    }

    /// Closes the round once every player has a standing, while a game is
    /// being played: closing the last round ends the game. Otherwise nothing
    /// changes.
    pub fn end_round(&mut self)
        requires
            old(self).wf(),
        ensures
            final(self).wf(),
            !old(self).can_end_round() ==> *final(self) == *old(self),
            !round_complete(old(self).players@, old(self).players_out@) ==> *final(self) == *old(
                self,
            ),
            old(self).can_end_round() ==> round_complete(old(self).players@, old(self).players_out@),
            old(self).can_end_round() ==> old(self).round_ended(*final(self)),
    {
        if self.mode != Mode::Normal || self.round > LAST_ROUND || self.players_out.len()
            < self.players.len() {
            return;
        }
        proof {
            lemma_full_tracker(self.players_out@, self.players@.len());
        }
        if self.round == LAST_ROUND {
            self.mode = Mode::GameOver;
        }
        self.handle_end_round();
    }

    /// Whether a round can be closed now.
    pub open spec fn can_end_round(&self) -> bool {
        &&& self.mode == Mode::Normal
        &&& self.round <= LAST_ROUND
        &&& self.players_out@.len() >= self.players@.len()
    }

    /// Starts a new game with the same roster: scores, standings and
    /// histories are cleared, the round is the first, the tracker and the
    /// advisory message are empty.
    pub fn new_game(&mut self)
        requires
            old(self).wf(),
        ensures
            final(self).wf(),
            old(self).game_reset(*final(self)),
            final(self).setup_state == old(self).setup_state,
    {
        let mut next: Vec<Player> = Vec::new();
        let mut i: usize = 0;
        while i < self.players.len()
            invariant
                i <= self.players@.len(),
                next@.len() == i,
                forall|j: int|
                    0 <= j < i ==> {
                        &&& (#[trigger] next@[j]).name@ == self.players@[j].name@
                        &&& next@[j].score == 0
                        &&& next@[j].rank is None
                        &&& next@[j].past_ranks@ == Seq::<Rank>::empty()
                    },
            decreases self.players@.len() - i,
        {
            let mut p = self.players[i].duplicate();
            p.reset_for_new_game();
            next.push(p);
            i = i + 1;
        }
        self.players = next;
        self.round = 1;
        self.players_out = Vec::new();
        self.beggar_message = None;
        self.mode = Mode::Normal;
    }

    /// The player keys by score, highest first; equal scores keep key order.
    pub fn ranking_order(&self) -> (r: Vec<usize>)
        ensures
            is_ranking(self.players@, r@),
    {
        let ghost ps = self.players@;
        let mut order: Vec<usize> = Vec::new();
        let mut i: usize = 0;
        while i < self.players.len()
            invariant
                ps == self.players@,
                i <= ps.len(),
                order@.len() == i,
                forall|k: int| 0 <= k < order@.len() ==> (#[trigger] order@[k]) < i,
                forall|a: int, b: int|
                    0 <= a < b < order@.len() ==> (#[trigger] order@[a]) != (#[trigger] order@[b]),
                forall|a: int, b: int|
                    0 <= a < b < order@.len() ==> ranked_before(
                        ps,
                        #[trigger] order@[a],
                        #[trigger] order@[b],
                    ),
            decreases ps.len() - i,
        {
            let s = self.players[i].score;
            let mut j: usize = 0;
            while j < order.len() && self.players[order[j]].score >= s
                invariant
                    ps == self.players@,
                    i < ps.len(),
                    j <= order@.len(),
                    forall|k: int| 0 <= k < order@.len() ==> (#[trigger] order@[k]) < i,
                    forall|k: int| 0 <= k < j ==> ps[(#[trigger] order@[k]) as int].score >= s,
                decreases order@.len() - j,
            {
                j = j + 1;
            }
            let ghost before = order@;
            order.insert(j, i);
            assert forall|a: int, b: int| 0 <= a < b < order@.len() implies ranked_before(
                ps,
                #[trigger] order@[a],
                #[trigger] order@[b],
            ) by {
                if a < j as int && b == j as int {
                    assert(ps[before[a] as int].score >= s);
                } else if a == j as int {
                    assert(j < before.len());
                    assert(ps[before[j as int] as int].score < s);
                    if b > a + 1 {
                        assert(ranked_before(ps, before[j as int], before[b - 1]));
                    }
                } else if b > j as int && a < j as int {
                    assert(ranked_before(ps, before[a], before[b - 1]));
                } else if a > j as int {
                    assert(ranked_before(ps, before[a - 1], before[b - 1]));
                } else {
                    assert(ranked_before(ps, before[a], before[b]));
                }
            }
            assert forall|a: int, b: int| 0 <= a < b < order@.len() implies (#[trigger] order@[a])
                != (#[trigger] order@[b]) by {
                if a < j as int && b > j as int {
                    assert(before[a] != before[b - 1]);
                } else if a > j as int {
                    assert(before[a - 1] != before[b - 1]);
                } else if b < j as int {
                    assert(before[a] != before[b]);
                }
            }
            i = i + 1;
        }
        order
    }

    /// Copies of the player records, best ranked first (see `ranking_order`).
    pub fn get_ranking(&self) -> (r: Vec<Player>)
        ensures
            exists|order: Seq<usize>|
                {
                    &&& is_ranking(self.players@, order)
                    &&& r@.len() == order.len()
                    &&& forall|i: int|
                        0 <= i < order.len() ==> (#[trigger] r@[i])@ == self.players@[order[i] as int]@
                },
    {
        let order = self.ranking_order();
        let mut out: Vec<Player> = Vec::new();
        let mut i: usize = 0;
        while i < order.len()
            invariant
                is_ranking(self.players@, order@),
                i <= order@.len(),
                out@.len() == i,
                forall|k: int| 0 <= k < i ==> (#[trigger] out@[k])@ == self.players@[order@[k] as int]@,
            decreases order@.len() - i,
        {
            out.push(self.players[order[i]].duplicate());
            i = i + 1;
        }
        out
    }

    /// The standing that player `k` has been given this round, if any.
    pub fn rank_out(&self, k: usize) -> (r: Option<Rank>)
        ensures
            r == out_rank(self.players_out@, k),
    {
        let mut j: usize = self.players_out.len();
        assert(self.players_out@.subrange(0, j as int) =~= self.players_out@);
        while j > 0
            invariant
                j <= self.players_out@.len(),
                out_rank(self.players_out@, k) == out_rank(self.players_out@.subrange(0, j as int), k),
            decreases j,
        {
            let ghost pre = self.players_out@.subrange(0, j as int);
            let (key, rank) = self.players_out[j - 1];
            if key == k {
                return Some(rank);
            }
            assert(pre.drop_last() =~= self.players_out@.subrange(0, j - 1));
            j = j - 1;
        }
        assert(self.players_out@.subrange(0, 0) =~= Seq::<(usize, Rank)>::empty());
        None
    }

    /// Whether a Beggar has been given out this round.
    pub fn contains_beggar(&self) -> (r: bool)
        ensures
            r == has_beggar(self.players_out@),
    {
        let mut i: usize = 0;
        while i < self.players_out.len()
            invariant
                i <= self.players_out@.len(),
                forall|j: int| 0 <= j < i ==> (#[trigger] self.players_out@[j]).1 != Rank::Beggar,
            decreases self.players_out@.len() - i,
        {
            if self.players_out[i].1 == Rank::Beggar {
                return true;
            }
            i = i + 1;
        }
        false
    }

    /// The lowest key whose player currently holds Tycoon.
    pub fn find_tycoon(&self) -> (r: Option<usize>)
        ensures
            r == first_tycoon(self.players@, self.players@.len()),
    {
        let mut i: usize = 0;
        while i < self.players.len()
            invariant
                i <= self.players@.len(),
                first_tycoon(self.players@, i as nat) is None,
            decreases self.players@.len() - i,
        {
            if self.players[i].is_tycoon() {
                proof {
                    lemma_first_tycoon_stays(self.players@, (i + 1) as nat, self.players@.len());
                }
                return Some(i);
            }
            i = i + 1;
        }
        None
    }

    /// The lowest key that has no standing yet this round.
    pub fn find_last_not_out(&self) -> (r: Option<usize>)
        ensures
            r == first_not_out(self.players_out@, self.players@.len()),
    {
        let mut i: usize = 0;
        while i < self.players.len()
            invariant
                i <= self.players@.len(),
                first_not_out(self.players_out@, i as nat) is None,
            decreases self.players@.len() - i,
        {
            if self.rank_out(i).is_none() {
                proof {
                    lemma_first_not_out_stays(self.players_out@, (i + 1) as nat, self.players@.len());
                }
                return Some(i);
            }
            i = i + 1;
        }
        None
    }
}

} // verus!

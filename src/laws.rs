use crate::game::{
    LAST_ROUND, Mode, Model, Tracker, beggar_text, closed_player, demoted, first_not_out,
    first_tycoon, has_beggar, lemma_full_tracker, lemma_out_rank_none, lemma_out_rank_push,
    message_after, out_rank, round_complete, tracker_after, tracker_ok, update_result,
};
use crate::msg::Msg;
use crate::player::{Player, Rank, points_of};
use vstd::prelude::*;

verus! {

proof fn lemma_rank_pair(a: usize, ra: Rank, b: usize, rb: Rank, j: usize)
    ensures
        out_rank(seq![(a, ra), (b, rb)], j) == if j == b {
            Some(rb)
        } else if j == a {
            Some(ra)
        } else {
            None
        },
{
    let one = seq![(a, ra)];
    assert(seq![(a, ra), (b, rb)] =~= one.push((b, rb)));
    lemma_out_rank_push(one, b, rb, j);
    assert(one =~= Seq::<(usize, Rank)>::empty().push((a, ra)));
    lemma_out_rank_push(Seq::empty(), a, ra, j);
}

/// With four players, finishing in the order `a`, `b`, `c`, `d` in the first
/// round gives Tycoon, Rich, Poor and Beggar.
pub proof fn lemma_first_round_order(ps: Seq<Player>, a: usize, b: usize, c: usize, d: usize)
    requires
        ps.len() == 4,
        a < 4 && b < 4 && c < 4 && d < 4,
        a != b && a != c && a != d && b != c && b != d && c != d,
    ensures
        ({
            let o1 = tracker_after(ps, 1, Seq::empty(), a);
            let o2 = tracker_after(ps, 1, o1, b);
            let o3 = tracker_after(ps, 1, o2, c);
            let o4 = tracker_after(ps, 1, o3, d);
            &&& out_rank(o4, a) == Some(Rank::Tycoon)
            &&& out_rank(o4, b) == Some(Rank::Rich)
            &&& out_rank(o4, c) == Some(Rank::Poor)
            &&& out_rank(o4, d) == Some(Rank::Beggar)
        }),
{
    let e = Seq::<(usize, Rank)>::empty();
    let o1 = tracker_after(ps, 1, e, a);
    assert(o1 == e.push((a, Rank::Tycoon)));
    lemma_out_rank_push(e, a, Rank::Tycoon, b);
    let o2 = tracker_after(ps, 1, o1, b);
    assert(o2 == o1.push((b, Rank::Rich)));
    lemma_out_rank_push(e, a, Rank::Tycoon, c);
    lemma_out_rank_push(o1, b, Rank::Rich, c);
    lemma_out_rank_none(o2, c);
    assert(!has_beggar(o2)) by {
        assert forall|i: int| 0 <= i < o2.len() implies (#[trigger] o2[i]).1 != Rank::Beggar by {}
    }
    let p3 = o2.push((c, Rank::Poor));
    assert forall|k: usize| k < 4 implies (out_rank(p3, k) is None) == (k == d) by {
        lemma_out_rank_push(o2, c, Rank::Poor, k);
        lemma_out_rank_push(o1, b, Rank::Rich, k);
        lemma_out_rank_push(e, a, Rank::Tycoon, k);
    }
    reveal_with_fuel(first_not_out, 5);
    assert(first_not_out(p3, 4) == Some(d));
    let o3 = tracker_after(ps, 1, o2, c);
    assert(o3 == p3.push((d, Rank::Beggar)));
    lemma_out_rank_push(p3, d, Rank::Beggar, d);
    let o4 = tracker_after(ps, 1, o3, d);
    assert(o4 == o3);
    lemma_out_rank_push(p3, d, Rank::Beggar, a);
    lemma_out_rank_push(p3, d, Rank::Beggar, b);
    lemma_out_rank_push(p3, d, Rank::Beggar, c);
    lemma_out_rank_push(o2, c, Rank::Poor, a);
    lemma_out_rank_push(o2, c, Rank::Poor, b);
    lemma_out_rank_push(o1, b, Rank::Rich, a);
}

/// After the first round, when `p` holds Tycoon and `q` finishes first: if
/// `q` is not `p`, `q` is Tycoon, `p` is Beggar at once and the advisory
/// message is set and not empty; if `q` is `p`, `p` alone is Tycoon and the
/// message is left as it was.
pub proof fn lemma_carry_over(
    ps: Seq<Player>,
    round: u8,
    p: usize,
    q: usize,
    msg: Option<Seq<char>>,
)
    requires
        ps.len() == 4,
        round != 1,
        p < 4,
        q < 4,
        ps[p as int].rank == Some(Rank::Tycoon),
        forall|i: int| 0 <= i < 4 && i != p ==> (#[trigger] ps[i]).rank != Some(Rank::Tycoon),
    ensures
        ({
            let out = tracker_after(ps, round, Seq::empty(), q);
            let m = message_after(ps, round, Seq::empty(), q, msg);
            &&& q != p ==> {
                &&& out.len() == 2
                &&& out_rank(out, q) == Some(Rank::Tycoon)
                &&& out_rank(out, p) == Some(Rank::Beggar)
                &&& m == Some(beggar_text(ps[q as int].name@, ps[p as int].name@))
                &&& m.unwrap().len() > 0
            }
            &&& q == p ==> {
                &&& out == seq![(p, Rank::Tycoon)]
                &&& m == msg
            }
        }),
{
    reveal_with_fuel(first_tycoon, 5);
    assert(first_tycoon(ps, 4) == Some(p));
    reveal_strlit(" went out so ");
    lemma_rank_pair(q, Rank::Tycoon, p, Rank::Beggar, q);
    lemma_rank_pair(q, Rank::Tycoon, p, Rank::Beggar, p);
}

/// The third finisher is Rich and the player left is Poor when a Beggar was
/// already given out this round; otherwise the third finisher is Poor and the
/// player left is Beggar.
pub proof fn lemma_third_finisher(ps: Seq<Player>, round: u8, out: Tracker, pid: usize, l: usize)
    requires
        ps.len() == 4,
        tracker_ok(out, 4),
        out.len() == 2,
        pid < 4,
        l < 4,
        pid != l,
        out_rank(out, pid) is None,
        out_rank(out, l) is None,
    ensures
        ({
            let o = tracker_after(ps, round, out, pid);
            &&& has_beggar(out) ==> out_rank(o, pid) == Some(Rank::Rich) && out_rank(o, l) == Some(
                Rank::Poor,
            )
            &&& !has_beggar(out) ==> out_rank(o, pid) == Some(Rank::Poor) && out_rank(o, l)
                == Some(Rank::Beggar)
        }),
{
    let mine = if has_beggar(out) {
        Rank::Rich
    } else {
        Rank::Poor
    };
    let rest = if has_beggar(out) {
        Rank::Poor
    } else {
        Rank::Beggar
    };
    let p3 = out.push((pid, mine));
    lemma_out_rank_none(out, pid);
    lemma_out_rank_none(out, l);
    assert(out[0].0 != out[1].0);
    assert forall|k: usize| k < 4 implies (out_rank(p3, k) is None) == (k == l) by {
        lemma_out_rank_push(out, pid, mine, k);
        lemma_out_rank_none(out, k);
    }
    reveal_with_fuel(first_not_out, 5);
    assert(first_not_out(p3, 4) == Some(l));
    lemma_out_rank_push(p3, l, rest, l);
    lemma_out_rank_push(p3, l, rest, pid);
    lemma_out_rank_push(out, pid, mine, pid);
}

/// A second finish of the same player in a round changes neither the tracker
/// nor the advisory message.
pub proof fn lemma_finish_idempotent(
    ps: Seq<Player>,
    round: u8,
    out: Tracker,
    x: usize,
    msg: Option<Seq<char>>,
)
    ensures
        ({
            let o1 = tracker_after(ps, round, out, x);
            let m1 = message_after(ps, round, out, x, msg);
            &&& tracker_after(ps, round, o1, x) == o1
            &&& message_after(ps, round, o1, x, m1) == m1
        }),
{
    let o1 = tracker_after(ps, round, out, x);
    if o1 != out {
        let e = Seq::<(usize, Rank)>::empty();
        if out.len() == 0 {
            lemma_out_rank_push(e, x, Rank::Tycoon, x);
            assert(seq![(x, Rank::Tycoon)] =~= e.push((x, Rank::Tycoon)));
            match demoted(ps, round, x) {
                Some(t) => lemma_rank_pair(x, Rank::Tycoon, t, Rank::Beggar, x),
                None => {},
            }
        } else if out.len() == 1 {
            lemma_out_rank_push(out, x, Rank::Rich, x);
        } else {
            let mine = if has_beggar(out) {
                Rank::Rich
            } else {
                Rank::Poor
            };
            let rest = if has_beggar(out) {
                Rank::Poor
            } else {
                Rank::Beggar
            };
            let p3 = out.push((x, mine));
            lemma_out_rank_push(out, x, mine, x);
            match first_not_out(p3, ps.len()) {
                Some(l) => lemma_out_rank_push(p3, l, rest, x),
                None => {},
            }
        }
    }
}

/// Over three closes in a row, a player's score grows by the points of the
/// three standings it was given.
pub proof fn lemma_three_rounds(m0: Model, m1: Model, m2: Model, m3: Model, i: int)
    requires
        m0.round_closed(m1),
        m1.round_closed(m2),
        m2.round_closed(m3),
        0 <= i < m0.players@.len(),
        out_rank(m0.players_out@, i as usize) is Some,
        out_rank(m1.players_out@, i as usize) is Some,
        out_rank(m2.players_out@, i as usize) is Some,
    ensures
        m3.players@[i].score == m0.players@[i].score + points_of(
            out_rank(m0.players_out@, i as usize).unwrap(),
        ) + points_of(out_rank(m1.players_out@, i as usize).unwrap()) + points_of(
            out_rank(m2.players_out@, i as usize).unwrap(),
        ),
{
    assert(closed_player(m0.players@[i], m1.players@[i], out_rank(m0.players_out@, i as usize)));
    assert(closed_player(m1.players@[i], m2.players@[i], out_rank(m1.players_out@, i as usize)));
    assert(closed_player(m2.players@[i], m3.players@[i], out_rank(m2.players_out@, i as usize)));
}

/// A command ends the game exactly when it closes the last round; a round
/// is never closed while some player lacks a standing.
pub proof fn lemma_game_over_at_last_round(msg: Msg, before: Model, after: Model)
    requires
        before.wf(),
        update_result(msg, before, after),
    ensures
        (before.mode != Mode::GameOver && after.mode == Mode::GameOver) <==> (msg is EndRound
            && before.can_end_round() && before.round == LAST_ROUND),
        msg is EndRound && !round_complete(before.players@, before.players_out@) ==> after
            == before,
{
    if msg is EndRound && before.can_end_round() {
        lemma_full_tracker(before.players_out@, before.players@.len());
    }
}

} // verus!

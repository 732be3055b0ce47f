use vstd::prelude::*;

verus! {

/// The four standings of a round, ordered Beggar < Poor < Rich < Tycoon.
#[derive(Debug, Clone, Copy, PartialEq, Eq, Structural)]
pub enum Rank {
    Beggar,
    Poor,
    Rich,
    Tycoon,
}

/// Points earned for closing a round with the given standing.
pub open spec fn points_of(r: Rank) -> nat {
    match r {
        Rank::Beggar => 0,
        Rank::Poor => 10,
        Rank::Rich => 20,
        Rank::Tycoon => 30,
    }
}

/// Position of a standing in the order Beggar < Poor < Rich < Tycoon.
pub open spec fn level_of(r: Rank) -> nat {
    match r {
        Rank::Beggar => 0,
        Rank::Poor => 1,
        Rank::Rich => 2,
        Rank::Tycoon => 3,
    }
}

/// The display name of a standing.
pub open spec fn rank_name(r: Rank) -> Seq<char> {
    match r {
        Rank::Beggar => "Beggar"@,
        Rank::Poor => "Poor"@,
        Rank::Rich => "Rich"@,
        Rank::Tycoon => "Tycoon"@,
    }
}

impl Rank {
    pub fn points(&self) -> (r: u8)
        ensures
            r as nat == points_of(*self),
    {
        match self {
            Rank::Beggar => 0,
            Rank::Poor => 10,
            Rank::Rich => 20,
            Rank::Tycoon => 30,
        }
    }

    /// Orders two standings, Beggar lowest and Tycoon highest.
    pub fn compare(&self, other: &Rank) -> (r: std::cmp::Ordering)
        ensures
            (r == std::cmp::Ordering::Less) == (level_of(*self) < level_of(*other)),
            (r == std::cmp::Ordering::Equal) == (*self == *other),
            (r == std::cmp::Ordering::Greater) == (level_of(*self) > level_of(*other)),
    {
        let a = self.points();
        let b = other.points();
        if a < b {
            std::cmp::Ordering::Less
        } else if a == b {
            std::cmp::Ordering::Equal
        } else {
            std::cmp::Ordering::Greater
        }
    }

    pub fn to_string(&self) -> (r: String)
        ensures
            r@ == rank_name(*self),
    {
        proof {
            reveal_strlit("Beggar");
            reveal_strlit("Poor");
            reveal_strlit("Rich");
            reveal_strlit("Tycoon");
        }
        match self {
            Rank::Beggar => "Beggar".to_owned(),
            Rank::Poor => "Poor".to_owned(),
            Rank::Rich => "Rich".to_owned(),
            Rank::Tycoon => "Tycoon".to_owned(),
        }
    }
}

/// What a player record holds, as plain values.
pub struct PlayerView {
    pub name: Seq<char>,
    pub score: u8,
    pub rank: Option<Rank>,
    pub past_ranks: Seq<Rank>,
}

#[derive(Debug, Clone, PartialEq)]
pub struct Player {
    pub name: String,
    pub score: u8,
    pub rank: Option<Rank>,
    pub past_ranks: Vec<Rank>,
}

impl View for Player {
    type V = PlayerView;

    open spec fn view(&self) -> PlayerView {
        PlayerView {
            name: self.name@,
            score: self.score,
            rank: self.rank,
            past_ranks: self.past_ranks@,
        }
    }
}

/// Points that the current standing (if any) is worth.
pub open spec fn standing_points(rank: Option<Rank>) -> nat {
    match rank {
        Some(r) => points_of(r),
        None => 0,
    }
}

/// The standing history after a new standing replaces `rank`.
pub open spec fn history_after(past: Seq<Rank>, rank: Option<Rank>) -> Seq<Rank> {
    match rank {
        Some(r) => past.push(r),
        None => past,
    }
}

impl Player {
    pub fn new(name: &str) -> (p: Player)
        ensures
            p@.name == name@,
            p@.score == 0,
            p@.rank is None,
            p@.past_ranks == Seq::<Rank>::empty(),
    {
        Player { name: name.to_owned(), score: 0, rank: None, past_ranks: Vec::new() }
    }

    /// A record equal to this one.
    pub fn duplicate(&self) -> (p: Player)
        ensures
            p@ == self@,
    {
        let mut past: Vec<Rank> = Vec::new();
        let mut i: usize = 0;
        while i < self.past_ranks.len()
            invariant
                i <= self.past_ranks@.len(),
                past@ == self.past_ranks@.subrange(0, i as int),
            decreases self.past_ranks@.len() - i,
        {
            past.push(self.past_ranks[i]);
            i = i + 1;
            assert(past@ =~= self.past_ranks@.subrange(0, i as int));
        }
        assert(past@ =~= self.past_ranks@);
        Player { name: self.name.clone(), score: self.score, rank: self.rank, past_ranks: past }
    }

    /// Makes `rank` the current standing, moving the previous one (if any)
    /// to the end of the history.
    pub fn set_rank(&mut self, rank: Rank)
        ensures
            final(self)@.name == old(self)@.name,
            final(self)@.score == old(self)@.score,
            final(self)@.rank == Some(rank),
            final(self)@.past_ranks == history_after(old(self)@.past_ranks, old(self)@.rank),
    {
        match self.rank {
            Some(r) => self.past_ranks.push(r),
            None => (),
        }
        self.rank = Some(rank);
    }

    /// Adds the points of the current standing to the score.
    pub fn update_score(&mut self)
        requires
            old(self).score + standing_points(old(self).rank) <= u8::MAX,
        ensures
            final(self)@.name == old(self)@.name,
            final(self)@.rank == old(self)@.rank,
            final(self)@.past_ranks == old(self)@.past_ranks,
            final(self)@.score == old(self)@.score + standing_points(old(self).rank),
    {
        match self.rank {
            Some(r) => {
                let p = r.points();
                self.score = self.score + p;
            },
            None => (),
        }
    }

    /// Closes a round for this player: records `rank` as the current standing
    /// and adds its points to the score.
    pub fn apply_standing(&mut self, rank: Rank)
        requires
            old(self).score + points_of(rank) <= u8::MAX,
        ensures
            final(self)@.name == old(self)@.name,
            final(self)@.rank == Some(rank),
            final(self)@.past_ranks == history_after(old(self)@.past_ranks, old(self)@.rank),
            final(self)@.score == old(self)@.score + points_of(rank),
    {
        self.set_rank(rank);
        self.update_score();
    }

    /// Clears score, standing and history, keeping the name.
    pub fn reset_for_new_game(&mut self)
        ensures
            final(self)@.name == old(self)@.name,
            final(self)@.score == 0,
            final(self)@.rank is None,
            final(self)@.past_ranks == Seq::<Rank>::empty(),
    {
        self.score = 0;
        self.rank = None;
        self.past_ranks = Vec::new();
    }

    pub fn is_tycoon(&self) -> (r: bool)
        ensures
            r == (self.rank == Some(Rank::Tycoon)),
    {
        match self.rank {
            Some(Rank::Tycoon) => true,
            _ => false,
        }
    }
}

} // verus!

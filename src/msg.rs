use std::collections::HashMap;
use vstd::prelude::*;

verus! {

broadcast use vstd::std_specs::hash::group_hash_axioms;

/// The commands that the presentation hands to the game.
#[derive(Debug, Clone)]
pub enum Msg {
    /// The player with this key finished the round.
    GoOut(usize),
    EndRound,
    NewGame,
    Setup,
    SetupComplete,
    /// The name typed into the setup input with this index.
    AddPlayer(String, usize),
    MorePlayers,
    SavePlayers,
    /// A key pressed in a setup input, by its key name.
    AddPlayerOnEnter(String),
}

/// The name inputs of the roster form.
#[derive(Debug)]
pub struct SetupState {
    pub num_of_inputs: usize,
    pub player_names: HashMap<usize, String>,
}

impl SetupState {
    /// Every name belongs to an input that is shown.
    pub open spec fn wf(&self) -> bool {
        &&& self.num_of_inputs >= 1
        &&& forall|i: usize| #[trigger] self.player_names@.contains_key(i) ==> i < self.num_of_inputs
    }

    pub fn new() -> (s: SetupState)
        ensures
            s.wf(),
            s.num_of_inputs == 1,
            s.player_names@ == Map::<usize, String>::empty(),
    {
        SetupState { num_of_inputs: 1, player_names: HashMap::new() }
    }

    /// Stores the name typed into input `idx`; an index with no input is ignored.
    pub fn set_name(&mut self, idx: usize, name: String)
        requires
            old(self).wf(),
        ensures
            final(self).wf(),
            final(self).num_of_inputs == old(self).num_of_inputs,
            idx < old(self).num_of_inputs ==> final(self).player_names@ == old(
                self,
            ).player_names@.insert(idx, name),
            idx >= old(self).num_of_inputs ==> final(self).player_names@ == old(
                self,
            ).player_names@,
    {
        if idx < self.num_of_inputs {
            self.player_names.insert(idx, name);
        }
    }

    /// Shows one more name input (none past the largest index).
    pub fn add_input(&mut self)
        requires
            old(self).wf(),
        ensures
            final(self).wf(),
            final(self).player_names@ == old(self).player_names@,
            old(self).num_of_inputs < usize::MAX ==> final(self).num_of_inputs == old(
                self,
            ).num_of_inputs + 1,
            old(self).num_of_inputs == usize::MAX ==> final(self).num_of_inputs == usize::MAX,
    {
        if self.num_of_inputs < usize::MAX {
            self.num_of_inputs = self.num_of_inputs + 1;
        }
    }

    /// The names typed so far, in the order of their inputs; empty inputs are left out.
    pub fn names_in_order(&self) -> (r: Vec<String>)
        requires
            self.wf(),
        ensures
            r@.map_values(|s: String| s@) == names_seq(self.player_names@, self.num_of_inputs as nat),
    {
        let mut out: Vec<String> = Vec::new();
        let mut i: usize = 0;
        while i < self.num_of_inputs
            invariant
                i <= self.num_of_inputs,
                out@.map_values(|s: String| s@) == names_seq(self.player_names@, i as nat),
            decreases self.num_of_inputs - i,
        {
            match self.player_names.get(&i) {
                Some(name) => {
                    out.push(name.clone());
                },
                None => {},
            }
            i = i + 1;
            assert(out@.map_values(|s: String| s@) =~= names_seq(self.player_names@, i as nat));
        }
        out
    }

    /// Empties the form back to one input.
    pub fn clear(&mut self)
        ensures
            final(self).wf(),
            final(self).num_of_inputs == 1,
            final(self).player_names@ == Map::<usize, String>::empty(),
    {
        self.num_of_inputs = 1;
        self.player_names = HashMap::new();
    }
}

/// The names held for inputs `0..n`, in index order, skipping inputs with no name.
pub open spec fn names_seq(names: Map<usize, String>, n: nat) -> Seq<Seq<char>>
    decreases n,
{
    if n == 0 {
        Seq::empty()
    } else {
        let prev = names_seq(names, (n - 1) as nat);
        let k = (n - 1) as usize;
        if names.contains_key(k) {
            prev.push(names[k]@)
        } else {
            prev
        }
    }
}

} // verus!

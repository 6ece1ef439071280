//! The three actions a credential can grant on a repository, ordered by privilege:
//! `Pull < Push < Delete`.

use crate::text::{chars_eq, chars_of, extend_chars, split, split_on, string_of, views};
use core::cmp::Ordering;
use vstd::prelude::*;
use vstd::std_specs::cmp::PartialOrdSpecImpl;

verus! {

/// What may be done to a repository. A stronger action includes the weaker ones.
#[derive(Clone, Copy, Debug, PartialEq, Eq, Structural, Ord)]
pub enum Action {
    Pull,
    Push,
    Delete,
}

impl PartialOrd for Action {
    fn partial_cmp(&self, other: &Self) -> (r: Option<Ordering>) {
        match (self, other) {
            (Action::Pull, Action::Pull) => Some(Ordering::Equal),
            (Action::Pull, _) => Some(Ordering::Less),
            (Action::Push, Action::Pull) => Some(Ordering::Greater),
            (Action::Push, Action::Push) => Some(Ordering::Equal),
            (Action::Push, Action::Delete) => Some(Ordering::Less),
            (Action::Delete, Action::Delete) => Some(Ordering::Equal),
            (Action::Delete, _) => Some(Ordering::Greater),
        }
    }
}

impl PartialOrdSpecImpl for Action {
    open spec fn obeys_partial_cmp_spec() -> bool {
        true
    }

    open spec fn partial_cmp_spec(&self, other: &Self) -> Option<Ordering> {
        if self.rank() < other.rank() {
            Some(Ordering::Less)
        } else if self.rank() == other.rank() {
            Some(Ordering::Equal)
        } else {
            Some(Ordering::Greater)
        }
    }
}

/// The text `pull`.
pub open spec fn pull_word() -> Seq<char> {
    seq!['p', 'u', 'l', 'l']
}

/// The text `push`.
pub open spec fn push_word() -> Seq<char> {
    seq!['p', 'u', 's', 'h']
}

/// The text `delete`.
pub open spec fn delete_word() -> Seq<char> {
    seq!['d', 'e', 'l', 'e', 't', 'e']
}

/// The text `*`, which stands for every action.
pub open spec fn star_word() -> Seq<char> {
    seq!['*']
}

/// The action that one word names: `pull`, `push`, `delete`, or `*` for `Delete`.
pub open spec fn action_of_word(word: Seq<char>) -> Option<Action> {
    if word == pull_word() {
        Some(Action::Pull)
    } else if word == push_word() {
        Some(Action::Push)
    } else if word == delete_word() || word == star_word() {
        Some(Action::Delete)
    } else {
        None
    }
}

/// The stronger of two actions.
pub open spec fn stronger(a: Action, b: Action) -> Action {
    if a.rank() >= b.rank() {
        a
    } else {
        b
    }
}

/// The strongest action among `words`, if there is at least one word and each names an action.
pub open spec fn strongest_of(words: Seq<Seq<char>>) -> Option<Action>
    decreases words.len(),
{
    if words.len() == 0 {
        None
    } else {
        match action_of_word(words.last()) {
            None => None,
            Some(a) => if words.len() == 1 {
                Some(a)
            } else {
                match strongest_of(words.drop_last()) {
                    None => None,
                    Some(b) => Some(stronger(b, a)),
                }
            },
        }
    }
}

/// The action that a comma-separated list of action words grants: the strongest of them.
pub open spec fn parse_actions(s: Seq<char>) -> Option<Action> {
    strongest_of(split_on(s, ','))
}

/// The text `invalid action: `.
pub open spec fn invalid_action_prefix() -> Seq<char> {
    seq!['i', 'n', 'v', 'a', 'l', 'i', 'd', ' ', 'a', 'c', 't', 'i', 'o', 'n', ':', ' ']
}

impl Action {
    /// The place of the action in the order of privilege.
    pub open spec fn rank(self) -> int {
        match self {
            Action::Pull => 0,
            Action::Push => 1,
            Action::Delete => 2,
        }
    }

    /// Whether holding `self` allows `requested`.
    pub open spec fn permits(self, requested: Action) -> bool {
        self.rank() >= requested.rank()
    }

    /// The actions that `self` allows, strongest first.
    pub open spec fn allowed(self) -> Seq<Action> {
        match self {
            Action::Pull => seq![Action::Pull],
            Action::Push => seq![Action::Push, Action::Pull],
            Action::Delete => seq![Action::Delete, Action::Push, Action::Pull],
        }
    }

    /// The word for the action.
    pub open spec fn word(self) -> Seq<char> {
        match self {
            Action::Pull => pull_word(),
            Action::Push => push_word(),
            Action::Delete => delete_word(),
        }
    }

    /// Delete permits anything, Push permits Pull and Push, Pull permits only Pull.
    pub fn check_permission(&self, requested: Action) -> (ok: bool)
        ensures
            ok == self.permits(requested),
    {
        match self {
            Action::Delete => true,
            Action::Push => requested == Action::Pull || requested == Action::Push,
            Action::Pull => requested == Action::Pull,
        }
    }

    /// The actions that `self` allows, strongest first.
    pub fn to_vec(&self) -> (out: Vec<Action>)
        ensures
            out@ == self.allowed(),
            forall|a: Action| out@.contains(a) <==> self.permits(a),
    {
        let mut out: Vec<Action> = Vec::new();
        match self {
            Action::Pull => {
                out.push(Action::Pull);
            },
            Action::Push => {
                out.push(Action::Push);
                out.push(Action::Pull);
            },
            Action::Delete => {
                out.push(Action::Delete);
                out.push(Action::Push);
                out.push(Action::Pull);
            },
        }
        assert(out@ =~= self.allowed());
        assert forall|a: Action| out@.contains(a) <==> self.permits(a) by {
            if self.permits(a) {
                match (*self, a) {
                    (Action::Pull, _) => {
                        assert(out@[0] == a);
                    },
                    (Action::Push, Action::Push) => {
                        assert(out@[0] == a);
                    },
                    (Action::Push, _) => {
                        assert(out@[1] == a);
                    },
                    (Action::Delete, Action::Delete) => {
                        assert(out@[0] == a);
                    },
                    (Action::Delete, Action::Push) => {
                        assert(out@[1] == a);
                    },
                    (Action::Delete, Action::Pull) => {
                        assert(out@[2] == a);
                    },
                }
            }
        }
        out
    }

    /// The stronger of `self` and `other`.
    pub fn max_with(self, other: Action) -> (out: Action)
        ensures
            out == stronger(self, other),
    {
        if self.check_permission(other) {
            self
        } else {
            other
        }
    }

    /// The word for the action: `pull`, `push` or `delete`.
    pub fn as_str(&self) -> (out: &'static str)
        ensures
            out@ == self.word(),
    {
        proof {
            reveal_strlit("pull");
            reveal_strlit("push");
            reveal_strlit("delete");
            assert("pull"@ =~= pull_word());
            assert("push"@ =~= push_word());
            assert("delete"@ =~= delete_word());
        }
        match self {
            Action::Pull => "pull",
            Action::Push => "push",
            Action::Delete => "delete",
        }
    }

    /// The word for the action, as an owned string.
    pub fn to_string(&self) -> (out: String)
        ensures
            out@ == self.word(),
    {
        let word = chars_of(self.as_str());
        string_of(word.as_slice())
    }

    /// Reads one action word.
    pub fn from_word(word: &[char]) -> (out: Option<Action>)
        ensures
            out == action_of_word(word@),
    {
        proof {
            reveal_strlit("pull");
            reveal_strlit("push");
            reveal_strlit("delete");
            reveal_strlit("*");
            assert("pull"@ =~= pull_word());
            assert("push"@ =~= push_word());
            assert("delete"@ =~= delete_word());
            assert("*"@ =~= star_word());
        }
        let pull = chars_of("pull");
        let push = chars_of("push");
        let delete = chars_of("delete");
        let star = chars_of("*");
        if chars_eq(word, pull.as_slice()) {
            Some(Action::Pull)
        } else if chars_eq(word, push.as_slice()) {
            Some(Action::Push)
        } else if chars_eq(word, delete.as_slice()) || chars_eq(word, star.as_slice()) {
            Some(Action::Delete)
        } else {
            None
        }
    }

    /// Reads a comma-separated list of action words and keeps the strongest.
    pub fn from_chars(s: &[char]) -> (out: Option<Action>)
        ensures
            out == parse_actions(s@),
    {
        let words = split(s, ',');
        let ghost all = views(words@);
        let mut best: Option<Action> = None;
        let mut i: usize = 0;
        while i < words.len()
            invariant
                i <= words.len(),
                all == views(words@),
                all == split_on(s@, ','),
                all.len() >= 1,
                i == 0 ==> best.is_none(),
                i > 0 ==> best == strongest_of(all.take(i as int)) && best.is_some(),
            decreases words.len() - i,
        {
            assert(all[i as int] == words@[i as int]@);
            assert(all.take(i + 1).drop_last() =~= all.take(i as int));
            assert(all.take(i + 1).last() == all[i as int]);
            let one = Action::from_word(words[i].as_slice());
            match one {
                None => {
                    proof {
                        lemma_strongest_prefix(all, i + 1);
                    }
                    return None;
                },
                Some(a) => {
                    best = match best {
                        None => Some(a),
                        Some(b) => Some(b.max_with(a)),
                    };
                },
            }
            i += 1;
        }
        assert(all.take(words.len() as int) =~= all);
        best
    }

    /// Reads the actions of a scope: a comma-separated list of `pull`, `push`, `delete` and
    /// `*`, reduced to the strongest. Any other text is refused with `invalid action: ` and
    /// the text.
    pub fn from_str(s: &str) -> (out: Result<Action, String>)
        ensures
            match out {
                Ok(a) => parse_actions(s@) == Some(a),
                Err(msg) => parse_actions(s@).is_none() && msg@ == invalid_action_prefix() + s@,
            },
    {
        let text = chars_of(s);
        match Action::from_chars(text.as_slice()) {
            Some(a) => Ok(a),
            None => {
                proof {
                    reveal_strlit("invalid action: ");
                    assert("invalid action: "@ =~= invalid_action_prefix());
                }
                let mut msg = chars_of("invalid action: ");
                extend_chars(&mut msg, text.as_slice());
                Err(string_of(msg.as_slice()))
            },
        }
    }
}

/// Once a prefix of the words holds a word that names no action, the whole list grants
/// nothing.
pub proof fn lemma_strongest_prefix(words: Seq<Seq<char>>, j: int)
    requires
        1 <= j <= words.len(),
        strongest_of(words.take(j)).is_none(),
    ensures
        strongest_of(words).is_none(),
    decreases words.len() - j,
{
    if j < words.len() {
        assert(words.take(j + 1).drop_last() =~= words.take(j));
        lemma_strongest_prefix(words, j + 1);
    } else {
        assert(words.take(j) =~= words);
    }
}

/// A single action word, written for an action, reads back as that action.
pub proof fn lemma_word_round_trip(a: Action)
    ensures
        parse_actions(a.word()) == Some(a),
        !crate::text::has_char(a.word(), ':'),
        !crate::text::has_char(a.word(), ' '),
{
    let w = a.word();
    assert(!crate::text::has_char(w, ',')) by {
        if crate::text::has_char(w, ',') {
            let k = choose|k: int| 0 <= k < w.len() && w[k] == ',';
            assert(w[k] == ',');
        }
    }
    crate::text::lemma_split_single(w, ',');
    assert(pull_word() != push_word()) by {
        assert(pull_word()[2] != push_word()[2]);
    }
    assert(pull_word().len() != delete_word().len());
    assert(push_word().len() != delete_word().len());
    assert(split_on(w, ',').last() == w);
}

} // verus!

//! The scopes of a credential: for each repository the strongest action granted on it,
//! and the scope strings `repository:<name>:<actions>` that carry them.

use crate::action::{lemma_word_round_trip, parse_actions, star_word, stronger, Action};
use crate::assoc::{keys_distinct, lemma_map_of_at, lemma_map_of_dom, lemma_map_of_update, map_of};
use crate::text::{
    chars_of, extend_chars, has_char, lemma_split_cons, lemma_split_single, split, split_on,
    string_of, string_views, views,
};
use vstd::prelude::*;

verus! {

/// One grant: the strongest action allowed on one repository.
pub struct ScopeEntry {
    pub repo: String,
    pub action: Action,
}

/// Repository names with the action granted on each. No name occurs twice.
pub struct UserScope {
    entries: Vec<ScopeEntry>,
}

/// The grants of `entries` as pairs of plain values.
pub open spec fn pairs_of(entries: Seq<ScopeEntry>) -> Seq<(Seq<char>, Action)> {
    entries.map_values(|e: ScopeEntry| (e.repo@, e.action))
}

/// Whether the grants `m` allow `action` on `repo`. For the name `*` every grant must allow
/// it; for any other name the grant for that name must exist and allow it.
pub open spec fn allows(m: Map<Seq<char>, Action>, repo: Seq<char>, action: Action) -> bool {
    if repo == star_word() {
        forall|r: Seq<char>| m.contains_key(r) ==> (#[trigger] m[r]).permits(action)
    } else {
        m.contains_key(repo) && m[repo].permits(action)
    }
}

/// The text `repository`.
pub open spec fn repository_word() -> Seq<char> {
    seq!['r', 'e', 'p', 'o', 's', 'i', 't', 'o', 'r', 'y']
}

/// The scope string of one grant: `repository:<name>:<action>`.
pub open spec fn scope_text(repo: Seq<char>, action: Action) -> Seq<char> {
    repository_word() + seq![':'] + repo + seq![':'] + action.word()
}

/// The grant that one scope string carries: three parts between colons, the second the
/// repository name, the third a list of actions.
pub open spec fn parse_scope_item(item: Seq<char>) -> Option<(Seq<char>, Action)> {
    let parts = split_on(item, ':');
    if parts.len() != 3 {
        None
    } else {
        match parse_actions(parts[2]) {
            Some(a) => Some((parts[1], a)),
            None => None,
        }
    }
}

/// `m` with `action` granted on `repo`, unless a grant at least as strong is there already.
pub open spec fn merge_grant(m: Map<Seq<char>, Action>, repo: Seq<char>, action: Action) -> Map<
    Seq<char>,
    Action,
> {
    if m.contains_key(repo) {
        m.insert(repo, stronger(m[repo], action))
    } else {
        m.insert(repo, action)
    }
}

/// The grants that a list of scope strings carries, the strongest action for each name;
/// nothing if one of the strings is malformed.
pub open spec fn grants_of(items: Seq<Seq<char>>) -> Option<Map<Seq<char>, Action>>
    decreases items.len(),
{
    if items.len() == 0 {
        Some(Map::empty())
    } else {
        match (grants_of(items.drop_last()), parse_scope_item(items.last())) {
            (Some(m), Some(grant)) => Some(merge_grant(m, grant.0, grant.1)),
            _ => None,
        }
    }
}

/// The grants that a space-separated list of scope strings carries.
pub open spec fn parse_scopes(s: Seq<char>) -> Option<Map<Seq<char>, Action>> {
    grants_of(split_on(s, ' '))
}

/// The text `invalid scope: `.
pub open spec fn invalid_scope_prefix() -> Seq<char> {
    seq!['i', 'n', 'v', 'a', 'l', 'i', 'd', ' ', 's', 'c', 'o', 'p', 'e', ':', ' ']
}

/// Once a prefix of the scope strings holds a malformed one, the whole list carries nothing.
pub proof fn lemma_grants_prefix(items: Seq<Seq<char>>, j: int)
    requires
        0 <= j <= items.len(),
        grants_of(items.take(j)).is_none(),
    ensures
        grants_of(items).is_none(),
    decreases items.len() - j,
{
    if j < items.len() {
        assert(items.take(j + 1).drop_last() =~= items.take(j));
        lemma_grants_prefix(items, j + 1);
    } else {
        assert(items.take(j) =~= items);
    }
}

impl View for UserScope {
    type V = Map<Seq<char>, Action>;

    open spec fn view(&self) -> Map<Seq<char>, Action> {
        map_of(self.pairs())
    }
}

impl UserScope {
    /// The grants in the order in which they are held.
    pub closed spec fn pairs(&self) -> Seq<(Seq<char>, Action)> {
        pairs_of(self.entries@)
    }

    /// No repository name occurs twice.
    pub open spec fn wf(&self) -> bool {
        keys_distinct(self.pairs())
    }

    /// No grants at all.
    pub fn new() -> (out: Self)
        ensures
            out.wf(),
            out.pairs() == Seq::<(Seq<char>, Action)>::empty(),
            out@ == Map::<Seq<char>, Action>::empty(),
    {
        let out = UserScope { entries: Vec::new() };
        assert(out.pairs() =~= Seq::<(Seq<char>, Action)>::empty());
        out
    }

    /// The number of repositories with a grant.
    pub fn len(&self) -> (n: usize)
        ensures
            n == self.pairs().len(),
    {
        self.entries.len()
    }

    fn position(&self, repo: &String) -> (out: Option<usize>)
        ensures
            match out {
                Some(i) => i < self.pairs().len() && self.pairs()[i as int].0 == repo@,
                None => forall|k: int| 0 <= k < self.pairs().len() ==> self.pairs()[k].0 != repo@,
            },
    {
        let mut i: usize = 0;
        while i < self.entries.len()
            invariant
                i <= self.entries.len(),
                forall|k: int| 0 <= k < i ==> self.pairs()[k].0 != repo@,
            decreases self.entries.len() - i,
        {
            if self.entries[i].repo == *repo {
                return Some(i);
            }
            i += 1;
        }
        None
    }

    /// The grant at position `i`: repository name and action.
    pub fn entry(&self, i: usize) -> (out: (&String, Action))
        requires
            i < self.pairs().len(),
        ensures
            (out.0@, out.1) == self.pairs()[i as int],
    {
        (&self.entries[i].repo, self.entries[i].action)
    }

    /// The action granted on `repo`, if any.
    pub fn get(&self, repo: &str) -> (out: Option<Action>)
        requires
            self.wf(),
        ensures
            out == (if self@.contains_key(repo@) {
                Some(self@[repo@])
            } else {
                None
            }),
    {
        let name = string_of(chars_of(repo).as_slice());
        proof {
            lemma_map_of_dom(self.pairs());
        }
        match self.position(&name) {
            Some(i) => {
                proof {
                    lemma_map_of_at(self.pairs(), i as int);
                }
                Some(self.entries[i].action)
            },
            None => None,
        }
    }

    /// Sets the grant on `repo` to `action`, whatever it was.
    pub fn insert(&mut self, repo: String, action: Action)
        requires
            old(self).wf(),
        ensures
            final(self).wf(),
            final(self)@ == old(self)@.insert(repo@, action),
    {
        proof {
            lemma_map_of_dom(self.pairs());
        }
        match self.position(&repo) {
            Some(i) => {
                proof {
                    lemma_map_of_update(self.pairs(), i as int, action);
                }
                self.entries[i].action = action;
                assert(self.pairs() =~= old(self).pairs().update(
                    i as int,
                    (old(self).pairs()[i as int].0, action),
                ));
            },
            None => {
                self.entries.push(ScopeEntry { repo, action });
                assert(self.pairs() =~= old(self).pairs().push((repo@, action)));
                assert(self.pairs().drop_last() =~= old(self).pairs());
            },
        }
    }

    /// Grants `action` on `repo`, keeping a stronger grant that is already there.
    pub fn grant(&mut self, repo: String, action: Action)
        requires
            old(self).wf(),
        ensures
            final(self).wf(),
            final(self)@ == merge_grant(old(self)@, repo@, action),
    {
        proof {
            lemma_map_of_dom(self.pairs());
        }
        match self.position(&repo) {
            Some(i) => {
                let best = self.entries[i].action.max_with(action);
                proof {
                    lemma_map_of_at(self.pairs(), i as int);
                    lemma_map_of_update(self.pairs(), i as int, best);
                }
                self.entries[i].action = best;
                assert(self.pairs() =~= old(self).pairs().update(
                    i as int,
                    (old(self).pairs()[i as int].0, best),
                ));
            },
            None => {
                self.entries.push(ScopeEntry { repo, action });
                assert(self.pairs() =~= old(self).pairs().push((repo@, action)));
                assert(self.pairs().drop_last() =~= old(self).pairs());
            },
        }
    }

    /// Whether the grants allow `action` on `repo`. The name `*` asks about every repository
    /// with a grant: each of them must allow the action.
    pub fn is_allowed(&self, repo: &str, action: Action) -> (ok: bool)
        requires
            self.wf(),
        ensures
            ok == allows(self@, repo@, action),
    {
        let name = chars_of(repo);
        proof {
            lemma_map_of_dom(self.pairs());
        }
        if name.len() == 1 && name[0] == '*' {
            assert(name@ =~= star_word());
            let mut i: usize = 0;
            while i < self.entries.len()
                invariant
                    i <= self.entries.len(),
                    self.wf(),
                    repo@ == star_word(),
                    forall|k: int| 0 <= k < i ==> (#[trigger] self.pairs()[k]).1.permits(action),
                decreases self.entries.len() - i,
            {
                if !self.entries[i].action.check_permission(action) {
                    proof {
                        lemma_map_of_at(self.pairs(), i as int);
                        let r = self.pairs()[i as int].0;
                        assert(self@.contains_key(r) && !self@[r].permits(action));
                    }
                    return false;
                }
                i += 1;
            }
            assert forall|r: Seq<char>| self@.contains_key(r) implies (#[trigger] self@[r]).permits(
                action,
            ) by {
                lemma_map_of_dom(self.pairs());
                let k = choose|k: int| 0 <= k < self.pairs().len() && self.pairs()[k].0 == r;
                lemma_map_of_at(self.pairs(), k);
                assert(self.pairs()[k].1.permits(action));
            }
            true
        } else {
            assert(name@ != star_word()) by {
                if name@ == star_word() {
                    assert(star_word().len() == 1);
                    assert(star_word()[0] == '*');
                }
            }
            match self.get(repo) {
                Some(a) => a.check_permission(action),
                None => false,
            }
        }
    }

    /// The scope strings of the grants, one `repository:<name>:<action>` for each.
    pub fn to_scope_strings(&self) -> (out: Vec<String>)
        ensures
            string_views(out@) == self.pairs().map_values(
                |p: (Seq<char>, Action)| scope_text(p.0, p.1),
            ),
    {
        let ghost want = self.pairs().map_values(|p: (Seq<char>, Action)| scope_text(p.0, p.1));
        let mut out: Vec<String> = Vec::new();
        let mut i: usize = 0;
        while i < self.entries.len()
            invariant
                i <= self.entries.len(),
                want == self.pairs().map_values(|p: (Seq<char>, Action)| scope_text(p.0, p.1)),
                string_views(out@) == want.take(i as int),
            decreases self.entries.len() - i,
        {
            proof {
                reveal_strlit("repository:");
                assert("repository:"@ =~= repository_word() + seq![':']);
            }
            let mut text = chars_of("repository:");
            let repo = chars_of(self.entries[i].repo.as_str());
            extend_chars(&mut text, repo.as_slice());
            text.push(':');
            let word = chars_of(self.entries[i].action.as_str());
            extend_chars(&mut text, word.as_slice());
            let item = string_of(text.as_slice());
            assert(item@ =~= scope_text(self.pairs()[i as int].0, self.pairs()[i as int].1));
            let ghost before = out@;
            out.push(item);
            assert(want[i as int] == item@);
            assert(string_views(out@) =~= string_views(before).push(item@));
            assert(string_views(out@) =~= want.take(i + 1));
            i += 1;
        }
        assert(want.take(self.entries.len() as int) =~= want);
        out
    }

    fn take_item(&mut self, item: &[char]) -> (ok: bool)
        requires
            old(self).wf(),
        ensures
            final(self).wf(),
            match parse_scope_item(item@) {
                Some(grant) => ok && final(self)@ == merge_grant(old(self)@, grant.0, grant.1),
                None => !ok && *final(self) == *old(self),
            },
    {
        let parts = split(item, ':');
        if parts.len() != 3 {
            return false;
        }
        assert(views(parts@)[1] == parts@[1]@);
        assert(views(parts@)[2] == parts@[2]@);
        match Action::from_chars(parts[2].as_slice()) {
            Some(a) => {
                let repo = string_of(parts[1].as_slice());
                self.grant(repo, a);
                true
            },
            None => false,
        }
    }

    /// Reads a list of scope strings. Each must have three parts between colons; the grants
    /// for one repository are reduced to the strongest. A malformed string is refused with
    /// `Invalid scope format`.
    pub fn from_scope_strings(items: &Vec<String>) -> (out: Result<UserScope, String>)
        ensures
            match out {
                Ok(scopes) => scopes.wf() && grants_of(string_views(items@)) == Some(scopes@),
                Err(msg) => grants_of(string_views(items@)).is_none() && msg@
                    == "Invalid scope format"@,
            },
    {
        let ghost all = string_views(items@);
        let mut scopes = UserScope::new();
        let mut i: usize = 0;
        assert(all.take(0) =~= Seq::<Seq<char>>::empty());
        while i < items.len()
            invariant
                i <= items.len(),
                all == string_views(items@),
                scopes.wf(),
                grants_of(all.take(i as int)) == Some(scopes@),
            decreases items.len() - i,
        {
            let item = chars_of(items[i].as_str());
            assert(all.take(i + 1).drop_last() =~= all.take(i as int));
            assert(all.take(i + 1).last() == item@);
            if !scopes.take_item(item.as_slice()) {
                proof {
                    lemma_grants_prefix(all, i + 1);
                }
                return Err(string_of(chars_of("Invalid scope format").as_slice()));
            }
            i += 1;
        }
        assert(all.take(items.len() as int) =~= all);
        Ok(scopes)
    }

    /// Reads a space-separated list of scope strings, as a request carries it. A malformed
    /// scope string is refused with `invalid scope: ` and that string.
    pub fn from_str(s: &str) -> (out: Result<UserScope, String>)
        ensures
            match out {
                Ok(scopes) => scopes.wf() && parse_scopes(s@) == Some(scopes@),
                Err(msg) => parse_scopes(s@).is_none() && exists|i: int|
                    0 <= i < split_on(s@, ' ').len() && grants_of(split_on(s@, ' ').take(i)).is_some()
                        && parse_scope_item(#[trigger] split_on(s@, ' ')[i]).is_none() && msg@
                        == invalid_scope_prefix() + split_on(s@, ' ')[i],
            },
    {
        let text = chars_of(s);
        let items = split(text.as_slice(), ' ');
        let ghost all = views(items@);
        let mut scopes = UserScope::new();
        let mut i: usize = 0;
        assert(all.take(0) =~= Seq::<Seq<char>>::empty());
        while i < items.len()
            invariant
                i <= items.len(),
                all == views(items@),
                all == split_on(s@, ' '),
                scopes.wf(),
                grants_of(all.take(i as int)) == Some(scopes@),
            decreases items.len() - i,
        {
            assert(all.take(i + 1).drop_last() =~= all.take(i as int));
            assert(all.take(i + 1).last() == items@[i as int]@);
            assert(all[i as int] == items@[i as int]@);
            if !scopes.take_item(items[i].as_slice()) {
                proof {
                    lemma_grants_prefix(all, i + 1);
                    reveal_strlit("invalid scope: ");
                    assert("invalid scope: "@ =~= invalid_scope_prefix());
                }
                let mut msg = chars_of("invalid scope: ");
                extend_chars(&mut msg, items[i].as_slice());
                return Err(string_of(msg.as_slice()));
            }
            i += 1;
        }
        assert(all.take(items.len() as int) =~= all);
        Ok(scopes)
    }
}

impl Clone for UserScope {
    fn clone(&self) -> (out: Self)
        ensures
            out.pairs() == self.pairs(),
            out@ == self@,
            out.wf() == self.wf(),
    {
        let mut entries: Vec<ScopeEntry> = Vec::new();
        let mut i: usize = 0;
        while i < self.entries.len()
            invariant
                i <= self.entries.len(),
                pairs_of(entries@) == pairs_of(self.entries@).take(i as int),
            decreases self.entries.len() - i,
        {
            let ghost before = entries@;
            let entry = ScopeEntry { repo: self.entries[i].repo.clone(), action: self.entries[i].action };
            assert((entry.repo@, entry.action) == pairs_of(self.entries@)[i as int]);
            entries.push(entry);
            assert(pairs_of(entries@) =~= pairs_of(before).push((entry.repo@, entry.action)));
            assert(pairs_of(entries@) =~= pairs_of(self.entries@).take(i + 1));
            i += 1;
        }
        assert(pairs_of(self.entries@).take(self.entries.len() as int) =~= pairs_of(self.entries@));
        UserScope { entries }
    }
}

/// A scope string written for a grant reads back as that grant, provided the repository name
/// holds no colon.
pub proof fn lemma_scope_text_round_trip(repo: Seq<char>, action: Action)
    requires
        !has_char(repo, ':'),
    ensures
        parse_scope_item(scope_text(repo, action)) == Some((repo, action)),
{
    let word = action.word();
    lemma_word_round_trip(action);
    let rw = repository_word();
    assert(!has_char(rw, ':')) by {
        if has_char(rw, ':') {
            let k = choose|k: int| 0 <= k < rw.len() && rw[k] == ':';
            assert(rw[k] == ':');
        }
    }
    let tail = repo + seq![':'] + word;
    assert(scope_text(repo, action) =~= rw + seq![':'] + tail);
    lemma_split_cons(rw, ':', tail);
    lemma_split_cons(repo, ':', word);
    lemma_split_single(word, ':');
    let parts = split_on(scope_text(repo, action), ':');
    assert(parts =~= seq![rw, repo, word]);
}

/// Writing grants as scope strings and reading the strings back gives the same grants,
/// whatever their order, provided no repository name holds a colon.
pub proof fn lemma_scopes_round_trip(pairs: Seq<(Seq<char>, Action)>)
    requires
        keys_distinct(pairs),
        forall|i: int| 0 <= i < pairs.len() ==> !has_char(#[trigger] pairs[i].0, ':'),
    ensures
        grants_of(pairs.map_values(|p: (Seq<char>, Action)| scope_text(p.0, p.1))) == Some(
            map_of(pairs),
        ),
    decreases pairs.len(),
{
    let texts = pairs.map_values(|p: (Seq<char>, Action)| scope_text(p.0, p.1));
    if pairs.len() > 0 {
        let init = pairs.drop_last();
        assert(keys_distinct(init)) by {
            assert forall|a: int, b: int| 0 <= a < b < init.len() implies init[a].0 != init[b].0 by {
                assert(pairs[a].0 != pairs[b].0);
            }
        }
        assert forall|i: int| 0 <= i < init.len() implies !has_char(#[trigger] init[i].0, ':') by {
            assert(init[i] == pairs[i]);
        }
        lemma_scopes_round_trip(init);
        assert(texts.drop_last() =~= init.map_values(|p: (Seq<char>, Action)| scope_text(p.0, p.1)));
        let last = pairs.last();
        lemma_scope_text_round_trip(last.0, last.1);
        lemma_map_of_dom(init);
        assert(!map_of(init).contains_key(last.0)) by {
            if map_of(init).contains_key(last.0) {
                let i = choose|i: int| 0 <= i < init.len() && init[i].0 == last.0;
                assert(pairs[i].0 != pairs[pairs.len() - 1].0);
            }
        }
    }
}

/// Reading back the scope strings of `scopes` gives `scopes`, provided no repository name
/// in it holds a colon.
pub proof fn law_scope_strings_round_trip(scopes: UserScope)
    requires
        scopes.wf(),
        forall|i: int| 0 <= i < scopes.pairs().len() ==> !has_char(#[trigger] scopes.pairs()[i].0, ':'),
    ensures
        grants_of(scopes.pairs().map_values(|p: (Seq<char>, Action)| scope_text(p.0, p.1))) == Some(
            scopes@,
        ),
{
    lemma_scopes_round_trip(scopes.pairs());
}

} // verus!

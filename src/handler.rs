use crate::parser::{Command, CommandType, CommandView};
use vstd::prelude::*;

verus! {

/// The message reporting that `key` was set to `value`.
pub open spec fn set_message(key: Seq<char>, value: Seq<char>) -> Seq<char> {
    "SET "@ + key + " = "@ + value
}

/// The message reporting that `key` holds `value`.
pub open spec fn get_message(key: Seq<char>, value: Seq<char>) -> Seq<char> {
    "GET "@ + key + " = "@ + value
}

/// The message reporting that `key`, which held `value`, was removed.
pub open spec fn delete_message(key: Seq<char>, value: Seq<char>) -> Seq<char> {
    "DELETED "@ + key + " (was: "@ + value + ")"@
}

/// The message reporting that `key` is not in the store.
pub open spec fn not_found_message(key: Seq<char>) -> Seq<char> {
    "Key '"@ + key + "' not found"@
}

/// The store after applying `c` to `store`, and the outcome reported.
pub open spec fn apply_command(store: Map<Seq<char>, Seq<char>>, c: CommandView) -> (
    Map<Seq<char>, Seq<char>>,
    Result<Seq<char>, Seq<char>>,
) {
    match c {
        CommandView::SetKey(k, v) => (store.insert(k, v), Ok(set_message(k, v))),
        CommandView::Get(k) => if store.contains_key(k) {
            (store, Ok(get_message(k, store[k])))
        } else {
            (store, Err(not_found_message(k)))
        },
        CommandView::Delete(k) => if store.contains_key(k) {
            (store.remove(k), Ok(delete_message(k, store[k])))
        } else {
            (store, Err(not_found_message(k)))
        },
    }
}

/// Reading a key just set returns the value set; reading a key just
/// deleted fails with the key-not-found outcome.
pub proof fn lemma_round_trip(store: Map<Seq<char>, Seq<char>>, k: Seq<char>, v: Seq<char>)
    ensures
        apply_command(apply_command(store, CommandView::SetKey(k, v)).0, CommandView::Get(k)).1
            == Ok::<Seq<char>, Seq<char>>(get_message(k, v)),
        apply_command(apply_command(store, CommandView::Delete(k)).0, CommandView::Get(k)).1
            == Err::<Seq<char>, Seq<char>>(not_found_message(k)),
{
}

/// Setting two different keys gives the same store in either order.
pub proof fn lemma_sets_commute(
    store: Map<Seq<char>, Seq<char>>,
    k1: Seq<char>,
    v1: Seq<char>,
    k2: Seq<char>,
    v2: Seq<char>,
)
    requires
        k1 != k2,
    ensures
        apply_command(apply_command(store, CommandView::SetKey(k1, v1)).0, CommandView::SetKey(k2, v2)).0
            == apply_command(
            apply_command(store, CommandView::SetKey(k2, v2)).0,
            CommandView::SetKey(k1, v1),
        ).0,
{
    assert(store.insert(k1, v1).insert(k2, v2) =~= store.insert(k2, v2).insert(k1, v1));
}

/// The view of an outcome of the store.
pub open spec fn outcome_view(r: Result<String, String>) -> Result<Seq<char>, Seq<char>> {
    match r {
        Ok(s) => Ok(s@),
        Err(e) => Err(e@),
    }
}

/// The key/value store and the rules that apply commands to it.
pub struct CommandHandler {
    entries: Vec<(String, String)>,
    contents: Ghost<Map<Seq<char>, Seq<char>>>,
}

impl View for CommandHandler {
    type V = Map<Seq<char>, Seq<char>>;

    closed spec fn view(&self) -> Map<Seq<char>, Seq<char>> {
        self.contents@
    }
}

impl CommandHandler {
    /// Keys are unique, and the entries are exactly the contents.
    pub closed spec fn wf(&self) -> bool {
        &&& forall|i: int, j: int|
            0 <= i < j < self.entries@.len() ==> #[trigger] self.entries@[i].0@
                != #[trigger] self.entries@[j].0@
        &&& forall|i: int|
            0 <= i < self.entries@.len() ==> self.contents@.contains_key(
                #[trigger] self.entries@[i].0@,
            ) && self.contents@[self.entries@[i].0@] == self.entries@[i].1@
        &&& forall|k: Seq<char>|
            #[trigger] self.contents@.contains_key(k) ==> exists|i: int|
                0 <= i < self.entries@.len() && #[trigger] self.entries@[i].0@ == k
    }

    pub fn new() -> (r: Self)
        ensures
            r.wf(),
            r@ == Map::<Seq<char>, Seq<char>>::empty(),
    {
        Self { entries: Vec::new(), contents: Ghost(Map::empty()) }
    }

    fn find(&self, key: &String) -> (r: Option<usize>)
        requires
            self.wf(),
        ensures
            match r {
                Some(i) => i < self.entries@.len() && self.entries@[i as int].0@ == key@,
                None => !self@.contains_key(key@),
            },
    {
        let mut i: usize = 0;
        while i < self.entries.len()
            invariant
                i <= self.entries@.len(),
                forall|j: int| 0 <= j < i ==> self.entries@[j].0@ != key@,
            decreases self.entries.len() - i,
        {
            if self.entries[i].0 == *key {
                return Some(i);
            }
            i = i + 1;
        }
        None
    }

    /// Applies `command` to the store and reports its outcome.
    pub fn process_command(&mut self, command: Command) -> (r: Result<String, String>)
        requires
            old(self).wf(),
        ensures
            final(self).wf(),
            (final(self)@, outcome_view(r)) == apply_command(old(self)@, command@),
    {
        match command.command_type {
            CommandType::SetKey(key, value) => self.handle_set(key, value),
            CommandType::Get(key) => self.handle_get(&key),
            CommandType::Delete(key) => self.handle_delete(key),
        }
    }

    fn handle_set(&mut self, key: String, value: String) -> (r: Result<String, String>)
        requires
            old(self).wf(),
        ensures
            final(self).wf(),
            (final(self)@, outcome_view(r)) == apply_command(
                old(self)@,
                CommandView::SetKey(key@, value@),
            ),
    {
        let mut msg = String::from_str("SET ");
        msg.append(key.as_str());
        msg.append(" = ");
        msg.append(value.as_str());
        let ghost k = key@;
        let ghost v = value@;
        let ghost old_entries = self.entries@;
        let ghost old_map = self.contents@;
        match self.find(&key) {
            Some(i) => {
                self.entries.set(i, (key, value));
                proof {
                    self.contents@ = old_map.insert(k, v);
                    assert forall|j: int| 0 <= j < self.entries@.len() && j != i implies
                        self.entries@[j] == old_entries[j] && old_entries[j].0@ != k by {
                        if j < i {
                            assert(old_entries[j].0@ != old_entries[i as int].0@);
                        } else {
                            assert(old_entries[i as int].0@ != old_entries[j].0@);
                        }
                    }
                    assert forall|kk: Seq<char>| #[trigger]
                        self.contents@.contains_key(kk) implies exists|j: int|
                        0 <= j < self.entries@.len() && #[trigger] self.entries@[j].0@ == kk by {
                        if kk != k {
                            let j = choose|j: int|
                                0 <= j < old_entries.len() && #[trigger] old_entries[j].0@ == kk;
                            assert(self.entries@[j].0@ == kk);
                        } else {
                            assert(self.entries@[i as int].0@ == kk);
                        }
                    }
                }
            },
            None => {
                self.entries.push((key, value));
                proof {
                    self.contents@ = old_map.insert(k, v);
                    let n = old_entries.len() as int;
                    assert forall|j: int| 0 <= j < n implies old_entries[j].0@ != k by {
                        assert(old_map.contains_key(old_entries[j].0@));
                    }
                    assert forall|kk: Seq<char>| #[trigger]
                        self.contents@.contains_key(kk) implies exists|j: int|
                        0 <= j < self.entries@.len() && #[trigger] self.entries@[j].0@ == kk by {
                        if kk != k {
                            let j = choose|j: int|
                                0 <= j < old_entries.len() && #[trigger] old_entries[j].0@ == kk;
                            assert(self.entries@[j].0@ == kk);
                        } else {
                            assert(self.entries@[n].0@ == kk);
                        }
                    }
                }
            },
        }
        Ok(msg)
    }

    fn handle_get(&self, key: &String) -> (r: Result<String, String>)
        requires
            self.wf(),
        ensures
            (self@, outcome_view(r)) == apply_command(self@, CommandView::Get(key@)),
    {
        match self.find(key) {
            Some(i) => {
                let mut msg = String::from_str("GET ");
                msg.append(key.as_str());
                msg.append(" = ");
                msg.append(self.entries[i].1.as_str());
                Ok(msg)
            },
            None => {
                let mut msg = String::from_str("Key '");
                msg.append(key.as_str());
                msg.append("' not found");
                Err(msg)
            },
        }
    }

    fn handle_delete(&mut self, key: String) -> (r: Result<String, String>)
        requires
            old(self).wf(),
        ensures
            final(self).wf(),
            (final(self)@, outcome_view(r)) == apply_command(old(self)@, CommandView::Delete(key@)),
    {
        match self.find(&key) {
            Some(i) => {
                let ghost old_entries = self.entries@;
                let ghost old_map = self.contents@;
                let (_, value) = self.entries.remove(i);
                let mut msg = String::from_str("DELETED ");
                msg.append(key.as_str());
                msg.append(" (was: ");
                msg.append(value.as_str());
                msg.append(")");
                proof {
                    self.contents@ = old_map.remove(key@);
                    let ne = self.entries@;
                    assert forall|j: int| 0 <= j < ne.len() implies (j < i ==> ne[j]
                        == old_entries[j]) && (j >= i ==> ne[j] == old_entries[j + 1]) by {}
                    assert forall|j: int| 0 <= j < old_entries.len() && j != i implies
                        old_entries[j].0@ != key@ by {
                        if j < i {
                            assert(old_entries[j].0@ != old_entries[i as int].0@);
                        } else {
                            assert(old_entries[i as int].0@ != old_entries[j].0@);
                        }
                    }
                    assert forall|a: int, b: int|
                        0 <= a < b < ne.len() implies #[trigger] ne[a].0@ != #[trigger] ne[b].0@ by {
                        let a0 = if a < i { a } else { a + 1 };
                        let b0 = if b < i { b } else { b + 1 };
                        assert(ne[a] == old_entries[a0]);
                        assert(ne[b] == old_entries[b0]);
                        assert(old_entries[a0].0@ != old_entries[b0].0@);
                    }
                    assert forall|j: int| 0 <= j < ne.len() implies self.contents@.contains_key(
                        #[trigger] ne[j].0@,
                    ) && self.contents@[ne[j].0@] == ne[j].1@ by {
                        let j0 = if j < i { j } else { j + 1 };
                        assert(ne[j] == old_entries[j0]);
                        assert(old_map.contains_key(old_entries[j0].0@));
                    }
                    assert forall|kk: Seq<char>| #[trigger]
                        self.contents@.contains_key(kk) implies exists|j: int|
                        0 <= j < ne.len() && #[trigger] ne[j].0@ == kk by {
                        let j0 = choose|j: int|
                            0 <= j < old_entries.len() && #[trigger] old_entries[j].0@ == kk;
                        if j0 < i {
                            assert(ne[j0].0@ == kk);
                        } else {
                            assert(ne[j0 - 1].0@ == kk);
                        }
                    }
                }
                Ok(msg)
            },
            None => {
                let mut msg = String::from_str("Key '");
                msg.append(key.as_str());
                msg.append("' not found");
                Err(msg)
            },
        }
    }
}

} // verus!

//! The table of actions: plugins enter what they can do, and requests are looked
//! up in it.

use vstd::prelude::*;

use crate::content::ContentId;
use crate::plugin::ids::{action_name, ActionKey};

verus! {

/// Why an action was not done.
#[derive(Debug)]
pub enum ActionError {
    Unsupported,
    Failed(String),
}

/// An action and what does it.
#[derive(Debug)]
struct ActionEntry<H> {
    key: ActionKey,
    handler: H,
}

/// The table of actions. An action has one handler.
#[derive(Debug)]
pub struct ActionRegistry<H> {
    entries: Vec<ActionEntry<H>>,
}

/// The handler that stands last in the table under a name.
spec fn handler_in<H>(entries: Seq<ActionEntry<H>>, name: Seq<char>) -> Option<H>
    decreases entries.len(),
{
    if entries.len() == 0 {
        None
    } else if action_name(entries.last().key) == name {
        Some(entries.last().handler)
    } else {
        handler_in(entries.drop_last(), name)
    }
}

/// A new handler in the place of the last one under a name changes the handler of
/// that name alone.
proof fn lemma_handler_update<H>(
    entries: Seq<ActionEntry<H>>,
    i: int,
    e: ActionEntry<H>,
    name: Seq<char>,
)
    requires
        0 <= i < entries.len(),
        action_name(e.key) == action_name(entries[i].key),
        forall|j: int|
            i < j < entries.len() ==> action_name((#[trigger] entries[j]).key) != action_name(
                e.key,
            ),
    ensures
        handler_in(entries.update(i, e), name) == if name == action_name(e.key) {
            Some(e.handler)
        } else {
            handler_in(entries, name)
        },
    decreases entries.len(),
{
    let next = entries.update(i, e);
    if i == entries.len() - 1 {
        assert(next.drop_last() =~= entries.drop_last());
    } else {
        let shorter = entries.drop_last();
        assert forall|j: int| i < j < shorter.len() implies action_name((#[trigger] shorter[j]).key)
            != action_name(e.key) by {
            assert(shorter[j] == entries[j]);
        }
        lemma_handler_update(shorter, i, e, name);
        assert(next.drop_last() =~= shorter.update(i, e));
        assert(action_name(entries[entries.len() - 1].key) != action_name(e.key));
    }
}

/// Whether a handler was entered for an action: it is now the one of that action,
/// and the others are as they were.
pub open spec fn registered<H>(
    before: ActionRegistry<H>,
    after: ActionRegistry<H>,
    key: ActionKey,
    handler: H,
) -> bool {
    forall|other: ActionKey| #[trigger]
        after.handler_of(other) == if action_name(other) == action_name(key) {
            Some(handler)
        } else {
            before.handler_of(other)
        }
}

/// Of two handlers that were entered for an action the later one does it, whatever
/// is entered for another action after it.
pub proof fn latest_handler_stands<H>(
    start: ActionRegistry<H>,
    once: ActionRegistry<H>,
    twice: ActionRegistry<H>,
    after: ActionRegistry<H>,
    key: ActionKey,
    first: H,
    second: H,
    other: ActionKey,
    third: H,
)
    requires
        registered(start, once, key, first),
        registered(once, twice, key, second),
        registered(twice, after, other, third),
        action_name(other) != action_name(key),
    ensures
        twice.handler_of(key) == Some(second),
        after.handler_of(key) == Some(second),
{
}

impl<H> ActionRegistry<H> {
    /// The handler of an action.
    pub closed spec fn handler_of(&self, key: ActionKey) -> Option<H> {
        handler_in(self.entries@, action_name(key))
    }

    /// An empty table.
    pub fn new() -> (r: ActionRegistry<H>)
        ensures
            forall|key: ActionKey| #[trigger] r.handler_of(key) is None,
    {
        ActionRegistry { entries: Vec::new() }
    }

    fn place(&self, key: ActionKey) -> (r: Option<usize>)
        ensures
            match r {
                Some(i) => {
                    &&& i < self.entries@.len()
                    &&& action_name(self.entries@[i as int].key) == action_name(key)
                    &&& forall|j: int|
                        i < j < self.entries@.len() ==> action_name(
                            (#[trigger] self.entries@[j]).key,
                        ) != action_name(key)
                    &&& self.handler_of(key) == Some(self.entries@[i as int].handler)
                },
                None => self.handler_of(key) is None,
            },
    {
        let mut n: usize = self.entries.len();
        assert(self.entries@.take(n as int) =~= self.entries@);
        while n > 0
            invariant
                n <= self.entries@.len(),
                forall|j: int|
                    n <= j < self.entries@.len() ==> action_name((#[trigger] self.entries@[j]).key)
                        != action_name(key),
                self.handler_of(key) == handler_in(self.entries@.take(n as int), action_name(key)),
            decreases n,
        {
            let i: usize = n - 1;
            proof {
                assert(self.entries@.take(n as int).last() == self.entries@[i as int]);
                assert(self.entries@.take(n as int).drop_last() =~= self.entries@.take(i as int));
            }
            if self.entries[i].key == key {
                return Some(i);
            }
            n = i;
        }
        None
    }

    /// Enters the handler of an action, in the place of one it had.
    pub fn register(&mut self, key: ActionKey, handler: H)
        ensures
            registered(*old(self), *final(self), key, handler),
    {
        let entry = ActionEntry { key, handler };
        match self.place(key) {
            Some(i) => {
                self.entries.set(i, entry);
                proof {
                    assert forall|other: ActionKey| #[trigger]
                        self.handler_of(other) == if action_name(other) == action_name(key) {
                            Some(handler)
                        } else {
                            old(self).handler_of(other)
                        } by {
                        lemma_handler_update(
                            old(self).entries@,
                            i as int,
                            entry,
                            action_name(other),
                        );
                    }
                }
            },
            None => {
                self.entries.push(entry);
                assert(self.entries@.drop_last() =~= old(self).entries@);
            },
        }
    }

    /// Does an action: the handler that was entered for it last is called with the
    /// item and the place to save to, and its result is the result. An action that
    /// nobody entered fails.
    pub fn execute<R>(&self, key: ActionKey, item_id: ContentId, save_path: Option<String>) -> (r:
        Result<R, ActionError>) where H: Fn(ContentId, Option<String>) -> Result<R, ActionError>
        requires
            self.handler_of(key) matches Some(h) ==> call_requires(h, (item_id, save_path)),
        ensures
            match self.handler_of(key) {
                Some(h) => call_ensures(h, (item_id, save_path), r),
                None => r matches Err(ActionError::Failed(m)) && m@ == "unknown action "@
                    + action_name(key),
            },
    {
        match self.place(key) {
            Some(i) => {
                let handler = &self.entries[i].handler;
                handler(item_id, save_path)
            },
            None => {
                let mut m = "unknown action ".to_owned();
                m.push_str(key.as_str());
                Err(ActionError::Failed(m))
            },
        }
    }

    /// Whether an action can be done.
    pub fn contains(&self, key: ActionKey) -> (r: bool)
        ensures
            r == (self.handler_of(key) is Some),
    {
        self.place(key).is_some()
    }
}

/// A handler that was entered for an action does it, and the other actions are done as
/// before.
pub proof fn entered_handlers_are_used<H>(
    table: &mut ActionRegistry<H>,
    key: ActionKey,
    handler: H,
    r: (),
    can: bool,
    other: ActionKey,
    could: bool,
    can_other: bool,
)
    requires
        call_ensures(ActionRegistry::<H>::register, (table, key, handler), r),
        call_ensures(ActionRegistry::<H>::contains, (&*final(table), key), can),
        action_name(other) != action_name(key),
        call_ensures(ActionRegistry::<H>::contains, (&*old(table), other), could),
        call_ensures(ActionRegistry::<H>::contains, (&*final(table), other), can_other),
    ensures
        can,
        final(table).handler_of(key) == Some(handler),
        could == can_other,
        final(table).handler_of(other) == old(table).handler_of(other),
{
}

/// A new table has no actions.
pub proof fn new_tables_are_empty<H>(table: ActionRegistry<H>, key: ActionKey, can: bool)
    requires
        call_ensures(ActionRegistry::<H>::new, (), table),
        call_ensures(ActionRegistry::<H>::contains, (&table, key), can),
    ensures
        !can,
{
}


/// Doing an action is calling its handler, and nothing else; an action without one fails.
pub proof fn actions_are_done_by_their_handlers<
    R,
    H: Fn(ContentId, Option<String>) -> Result<R, ActionError>,
>(
    table: &mut ActionRegistry<H>,
    key: ActionKey,
    handler: H,
    done: (),
    id: ContentId,
    path: Option<String>,
    r: Result<R, ActionError>,
    empty: ActionRegistry<H>,
    f: Result<R, ActionError>,
)
    requires
        call_ensures(ActionRegistry::<H>::register, (table, key, handler), done),
        call_ensures(ActionRegistry::<H>::execute::<R>, (&*final(table), key, id, path), r),
        call_ensures(ActionRegistry::<H>::new, (), empty),
        call_ensures(ActionRegistry::<H>::execute::<R>, (&empty, key, id, path), f),
    ensures
        call_ensures(handler, (id, path), r),
        f is Err && f->Err_0 is Failed,
{
    assert(final(table).handler_of(key) == Some(handler));
    assert(empty.handler_of(key) is None);
}


} // verus!

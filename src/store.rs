//! The conversation store: the needed-list of each conversation, restored
//! from its snapshot the first time the conversation is seen.
use vstd::prelude::*;
use std::collections::HashMap;
use crate::listing::{int_text, i64_text, texts};
use crate::needed::{Needed, need_fold, got_fold, need_message, got_message, restored, snapshot_names,
    sorted_by_key, tokens};
use crate::codec::snapshot_text;

verus! {

broadcast use vstd::std_specs::hash::group_hash_axioms;

/// The data of one conversation.
pub struct FlatShare {
    pub needed: Needed,
}

impl FlatShare {
    /// A conversation with an empty list.
    pub fn new() -> (r: FlatShare)
        ensures
            r.needed@ == Seq::<Seq<char>>::empty(),
            r.needed.wf(),
    {
        FlatShare { needed: Needed::new() }
    }
}

/// What a text message asks of the list.
#[derive(Debug, Clone, PartialEq, Eq)]
pub enum Command {
    /// Add the items named in the argument.
    Need(String),
    /// Remove the items named in the argument.
    Got(String),
    /// A command that this library does not know, by its first word.
    Unknown(String),
    /// Plain text, no command.
    Text,
}

/// The place of the snapshot of a conversation under the data directory.
pub open spec fn snapshot_path_of(data_dir: Seq<char>, cid: int) -> Seq<char> {
    data_dir + int_text(cid) + ".json"@
}

/// The name of the snapshot file of conversation `cid` under `data_dir`.
pub fn snapshot_path(data_dir: &str, cid: i64) -> (r: String)
    ensures
        r@ == snapshot_path_of(data_dir@, cid as int),
{
    let mut r = String::from_str(data_dir);
    let n = i64_text(cid);
    r.append(n.as_str());
    r.append(".json");
    r
}

/// The needed-lists of all conversations seen so far, keyed by conversation.
pub struct FlatStore {
    flats: HashMap<i64, FlatShare>,
}

impl FlatStore {
    /// The list of each conversation seen so far.
    pub closed spec fn lists(&self) -> Map<i64, Seq<Seq<char>>> {
        self.flats@.map_values(|f: FlatShare| f.needed@)
    }

    /// Every stored list is well formed.
    #[verifier::type_invariant]
    closed spec fn inv(&self) -> bool {
        forall|c: i64| #[trigger] self.flats@.contains_key(c) ==> self.flats@[c].needed.wf()
    }

    /// A store that has seen no conversation.
    pub fn new() -> (r: FlatStore)
        ensures
            r.lists() == Map::<i64, Seq<Seq<char>>>::empty(),
    {
        let r = FlatStore { flats: HashMap::new() };
        assert(r.lists() =~= Map::<i64, Seq<Seq<char>>>::empty());
        r
    }

    /// Whether conversation `cid` has been seen.
    pub fn contains(&self, cid: i64) -> (r: bool)
        ensures
            r == self.lists().contains_key(cid),
    {
        self.flats.contains_key(&cid)
    }

    /// Enters conversation `cid` with the list that its snapshot text holds,
    /// or with an empty list where there is no snapshot or it cannot be read.
    /// Answers whether a snapshot was read.
    pub fn hydrate(&mut self, cid: i64, snapshot: Option<String>) -> (r: bool)
        requires
            !old(self).lists().contains_key(cid),
        ensures
            final(self).lists() == old(self).lists().insert(
                cid,
                match snapshot {
                    Some(t) => restored(t@),
                    None => Seq::<Seq<char>>::empty(),
                },
            ),
            r == (snapshot matches Some(t) && snapshot_names(t@) is Some),
    {
        proof {
            use_type_invariant(&*self);
        }
        let (needed, read) = match &snapshot {
            Some(t) => match Needed::try_restore(t.as_str()) {
                Some(n) => (n, true),
                None => (Needed::new(), false),
            },
            None => (Needed::new(), false),
        };
        let mut m: HashMap<i64, FlatShare> = HashMap::new();
        std::mem::swap(&mut m, &mut self.flats);
        m.insert(cid, FlatShare { needed });
        self.flats = m;
        assert(self.lists() =~= old(self).lists().insert(
            cid,
            match snapshot {
                Some(t) => restored(t@),
                None => Seq::<Seq<char>>::empty(),
            },
        ));
        read
    }

    /// Takes the data of a conversation out of the store.
    fn take(&mut self, cid: i64) -> (r: FlatShare)
        requires
            old(self).lists().contains_key(cid),
        ensures
            final(self).flats@ == old(self).flats@.remove(cid),
            r == old(self).flats@[cid],
            r.needed.wf(),
    {
        proof {
            use_type_invariant(&*self);
        }
        let mut m: HashMap<i64, FlatShare> = HashMap::new();
        std::mem::swap(&mut m, &mut self.flats);
        let r = match m.remove(&cid) {
            Some(f) => f,
            None => {
                assert(false);
                FlatShare::new()
            },
        };
        self.flats = m;
        r
    }

    /// Puts the data of a conversation into the store.
    fn put(&mut self, cid: i64, f: FlatShare)
        requires
            f.needed.wf(),
        ensures
            final(self).flats@ == old(self).flats@.insert(cid, f),
    {
        proof {
            use_type_invariant(&*self);
        }
        let mut m: HashMap<i64, FlatShare> = HashMap::new();
        std::mem::swap(&mut m, &mut self.flats);
        m.insert(cid, f);
        self.flats = m;
    }

    /// Adds the items named in `args` to the list of conversation `cid`, and
    /// answers as the list does.
    pub fn need(&mut self, cid: i64, args: String) -> (r: String)
        requires
            old(self).lists().contains_key(cid),
        ensures
            final(self).lists() == old(self).lists().insert(
                cid,
                need_fold(old(self).lists()[cid], tokens(args@)).0,
            ),
            r@ == need_message(
                need_fold(old(self).lists()[cid], tokens(args@)).1,
                final(self).lists()[cid],
            ),
    {
        let mut f = self.take(cid);
        let r = f.needed.handle_need(args);
        self.put(cid, f);
        assert(self.lists() =~= old(self).lists().insert(
            cid,
            need_fold(old(self).lists()[cid], tokens(args@)).0,
        ));
        r
    }

    /// Removes the items named in `args` from the list of conversation `cid`,
    /// and answers as the list does.
    pub fn got(&mut self, cid: i64, args: String) -> (r: String)
        requires
            old(self).lists().contains_key(cid),
        ensures
            final(self).lists() == old(self).lists().insert(
                cid,
                got_fold(old(self).lists()[cid], tokens(args@)).0,
            ),
            r@ == got_message(
                got_fold(old(self).lists()[cid], tokens(args@)).1,
                final(self).lists()[cid],
            ),
    {
        let mut f = self.take(cid);
        let r = f.needed.handle_got(args);
        self.put(cid, f);
        assert(self.lists() =~= old(self).lists().insert(
            cid,
            got_fold(old(self).lists()[cid], tokens(args@)).0,
        ));
        r
    }

    /// The displayed names on the list of conversation `cid`, in order, or
    /// nothing where the conversation has not been seen.
    pub fn names(&self, cid: i64) -> (r: Option<Vec<String>>)
        ensures
            match r {
                Some(v) => self.lists().contains_key(cid) && texts(v@) == self.lists()[cid],
                None => !self.lists().contains_key(cid),
            },
    {
        match self.flats.get(&cid) {
            Some(f) => Some(f.needed.names()),
            None => None,
        }
    }

    /// The snapshot text of conversation `cid`, which restores its list;
    /// nothing where the conversation has not been seen.
    pub fn snapshot(&self, cid: i64) -> (r: Option<String>)
        ensures
            !self.lists().contains_key(cid) ==> r is None,
            self.lists().contains_key(cid) ==> (r matches Some(t) && t@ == snapshot_text(
                self.lists()[cid],
            ) && restored(t@) == self.lists()[cid]),
    {
        proof {
            use_type_invariant(self);
        }
        match self.flats.get(&cid) {
            Some(f) => Some(f.needed.snapshot()),
            None => None,
        }
    }

    /// Every list in the store is sorted and holds no item twice.
    pub fn lists_sorted(&self)
        ensures
            forall|c: i64| #[trigger] self.lists().contains_key(c) ==> sorted_by_key(
                self.lists()[c],
            ),
    {
        proof {
            use_type_invariant(self);
        }
    }
}

} // verus!

//! The scope machinery: a `Store` is one frame of name-to-value and
//! name-to-type bindings, and a `Snapshot` is a stack of such frames.
//!
//! Entering a scope pushes a frame and exiting pops it, so bindings made for
//! a subexpression are discarded when it finishes. Lookup searches frames
//! innermost to outermost, so an inner binding shadows an outer one. The
//! bindings visible at any moment are modelled by the flat map
//! `flat_vals`, which every operation's contract is stated over.

use vstd::prelude::*;

use crate::ast::{RawExpr, RawType, SpecExpr, SpecType};
use crate::error::EvalError;

verus! {

/// One scope frame: bindings from variable names to values and from type
/// variable names to types.
pub struct Store {
    val_store: Vec<(String, RawExpr)>,
    typ_store: Vec<(String, RawType)>,
}

/// The model of a frame: two finite maps over character-sequence names.
pub ghost struct StoreView {
    pub vals: Map<Seq<char>, SpecExpr>,
    pub typs: Map<Seq<char>, SpecType>,
}

/// The model of a frame with no bindings.
pub open spec fn empty_frame() -> StoreView {
    StoreView { vals: Map::empty(), typs: Map::empty() }
}

/// The map described by a list of value bindings; a later entry for a name
/// overrides an earlier one.
pub open spec fn val_entries_map(s: Seq<(String, RawExpr)>) -> Map<Seq<char>, SpecExpr>
    decreases s,
{
    if s.len() == 0 {
        Map::empty()
    } else {
        val_entries_map(s.drop_last()).insert(s.last().0@, s.last().1@)
    }
}

/// The map described by a list of type bindings; a later entry for a name
/// overrides an earlier one.
pub open spec fn typ_entries_map(s: Seq<(String, RawType)>) -> Map<Seq<char>, SpecType>
    decreases s,
{
    if s.len() == 0 {
        Map::empty()
    } else {
        typ_entries_map(s.drop_last()).insert(s.last().0@, s.last().1@)
    }
}

impl View for Store {
    type V = StoreView;

    closed spec fn view(&self) -> StoreView {
        StoreView {
            vals: val_entries_map(self.val_store@),
            typs: typ_entries_map(self.typ_store@),
        }
    }
}

impl Store {
    /// A frame with no bindings.
    pub fn new() -> (s: Store)
        ensures
            s@ == empty_frame(),
    {
        Store { val_store: Vec::new(), typ_store: Vec::new() }
    }

    /// The value bound to `key` in this frame, if any.
    pub fn get_val(&self, key: &String) -> (r: Option<&RawExpr>)
        ensures
            match r {
                Some(e) => self@.vals.contains_key(key@) && e@ == self@.vals[key@],
                None => !self@.vals.contains_key(key@),
            },
    {
        let n = self.val_store.len();
        proof {
            assert(self.val_store@.take(n as int) =~= self.val_store@);
        }
        get_val_prefix(&self.val_store, key, n)
    }

    /// Binds `id` to `val` in this frame, shadowing any earlier binding.
    pub fn insert_val(&mut self, id: String, val: RawExpr)
        ensures
            final(self)@.vals == old(self)@.vals.insert(id@, val@),
            final(self)@.typs == old(self)@.typs,
    {
        let ghost old_entries = self.val_store@;
        let ghost idv = id@;
        let ghost valv = val@;
        self.val_store.push((id, val));
        proof {
            assert(self.val_store@.drop_last() =~= old_entries);
            assert(self.val_store@.last().0@ == idv);
            assert(self.val_store@.last().1@ == valv);
        }
    }

    /// Binds the type variable `id` to `typ` in this frame.
    pub fn insert_typ(&mut self, id: String, typ: RawType)
        ensures
            final(self)@.typs == old(self)@.typs.insert(id@, typ@),
            final(self)@.vals == old(self)@.vals,
    {
        let ghost old_entries = self.typ_store@;
        let ghost idv = id@;
        let ghost typv = typ@;
        self.typ_store.push((id, typ));
        proof {
            assert(self.typ_store@.drop_last() =~= old_entries);
            assert(self.typ_store@.last().0@ == idv);
            assert(self.typ_store@.last().1@ == typv);
        }
    }
}

/// The value bound to `key` among the first `n` entries, latest entry first.
fn get_val_prefix<'a>(entries: &'a Vec<(String, RawExpr)>, key: &String, n: usize) -> (r: Option<
    &'a RawExpr,
>)
    requires
        n <= entries.len(),
    ensures
        match r {
            Some(e) => val_entries_map(entries@.take(n as int)).contains_key(key@) && e@
                == val_entries_map(entries@.take(n as int))[key@],
            None => !val_entries_map(entries@.take(n as int)).contains_key(key@),
        },
    decreases n,
{
    if n == 0 {
        None
    } else {
        proof {
            assert(entries@.take(n as int).drop_last() =~= entries@.take(n as int - 1));
            assert(entries@.take(n as int).last() == entries@[n as int - 1]);
        }
        let entry = &entries[n - 1];
        if entry.0 == *key {
            Some(&entry.1)
        } else {
            get_val_prefix(entries, key, n - 1)
        }
    }
}

/// A stack of scope frames. The base frame is created once per evaluation
/// session and accumulates top-level declarations; every other frame is
/// opened on entering a scope and discarded on leaving it.
pub struct Snapshot {
    frames: Vec<Store>,
}

/// The views of the first `n` of a sequence of frames.
pub open spec fn frame_views(frames: Seq<Store>, n: int) -> Seq<StoreView> {
    Seq::new(n as nat, |i: int| frames[i]@)
}

/// All value bindings visible when `frames` are stacked: an inner (later)
/// frame's binding shadows an outer one's.
pub open spec fn flat_vals(frames: Seq<StoreView>) -> Map<Seq<char>, SpecExpr>
    decreases frames.len(),
{
    if frames.len() == 0 {
        Map::empty()
    } else {
        flat_vals(frames.drop_last()).union_prefer_right(frames.last().vals)
    }
}

impl View for Snapshot {
    type V = Seq<StoreView>;

    closed spec fn view(&self) -> Seq<StoreView> {
        frame_views(self.frames@, self.frames@.len() as int)
    }
}

impl Snapshot {
    /// A snapshot always has at least its base frame.
    pub open spec fn wf(&self) -> bool {
        self@.len() >= 1
    }

    /// The value bindings currently visible.
    pub open spec fn env(&self) -> Map<Seq<char>, SpecExpr> {
        flat_vals(self@)
    }

    /// A fresh snapshot: a single, empty base frame.
    pub fn new() -> (s: Snapshot)
        ensures
            s.wf(),
            s@ =~= seq![empty_frame()],
            s.env() == Map::<Seq<char>, SpecExpr>::empty(),
    {
        let mut frames: Vec<Store> = Vec::new();
        frames.push(Store::new());
        let s = Snapshot { frames };
        proof {
            assert(s@ =~= seq![empty_frame()]);
            assert(s@.drop_last() =~= Seq::<StoreView>::empty());
            assert(flat_vals(s@.drop_last()) == Map::<Seq<char>, SpecExpr>::empty());
            assert(s.env() =~= Map::<Seq<char>, SpecExpr>::empty());
        }
        s
    }

    /// Opens a scope: pushes a fresh frame. No visible binding changes.
    pub fn enter(&mut self)
        requires
            old(self).wf(),
        ensures
            final(self).wf(),
            final(self)@ == old(self)@.push(empty_frame()),
            final(self).env() == old(self).env(),
    {
        self.frames.push(Store::new());
        proof {
            assert(self@ =~= old(self)@.push(empty_frame()));
            assert(self@.drop_last() =~= old(self)@);
            assert(flat_vals(self@.drop_last()).union_prefer_right(Map::empty()) =~= flat_vals(
                old(self)@,
            ));
        }
    }

    /// Closes a scope: pops the innermost frame, discarding the bindings made
    /// since the matching `enter`. Popping the base frame is an internal
    /// invariant violation: the session's top-level bindings are never
    /// discarded.
    pub fn exeunt(&mut self) -> (r: Result<(), EvalError>)
        requires
            old(self).wf(),
        ensures
            final(self).wf(),
            old(self)@.len() > 1 ==> r == Ok::<(), EvalError>(()) && final(self)@ == old(
                self,
            )@.drop_last(),
            old(self)@.len() == 1 ==> r == Err::<(), EvalError>(EvalError::InvariantViolation)
                && final(self)@ == old(self)@,
    {
        if self.frames.len() <= 1 {
            Err(EvalError::InvariantViolation)
        } else {
            let _popped = self.frames.pop();
            proof {
                assert(self@ =~= old(self)@.drop_last());
            }
            Ok(())
        }
    }

    /// Binds `id` to `val` in the innermost frame.
    pub fn insert_val(&mut self, id: String, val: RawExpr)
        requires
            old(self).wf(),
        ensures
            final(self).wf(),
            final(self)@.len() == old(self)@.len(),
            final(self)@.drop_last() == old(self)@.drop_last(),
            final(self)@.last().vals == old(self)@.last().vals.insert(id@, val@),
            final(self)@.last().typs == old(self)@.last().typs,
            final(self).env() == old(self).env().insert(id@, val@),
    {
        let ghost idv = id@;
        let ghost valv = val@;
        let mut top = self.frames.pop().unwrap();
        top.insert_val(id, val);
        self.frames.push(top);
        proof {
            assert(self@.drop_last() =~= old(self)@.drop_last());
            assert(self@.last().vals == old(self)@.last().vals.insert(idv, valv));
            broadcast use vstd::map_lib::lemma_union_insert_right;

            assert(self.env() == old(self).env().insert(idv, valv));
        }
    }

    /// Binds the type variable `id` to `typ` in the innermost frame. The
    /// visible value bindings do not change.
    pub fn insert_typ(&mut self, id: String, typ: RawType)
        requires
            old(self).wf(),
        ensures
            final(self).wf(),
            final(self)@.len() == old(self)@.len(),
            final(self)@.drop_last() == old(self)@.drop_last(),
            final(self)@.last().typs == old(self)@.last().typs.insert(id@, typ@),
            final(self)@.last().vals == old(self)@.last().vals,
            final(self).env() == old(self).env(),
    {
        let ghost idv = id@;
        let ghost typv = typ@;
        let mut top = self.frames.pop().unwrap();
        top.insert_typ(id, typ);
        self.frames.push(top);
        proof {
            assert(self@.drop_last() =~= old(self)@.drop_last());
            assert(self@.last().typs == old(self)@.last().typs.insert(idv, typv));
        }
    }

    /// The value bound to `key`, searching frames innermost to outermost.
    pub fn get_val(&self, key: &String) -> (r: Option<&RawExpr>)
        requires
            self.wf(),
        ensures
            match r {
                Some(e) => self.env().contains_key(key@) && e@ == self.env()[key@],
                None => !self.env().contains_key(key@),
            },
    {
        let n = self.frames.len();
        proof {
            assert(frame_views(self.frames@, n as int) =~= self@);
        }
        lookup_frames(&self.frames, key, n)
    }
}

/// The value bound to `key` among the first `n` frames, innermost first.
fn lookup_frames<'a>(frames: &'a Vec<Store>, key: &String, n: usize) -> (r: Option<&'a RawExpr>)
    requires
        n <= frames.len(),
    ensures
        match r {
            Some(e) => flat_vals(frame_views(frames@, n as int)).contains_key(key@) && e@
                == flat_vals(frame_views(frames@, n as int))[key@],
            None => !flat_vals(frame_views(frames@, n as int)).contains_key(key@),
        },
    decreases n,
{
    if n == 0 {
        None
    } else {
        proof {
            assert(frame_views(frames@, n as int).drop_last() =~= frame_views(
                frames@,
                n as int - 1,
            ));
            assert(frame_views(frames@, n as int).last() == frames@[n as int - 1]@);
        }
        let r = frames[n - 1].get_val(key);
        match r {
            Some(e) => Some(e),
            None => lookup_frames(frames, key, n - 1),
        }
    }
}

} // verus!

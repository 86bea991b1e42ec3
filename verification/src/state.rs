//! The browser's view state and its transitions.
//!
//! The state holds the current path, the entries on display, a busy flag,
//! and a counter that numbers the listing requests issued so far. Each
//! navigation step starts a new load under a fresh request number; a
//! completed load is applied only when it carries the number of the most
//! recently issued request, so a stale response for an abandoned path can
//! never overwrite the listing of the path the user has since moved to.

use vstd::prelude::*;

use crate::models::{DufsItem, EntryV};
use crate::nav::{
    is_canonical_path, lemma_enter_canonical, lemma_go_back_canonical, spec_enter, spec_go_back,
};

verus! {

/// The mathematical content of the view state.
#[verifier::ext_equal]
pub ghost struct StateModel {
    pub path: Seq<u8>,
    pub entries: Seq<EntryV>,
    pub loading: bool,
    pub latest_req: u64,
}

impl StateModel {
    /// The current path is always canonical: empty or `/`-terminated.
    pub open spec fn wf(self) -> bool {
        is_canonical_path(self.path)
    }
}

/// Starting a load: the busy flag goes up and the next request number is
/// drawn.
pub open spec fn spec_start_load(m: StateModel) -> StateModel {
    StateModel { loading: true, latest_req: (m.latest_req + 1) as u64, ..m }
}

/// A load comes back: carrying `req` and, on success, the entries it
/// read. Only the most recently requested load is applied; an older one
/// changes nothing. A failed current load keeps the entries that were on
/// display and only clears the busy flag.
pub open spec fn spec_finish_load(m: StateModel, req: u64, outcome: Option<Seq<EntryV>>) -> StateModel {
    if req == m.latest_req {
        match outcome {
            Some(es) => StateModel { entries: es, loading: false, ..m },
            None => StateModel { loading: false, ..m },
        }
    } else {
        m
    }
}

/// Entering a directory changes the path alone.
pub open spec fn spec_enter_state(m: StateModel, name: Seq<u8>) -> StateModel {
    StateModel { path: spec_enter(m.path, name), ..m }
}

/// Going back changes the path alone.
pub open spec fn spec_go_back_state(m: StateModel) -> StateModel {
    StateModel { path: spec_go_back(m.path), ..m }
}

/// Jumping to the root changes the path alone.
pub open spec fn spec_go_to_root_state(m: StateModel) -> StateModel {
    StateModel { path: Seq::empty(), ..m }
}

/// The view state: current path, entries on display, busy flag, and the
/// number of the most recently issued listing request.
pub struct BrowserState {
    pub current_path: Vec<u8>,
    pub entries: Vec<DufsItem>,
    pub loading: bool,
    pub latest_req: u64,
}

impl View for BrowserState {
    type V = StateModel;

    open spec fn view(&self) -> StateModel {
        StateModel {
            path: self.current_path@,
            entries: self.entries.deep_view(),
            loading: self.loading,
            latest_req: self.latest_req,
        }
    }
}

impl BrowserState {
    /// The initial state: at the root, nothing on display, idle.
    pub fn new() -> (s: Self)
        ensures
            s@.path == Seq::<u8>::empty(),
            s@.entries == Seq::<EntryV>::empty(),
            !s@.loading,
            s@.latest_req == 0,
            s@.wf(),
    {
        let s = BrowserState {
            current_path: Vec::new(),
            entries: Vec::new(),
            loading: false,
            latest_req: 0,
        };
        proof {
            assert(s.entries.deep_view() =~= Seq::<EntryV>::empty());
        }
        s
    }

    /// Issue a new load: raises the busy flag and returns the fresh
    /// request number, which the matching `finish_load` must carry.
    pub fn start_load(&mut self) -> (req: u64)
        requires
            old(self).latest_req < u64::MAX,
        ensures
            final(self)@ == spec_start_load(old(self)@),
            req == final(self)@.latest_req,
            final(self)@.wf() == old(self)@.wf(),
    {
        self.latest_req = self.latest_req + 1;
        self.loading = true;
        proof {
            assert(final(self)@ =~= spec_start_load(old(self)@));
        }
        self.latest_req
    }

    /// Apply the outcome of the load numbered `req`: `Some` brings the
    /// entries that were read, `None` reports a failure. A response for
    /// any request but the latest changes nothing.
    pub fn finish_load(&mut self, req: u64, outcome: Option<Vec<DufsItem>>)
        ensures
            final(self)@ == spec_finish_load(
                old(self)@,
                req,
                match outcome {
                    Some(es) => Some(es.deep_view()),
                    None => None,
                },
            ),
            final(self)@.wf() == old(self)@.wf(),
    {
        if req == self.latest_req {
            match outcome {
                Some(es) => {
                    self.entries = es;
                    self.loading = false;
                },
                None => {
                    self.loading = false;
                },
            }
        }
        proof {
            assert(final(self)@ =~= spec_finish_load(
                old(self)@,
                req,
                match outcome {
                    Some(es) => Some(es.deep_view()),
                    None => None,
                },
            ));
        }
    }

    /// Enter the directory `name` under the current path.
    pub fn enter_directory(&mut self, name: &Vec<u8>)
        requires
            name@.len() > 0,
        ensures
            final(self)@ == spec_enter_state(old(self)@, name@),
            final(self)@.wf(),
    {
        let new_path = crate::nav::enter_directory(&self.current_path, name);
        self.current_path = new_path;
        proof {
            lemma_enter_canonical(old(self)@.path, name@);
            assert(final(self)@ =~= spec_enter_state(old(self)@, name@));
        }
    }

    /// Go one directory up.
    pub fn go_back(&mut self)
        ensures
            final(self)@ == spec_go_back_state(old(self)@),
            final(self)@.wf(),
    {
        let new_path = crate::nav::go_back(&self.current_path);
        self.current_path = new_path;
        proof {
            lemma_go_back_canonical(old(self)@.path);
            assert(final(self)@ =~= spec_go_back_state(old(self)@));
        }
    }

    /// Jump straight to the root.
    pub fn go_to_root(&mut self)
        ensures
            final(self)@ == spec_go_to_root_state(old(self)@),
            final(self)@.wf(),
    {
        self.current_path = Vec::new();
        proof {
            assert(final(self)@ =~= spec_go_to_root_state(old(self)@));
        }
    }
}

/// A completed load for any request but the most recent one changes
/// nothing at all.
pub proof fn lemma_stale_finish_ignored(m: StateModel, req: u64, outcome: Option<Seq<EntryV>>)
    requires
        req != m.latest_req,
    ensures
        spec_finish_load(m, req, outcome) == m,
{
}

/// A failed current load keeps the entries that were on display and ends
/// with the busy flag down.
pub proof fn lemma_failed_load_keeps_entries(m: StateModel)
    ensures
        spec_finish_load(m, m.latest_req, None).entries == m.entries,
        spec_finish_load(m, m.latest_req, None).path == m.path,
        !spec_finish_load(m, m.latest_req, None).loading,
{
}

/// Rapid navigation: entering `name_a` and then `name_b` before the first
/// listing arrives ends with the listing requested for the second path on
/// display, whichever order the two responses come back in.
pub proof fn lemma_latest_request_wins(
    m0: StateModel,
    name_a: Seq<u8>,
    name_b: Seq<u8>,
    listing_a: Seq<EntryV>,
    listing_b: Seq<EntryV>,
)
    requires
        m0.latest_req < u64::MAX - 1,
        name_a.len() > 0,
        name_b.len() > 0,
    ensures
        ({
            let m1 = spec_start_load(spec_enter_state(m0, name_a));
            let r1 = m1.latest_req;
            let m2 = spec_start_load(spec_enter_state(m1, name_b));
            let r2 = m2.latest_req;
            &&& m2.path == spec_enter(spec_enter(m0.path, name_a), name_b)
            &&& spec_finish_load(
                spec_finish_load(m2, r1, Some(listing_a)),
                r2,
                Some(listing_b),
            ).entries == listing_b
            &&& spec_finish_load(
                spec_finish_load(m2, r2, Some(listing_b)),
                r1,
                Some(listing_a),
            ).entries == listing_b
        }),
{
}

} // verus!

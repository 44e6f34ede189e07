//! Event-driven tree traversal.
//!
//! The walker enumerates a subtree depth-first, pre-order, with the
//! children of every node visited in sorted name order. It performs no
//! remote call itself: `current_action` says which call to make next, and
//! the caller feeds the outcome back through `on_children` or `on_stat`.
//!
//! Race policy: a child whose stat reports it absent (it vanished between
//! the listing and the stat) is skipped and traversal of its siblings
//! continues; any other failure abandons the whole traversal, naming the
//! offending path. A node is descended into only when its stat reported at
//! least one child — a hint taken at stat time, not a commitment.

use crate::client::{ListOutcome, StatOutcome};
use crate::node::NodeEntry;
use crate::order::{lex_le_fn, sort_names, views_of};
use crate::paths::{child_path, child_path_spec, is_node_path};
use vstd::prelude::*;
use vstd::seq_lib::*;

verus! {

/// A child that has been listed but not yet statted.
struct WalkEntry {
    path: String,
    name: String,
    depth: usize,
}

/// Ghost form of a pending child visit.
pub struct WalkEntryV {
    pub path: Seq<char>,
    pub name: Seq<char>,
    pub depth: nat,
}

impl View for WalkEntry {
    type V = WalkEntryV;

    closed spec fn view(&self) -> WalkEntryV {
        WalkEntryV { path: self.path@, name: self.name@, depth: self.depth as nat }
    }
}

/// A node whose children are about to be listed, and the depth those
/// children will be printed at.
struct PendingList {
    path: String,
    depth: usize,
}

/// Ghost form of the walker: the stack of children awaiting their stat
/// (top of the stack is visited first), an optional pending list-children
/// call, and whether the walk descends below the first level.
pub struct TreeWalkerV {
    pub stack: Seq<WalkEntryV>,
    pub pending: Option<(Seq<char>, nat)>,
    pub recurse: bool,
}

/// The path a pending list-children call asks about.
pub open spec fn pending_path(v: TreeWalkerV) -> Seq<char> {
    match v.pending {
        Some(p) => p.0,
        None => Seq::empty(),
    }
}

/// The depth at which the children of the pending list will be printed.
pub open spec fn pending_depth(v: TreeWalkerV) -> nat {
    match v.pending {
        Some(p) => p.1,
        None => 0,
    }
}

/// The ghost views of a stack of pending visits.
spec fn entry_views(s: Seq<WalkEntry>) -> Seq<WalkEntryV> {
    s.map_values(|e: WalkEntry| e@)
}

/// The visits that listing a node stacks: one per child, sorted by name —
/// stacked in reverse so that they pop in sorted order — each child's path
/// synthesized from the listed node's path and the bare name, all at the
/// depth the listing was made for.
pub open spec fn listed_entries(list_path: Seq<char>, depth: nat, names: Seq<Seq<char>>) -> Seq<
    WalkEntryV,
> {
    let sorted = names.sort_by(lex_le_fn());
    Seq::new(
        names.len(),
        |k: int|
            WalkEntryV {
                path: child_path_spec(list_path, sorted[names.len() - 1 - k]),
                name: sorted[names.len() - 1 - k],
                depth,
            },
    )
}

/// Listing determinism: a fixed set of children — the same names as a
/// multiset, enumerated in any orders — always stacks the same visits, in
/// the same (sorted) order.
pub proof fn lemma_listed_entries_deterministic(
    list_path: Seq<char>,
    depth: nat,
    a: Seq<Seq<char>>,
    b: Seq<Seq<char>>,
)
    requires
        a.to_multiset() == b.to_multiset(),
    ensures
        listed_entries(list_path, depth, a) == listed_entries(list_path, depth, b),
{
    crate::order::lemma_listing_deterministic(a, b);
    to_multiset_len::<Seq<char>>(a);
    to_multiset_len::<Seq<char>>(b);
    assert(listed_entries(list_path, depth, a) =~= listed_entries(list_path, depth, b));
}

/// The next remote call the traversal needs.
#[derive(Debug)]
pub enum WalkAction {
    /// List the children of this node.
    List { path: String },
    /// Fetch the stat of this node.
    Stat { path: String },
    /// The traversal is finished.
    Done,
}

/// What one fed-back outcome produced.
#[derive(Debug)]
pub enum WalkOutput {
    /// Nothing to report; ask for the next action.
    Continue,
    /// Print this entry, indented for this depth.
    Line { entry: NodeEntry, depth: usize },
    /// This node vanished between listing and stat: warn and go on.
    Skipped { path: String },
    /// A remote call failed for this path: the traversal is abandoned.
    Abort { path: String },
}

/// Event-driven, depth-first, pre-order traversal below one root.
pub struct TreeWalker {
    stack: Vec<WalkEntry>,
    pending: Option<PendingList>,
    recurse: bool,
}

impl View for TreeWalker {
    type V = TreeWalkerV;

    closed spec fn view(&self) -> TreeWalkerV {
        TreeWalkerV {
            stack: entry_views(self.stack@),
            pending: match self.pending {
                Some(p) => Some((p.path@, p.depth as nat)),
                None => None,
            },
            recurse: self.recurse,
        }
    }
}

impl TreeWalker {
    /// Start a traversal strictly below `root`: the walker first lists the
    /// root's children, printed at depth 1. The root's own line, if wanted,
    /// is the caller's to print. With `recurse` false only the immediate
    /// children are visited.
    pub fn new(root: String, recurse: bool) -> (w: TreeWalker)
        requires
            is_node_path(root@),
        ensures
            w@.stack == Seq::<WalkEntryV>::empty(),
            w@.pending == Some((root@, 1nat)),
            w@.recurse == recurse,
    {
        let w = TreeWalker { stack: Vec::new(), pending: Some(PendingList { path: root, depth: 1 }), recurse };
        proof {
            assert(w@.stack =~= Seq::<WalkEntryV>::empty());
        }
        w
    }

    /// The remote call to perform next: the pending list-children call if
    /// there is one, else the stat of the top of the stack, else nothing.
    pub fn current_action(&self) -> (a: WalkAction)
        ensures
            self@.pending is Some ==> (a matches WalkAction::List { path } && path@
                == pending_path(self@)),
            self@.pending is None && self@.stack.len() > 0 ==> (a matches WalkAction::Stat { path }
                && path@ == self@.stack.last().path),
            self@.pending is None && self@.stack.len() == 0 ==> a is Done,
    {
        match &self.pending {
            Some(p) => WalkAction::List { path: p.path.clone() },
            None => {
                if self.stack.len() > 0 {
                    let e = &self.stack[self.stack.len() - 1];
                    WalkAction::Stat { path: e.path.clone() }
                } else {
                    WalkAction::Done
                }
            },
        }
    }

    /// Feed back the outcome of the pending list-children call. The names
    /// are sorted, and the corresponding child visits are stacked so that
    /// they pop in sorted order, each child's path synthesized from the
    /// listed node's path and the bare name. A failure (including the node
    /// being gone before it could be listed) abandons the traversal.
    pub fn on_children(&mut self, outcome: ListOutcome) -> (out: WalkOutput)
        requires
            old(self)@.pending is Some,
        ensures
            final(self)@.recurse == old(self)@.recurse,
            match outcome {
                ListOutcome::Names(names) => {
                    &&& final(self)@.pending is None
                    &&& final(self)@.stack == old(self)@.stack + listed_entries(
                        pending_path(old(self)@),
                        pending_depth(old(self)@),
                        views_of(names@),
                    )
                    &&& out is Continue
                },
                ListOutcome::Absent => {
                    &&& final(self)@.pending is None
                    &&& final(self)@.stack.len() == 0
                    &&& (out matches WalkOutput::Abort { path } && path@ == pending_path(
                        old(self)@,
                    ))
                },
                ListOutcome::Failed => {
                    &&& final(self)@.pending is None
                    &&& final(self)@.stack.len() == 0
                    &&& (out matches WalkOutput::Abort { path } && path@ == pending_path(
                        old(self)@,
                    ))
                },
            },
    {
        let (lpath, ldepth): (String, usize) = match &self.pending {
            Some(p) => (p.path.clone(), p.depth),
            None => vstd::pervasive::unreached(),
        };
        self.pending = None;
        match outcome {
            ListOutcome::Names(mut names) => {
                let ghost orig_v = old(self)@;
                let ghost names0 = views_of(names@);
                sort_names(&mut names);
                let ghost sorted = views_of(names@);
                let ghost n0 = names@.len();
                proof {
                    crate::order::lemma_lex_le_total_ordering();
                    names0.lemma_sort_by_ensures(lex_le_fn());
                    to_multiset_len::<Seq<char>>(names0);
                    to_multiset_len::<Seq<char>>(sorted);
                    assert(n0 == names0.len());
                    assert(views_of(names@) =~= sorted.take(names@.len() as int));
                    assert(self@.stack.subrange(0, orig_v.stack.len() as int) =~= orig_v.stack);
                }
                while names.len() > 0
                    invariant
                        self@.pending is None,
                        self@.recurse == orig_v.recurse,
                        n0 == sorted.len(),
                        names@.len() <= n0,
                        views_of(names@) == sorted.take(names@.len() as int),
                        self@.stack.len() == orig_v.stack.len() + (n0 - names@.len()),
                        self@.stack.subrange(0, orig_v.stack.len() as int) == orig_v.stack,
                        forall|k: int|
                            0 <= k < n0 - names@.len() ==> {
                                let e = #[trigger] self@.stack[orig_v.stack.len() + k];
                                &&& e.name == sorted[n0 - 1 - k]
                                &&& e.path == child_path_spec(lpath@, sorted[n0 - 1 - k])
                                &&& e.depth == ldepth as nat
                            },
                        lpath@ == pending_path(orig_v),
                        ldepth as nat == pending_depth(orig_v),
                    decreases names@.len(),
                {
                    let ghost prev = self@.stack;
                    let ghost prev_names = views_of(names@);
                    let name = names.pop().unwrap();
                    let path = child_path(lpath.as_str(), name.as_str());
                    proof {
                        assert(views_of(names@) =~= sorted.take(names@.len() as int));
                        assert(name@ == prev_names[prev_names.len() - 1]);
                        assert(name@ == sorted[names@.len() as int]);
                    }
                    let ghost ev = WalkEntryV { path: path@, name: name@, depth: ldepth as nat };
                    self.stack.push(WalkEntry { path, name, depth: ldepth });
                    proof {
                        assert(self@.stack =~= prev.push(ev));
                        assert(self@.stack.subrange(0, orig_v.stack.len() as int)
                            =~= prev.subrange(0, orig_v.stack.len() as int));
                    }
                }
                proof {
                    let base = orig_v.stack.len() as int;
                    let le = listed_entries(lpath@, ldepth as nat, names0);
                    assert(sorted == names0.sort_by(lex_le_fn()));
                    assert forall|i: int| 0 <= i < self@.stack.len() implies self@.stack[i] == (
                    orig_v.stack + le)[i] by {
                        if i < base {
                            assert(self@.stack[i] == self@.stack.subrange(0, base)[i]);
                        } else {
                            let k = i - base;
                            assert(self@.stack[base + k] == le[k]);
                        }
                    }
                    assert(self@.stack =~= orig_v.stack + le);
                }
                WalkOutput::Continue
            },
            ListOutcome::Absent => {
                self.stack = Vec::new();
                WalkOutput::Abort { path: lpath }
            },
            ListOutcome::Failed => {
                self.stack = Vec::new();
                WalkOutput::Abort { path: lpath }
            },
        }
    }

    /// Feed back the outcome of the stat of the top of the stack. A present
    /// node yields its display line; if it reported children (and the walk
    /// recurses), its own list-children call becomes pending, one level
    /// deeper. An absent node is skipped. Any other failure abandons the
    /// traversal.
    pub fn on_stat(&mut self, outcome: StatOutcome) -> (out: WalkOutput)
        requires
            old(self)@.pending is None,
            old(self)@.stack.len() > 0,
        ensures
            final(self)@.recurse == old(self)@.recurse,
            ({
                let top = old(self)@.stack.last();
                match outcome {
                    StatOutcome::Present(st) => {
                        &&& final(self)@.stack == old(self)@.stack.drop_last()
                        &&& final(self)@.pending == (if old(self)@.recurse && st.num_children > 0
                            && top.depth + 1 <= usize::MAX {
                            Some((top.path, (top.depth + 1) as nat))
                        } else {
                            None::<(Seq<char>, nat)>
                        })
                        &&& (out matches WalkOutput::Line { entry, depth } && entry.name@
                            == top.name && entry.stat == st && depth as nat == top.depth)
                    },
                    StatOutcome::Absent => {
                        &&& final(self)@.stack == old(self)@.stack.drop_last()
                        &&& final(self)@.pending is None
                        &&& (out matches WalkOutput::Skipped { path } && path@ == top.path)
                    },
                    StatOutcome::Failed => {
                        &&& final(self)@.stack.len() == 0
                        &&& final(self)@.pending is None
                        &&& (out matches WalkOutput::Abort { path } && path@ == top.path)
                    },
                }
            }),
    {
        let e = self.stack.pop().unwrap();
        proof {
            assert(self@.stack =~= old(self)@.stack.drop_last());
        }
        match outcome {
            StatOutcome::Present(st) => {
                let depth = e.depth;
                if self.recurse && st.num_children > 0 && depth < usize::MAX {
                    self.pending = Some(PendingList { path: e.path, depth: depth + 1 });
                }
                WalkOutput::Line { entry: NodeEntry { name: e.name, stat: st }, depth }
            },
            StatOutcome::Absent => WalkOutput::Skipped { path: e.path },
            StatOutcome::Failed => {
                self.stack = Vec::new();
                proof {
                    assert(self@.stack =~= Seq::<WalkEntryV>::empty());
                }
                WalkOutput::Abort { path: e.path }
            },
        }
    }
}

} // verus!

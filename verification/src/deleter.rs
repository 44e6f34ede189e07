//! Event-driven recursive deletion.
//!
//! The store refuses to delete a node that still has children, so a subtree
//! is deleted post-order: every child's subtree completely, then the node
//! itself. The deleter performs no remote call: `current_action` names the
//! next call, the caller feeds the outcome back.
//!
//! Race policy: a node that is already gone — listed but vanished, or
//! deleted by a concurrent actor — counts as already satisfied, never as a
//! fatal error. Any other failure abandons the deletion, naming the
//! offending path.
//!
//! The well-formedness invariant `wf` pins the post-order discipline: every
//! frame stacked above an expanded frame lies inside that frame's subtree,
//! so when a node's delete is finally issued (it is expanded and on top),
//! no frame of its subtree remains.

use crate::client::{DeleteOutcome, ListOutcome};
use crate::order::views_of;
use crate::paths::{
    child_path, child_path_spec, is_node_path, lemma_child_path_within,
    lemma_within_subtree_transitive, within_subtree,
};
use vstd::prelude::*;

verus! {

/// One node awaiting deletion. Unexpanded: its children are not listed
/// yet. Expanded: its children's frames were stacked above it.
struct DeleteFrame {
    path: String,
    expanded: bool,
}

/// Ghost form of a deletion frame.
pub struct DeleteFrameV {
    pub path: Seq<char>,
    pub expanded: bool,
}

impl View for DeleteFrame {
    type V = DeleteFrameV;

    closed spec fn view(&self) -> DeleteFrameV {
        DeleteFrameV { path: self.path@, expanded: self.expanded }
    }
}

/// Every frame above an expanded frame lies inside that frame's subtree.
pub open spec fn wf_frames(s: Seq<DeleteFrameV>) -> bool {
    forall|i: int, j: int|
        0 <= i < j < s.len() && s[i].expanded ==> #[trigger] within_subtree(
            s[j].path,
            s[i].path,
        )
}

/// Popping the top frame preserves well-formedness.
proof fn lemma_wf_frames_drop_last(s: Seq<DeleteFrameV>)
    requires
        s.len() > 0,
        wf_frames(s),
    ensures
        wf_frames(s.drop_last()),
{
    let t = s.drop_last();
    assert forall|i: int, j: int|
        0 <= i < j < t.len() && t[i].expanded implies #[trigger] within_subtree(
        t[j].path,
        t[i].path,
    ) by {
        assert(within_subtree(s[j].path, s[i].path));
    }
}

/// The next remote call a deletion needs.
#[derive(Debug)]
pub enum DeleteAction {
    /// List the children of this node (it is not known to be a leaf yet).
    List { path: String },
    /// Delete this node; its listed children have all been dealt with.
    Delete { path: String },
    /// The deletion is finished.
    Done,
}

/// What one fed-back outcome produced.
#[derive(Debug)]
pub enum DeleteStep {
    /// Nothing to report; ask for the next action.
    Continue,
    /// A remote call failed for this path: the deletion is abandoned.
    Abort { path: String },
}

/// Event-driven post-order deletion of one subtree.
pub struct RecursiveDeleter {
    stack: Vec<DeleteFrame>,
}

impl View for RecursiveDeleter {
    type V = Seq<DeleteFrameV>;

    closed spec fn view(&self) -> Seq<DeleteFrameV> {
        self.stack@.map_values(|f: DeleteFrame| f@)
    }
}

impl RecursiveDeleter {
    /// The post-order discipline, as an invariant of the frame stack.
    pub open spec fn wf(self) -> bool {
        wf_frames(self@)
    }

    /// Start deleting the subtree rooted at `root`.
    pub fn new(root: String) -> (d: RecursiveDeleter)
        requires
            is_node_path(root@),
        ensures
            d@.len() == 1,
            d@[0].path == root@,
            !d@[0].expanded,
            d.wf(),
    {
        let mut stack: Vec<DeleteFrame> = Vec::new();
        stack.push(DeleteFrame { path: root, expanded: false });
        let d = RecursiveDeleter { stack };
        proof {
            assert(d@.len() == 1);
        }
        d
    }

    /// The remote call to perform next: list the top node's children if
    /// they are unknown, delete it once they have been dealt with, nothing
    /// once the stack is empty.
    pub fn current_action(&self) -> (a: DeleteAction)
        ensures
            self@.len() == 0 ==> a is Done,
            self@.len() > 0 && !self@.last().expanded ==> (a matches DeleteAction::List { path }
                && path@ == self@.last().path),
            self@.len() > 0 && self@.last().expanded ==> (a matches DeleteAction::Delete { path }
                && path@ == self@.last().path),
    {
        if self.stack.len() == 0 {
            DeleteAction::Done
        } else {
            let f = &self.stack[self.stack.len() - 1];
            if f.expanded {
                DeleteAction::Delete { path: f.path.clone() }
            } else {
                DeleteAction::List { path: f.path.clone() }
            }
        }
    }

    /// Feed back the outcome of listing the top node's children. The node
    /// becomes expanded and one unexpanded frame per child is stacked above
    /// it (they pop in listed order, each path synthesized from the node's
    /// path and the bare name). A node already gone counts as satisfied and
    /// is popped. Any other failure abandons the deletion.
    pub fn on_children(&mut self, outcome: ListOutcome) -> (out: DeleteStep)
        requires
            old(self)@.len() > 0,
            !old(self)@.last().expanded,
            old(self).wf(),
        ensures
            final(self).wf(),
            match outcome {
                ListOutcome::Names(names) => {
                    let top = old(self)@.last();
                    let base = old(self)@.len() as int;
                    let n = names@.len() as int;
                    &&& final(self)@.len() == base + n
                    &&& final(self)@.subrange(0, base - 1) == old(self)@.drop_last()
                    &&& final(self)@[base - 1] == (DeleteFrameV { path: top.path, expanded: true })
                    &&& forall|k: int|
                        0 <= k < n ==> {
                            let f = #[trigger] final(self)@[base + k];
                            &&& f.path == child_path_spec(top.path, names@[n - 1 - k]@)
                            &&& !f.expanded
                        }
                    &&& out is Continue
                },
                ListOutcome::Absent => {
                    &&& final(self)@ == old(self)@.drop_last()
                    &&& out is Continue
                },
                ListOutcome::Failed => {
                    &&& final(self)@.len() == 0
                    &&& (out matches DeleteStep::Abort { path } && path@ == old(self)@.last().path)
                },
            },
    {
        let mut top = self.stack.pop().unwrap();
        match outcome {
            ListOutcome::Names(mut names) => {
                let ghost orig = old(self)@;
                let ghost base = orig.len() as int;
                let ghost names0v = views_of(names@);
                let ghost n0 = names@.len();
                top.expanded = true;
                let lpath = top.path.clone();
                self.stack.push(top);
                proof {
                    assert(self@ =~= orig.drop_last().push(
                        DeleteFrameV { path: orig.last().path, expanded: true },
                    ));
                    assert(self@.subrange(0, base - 1) =~= orig.drop_last());
                    assert(views_of(names@) =~= names0v.take(names@.len() as int));
                }
                while names.len() > 0
                    invariant
                        base == orig.len() as int,
                        1 <= base,
                        names@.len() <= n0,
                        n0 == names0v.len(),
                        views_of(names@) == names0v.take(names@.len() as int),
                        lpath@ == orig.last().path,
                        self@.len() == base + (n0 - names@.len()),
                        self@.subrange(0, base - 1) == orig.drop_last(),
                        self@[base - 1] == (DeleteFrameV {
                            path: orig.last().path,
                            expanded: true,
                        }),
                        forall|k: int|
                            0 <= k < n0 - names@.len() ==> {
                                let f = #[trigger] self@[base + k];
                                &&& f.path == child_path_spec(
                                    orig.last().path,
                                    names0v[n0 - 1 - k],
                                )
                                &&& !f.expanded
                            },
                    decreases names@.len(),
                {
                    let ghost prev = self@;
                    let ghost prev_names = views_of(names@);
                    let name = names.pop().unwrap();
                    proof {
                        assert(views_of(names@) =~= names0v.take(names@.len() as int));
                        assert(name@ == prev_names[prev_names.len() - 1]);
                        assert(name@ == names0v[names@.len() as int]);
                    }
                    let p = child_path(lpath.as_str(), name.as_str());
                    let ghost fv = DeleteFrameV { path: p@, expanded: false };
                    self.stack.push(DeleteFrame { path: p, expanded: false });
                    proof {
                        assert(self@ =~= prev.push(fv));
                        assert(self@.subrange(0, base - 1) =~= prev.subrange(0, base - 1));
                    }
                }
                proof {
                    let s = self@;
                    let top_path = orig.last().path;
                    assert forall|i: int, j: int|
                        0 <= i < j < s.len() && s[i].expanded implies #[trigger] within_subtree(
                        s[j].path,
                        s[i].path,
                    ) by {
                        assert(orig.last() == orig[base - 1]);
                        if i < base - 1 {
                            assert(s[i] == s.subrange(0, base - 1)[i]);
                            assert(s[i] == orig.drop_last()[i]);
                            assert(s[i] == orig[i]);
                        }
                        if i > base - 1 {
                            let ki = i - base;
                            assert(s[base + ki] == s[i]);
                            assert(!s[i].expanded);
                        } else if j < base - 1 {
                            assert(s[j] == s.subrange(0, base - 1)[j]);
                            assert(s[j] == orig.drop_last()[j]);
                            assert(s[j] == orig[j]);
                            assert(within_subtree(orig[j].path, orig[i].path));
                        } else if j == base - 1 {
                            assert(within_subtree(orig[base - 1].path, orig[i].path));
                            assert(s[j].path == orig[base - 1].path);
                        } else {
                            let k = j - base;
                            assert(s[base + k] == s[j]);
                            lemma_child_path_within(top_path, names0v[n0 - 1 - k]);
                            assert(within_subtree(s[j].path, top_path));
                            if i < base - 1 {
                                assert(within_subtree(orig[base - 1].path, orig[i].path));
                                lemma_within_subtree_transitive(s[j].path, top_path, s[i].path);
                            } else {
                                assert(s[i].path == top_path);
                            }
                        }
                    }
                }
                DeleteStep::Continue
            },
            ListOutcome::Absent => {
                proof {
                    assert(self@ =~= old(self)@.drop_last());
                    lemma_wf_frames_drop_last(old(self)@);
                }
                DeleteStep::Continue
            },
            ListOutcome::Failed => {
                self.stack = Vec::new();
                proof {
                    assert(self@ =~= Seq::<DeleteFrameV>::empty());
                }
                DeleteStep::Abort { path: top.path }
            },
        }
    }

    /// Feed back the outcome of deleting the top node. Deleted and
    /// already-gone both count as satisfied: the frame is popped. Any other
    /// failure abandons the deletion.
    pub fn on_deleted(&mut self, outcome: DeleteOutcome) -> (out: DeleteStep)
        requires
            old(self)@.len() > 0,
            old(self)@.last().expanded,
            old(self).wf(),
        ensures
            final(self).wf(),
            match outcome {
                DeleteOutcome::Deleted => {
                    &&& final(self)@ == old(self)@.drop_last()
                    &&& out is Continue
                },
                DeleteOutcome::Absent => {
                    &&& final(self)@ == old(self)@.drop_last()
                    &&& out is Continue
                },
                DeleteOutcome::Failed => {
                    &&& final(self)@.len() == 0
                    &&& (out matches DeleteStep::Abort { path } && path@ == old(self)@.last().path)
                },
            },
    {
        let top = self.stack.pop().unwrap();
        match outcome {
            DeleteOutcome::Deleted => {
                proof {
                    assert(self@ =~= old(self)@.drop_last());
                    lemma_wf_frames_drop_last(old(self)@);
                }
                DeleteStep::Continue
            },
            DeleteOutcome::Absent => {
                proof {
                    assert(self@ =~= old(self)@.drop_last());
                    lemma_wf_frames_drop_last(old(self)@);
                }
                DeleteStep::Continue
            },
            DeleteOutcome::Failed => {
                self.stack = Vec::new();
                proof {
                    assert(self@ =~= Seq::<DeleteFrameV>::empty());
                }
                DeleteStep::Abort { path: top.path }
            },
        }
    }
}

} // verus!

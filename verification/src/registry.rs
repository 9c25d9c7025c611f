//! The overlay registry: one `DimlandView` per live output, keyed by output
//! identity, plus the fixed rendering parameters and the exit flag. Output
//! lifecycle notifications create, replace or remove entries; a size
//! confirmation drives the matching view's configure handshake; a closed
//! notification on any managed surface ends the whole process.

use vstd::prelude::*;
use crate::view::DimlandView;
use crate::view::SurfaceState;

verus! {

/// The width an output reports, zero while the size is unknown.
pub open spec fn size_width(size: Option<(u32, u32)>) -> u32 {
    match size {
        Some(s) => s.0,
        None => 0,
    }
}

/// The height an output reports, zero while the size is unknown.
pub open spec fn size_height(size: Option<(u32, u32)>) -> u32 {
    match size {
        Some(s) => s.1,
        None => 0,
    }
}

/// The process state: rendering parameters fixed for the process lifetime,
/// the tracked overlay surfaces, and the exit flag.
pub struct DimlandData {
    pub alpha: u8,
    pub radius: u32,
    pub views: Vec<DimlandView>,
    pub exit: bool,
}

impl DimlandData {
    /// No two entries cover the same output, and every entry's buffer holds
    /// exactly the content rendered for its construction-time size and the
    /// registry's parameters.
    pub open spec fn wf(self) -> bool {
        &&& (forall|i: int, j: int|
            #![trigger self.views@[i].output, self.views@[j].output]
            0 <= i < self.views@.len() && 0 <= j < self.views@.len() && i != j
                ==> self.views@[i].output != self.views@[j].output)
        &&& (forall|i: int|
            0 <= i < self.views@.len() ==> (#[trigger] self.views@[i]).wf(self.radius, self.alpha))
    }

    /// Whether some entry covers `output`.
    pub open spec fn has_output(self, output: u64) -> bool {
        exists|i: int| 0 <= i < self.views@.len() && (#[trigger] self.views@[i]).output == output
    }

    /// The set of outputs currently covered.
    pub open spec fn outputs(self) -> Set<u64> {
        Set::new(|o: u64| self.has_output(o))
    }

    /// The index of the entry covering `output`; meaningful only when
    /// `has_output(output)` holds, and unique under `wf`.
    pub open spec fn view_index(self, output: u64) -> int {
        choose|i: int| 0 <= i < self.views@.len() && (#[trigger] self.views@[i]).output == output
    }

    /// Starts with no tracked output and the exit flag clear.
    pub fn new(alpha: u8, radius: u32) -> (d: DimlandData)
        ensures
            d.alpha == alpha,
            d.radius == radius,
            d.views@.len() == 0,
            !d.exit,
            d.wf(),
    {
        DimlandData { alpha, radius, views: Vec::new(), exit: false }
    }

    /// Whether a closed notification has been seen; the event loop stops
    /// once this holds.
    pub fn should_exit(&self) -> (r: bool)
        ensures
            r == self.exit,
    {
        self.exit
    }

    /// A closed notification on any managed surface: the whole process is to
    /// exit, whichever surface closed.
    pub fn closed(&mut self)
        ensures
            final(self).exit,
            final(self).alpha == old(self).alpha,
            final(self).radius == old(self).radius,
            final(self).views == old(self).views,
    {
        self.exit = true;
    }

    /// Rebuilds the entry at `idx` for the same output at the size reported
    /// now, releasing the old buffer; the set of covered outputs does not
    /// change.
    fn replace_view(&mut self, idx: usize, output: u64, width: u32, height: u32)
        requires
            old(self).wf(),
            idx < old(self).views@.len(),
            old(self).views@[idx as int].output == output,
            (width as int) * (height as int) * 4 <= usize::MAX as int,
        ensures
            final(self).wf(),
            final(self).alpha == old(self).alpha,
            final(self).radius == old(self).radius,
            final(self).exit == old(self).exit,
            final(self).views@.len() == old(self).views@.len(),
            forall|j: int|
                0 <= j < old(self).views@.len() && j != idx ==> final(self).views@[j] == old(
                self).views@[j],
            final(self).views@[idx as int].is_fresh(
                output,
                width,
                height,
                old(self).radius,
                old(self).alpha,
            ),
            forall|o: u64| #[trigger] final(self).has_output(o) <==> old(self).has_output(o),
    {
        let v = DimlandView::new(output, width, height, self.radius, self.alpha);
        self.views[idx] = v;
        proof {
            let pre = old(self).views@;
            let post = self.views@;
            assert forall|j: int| 0 <= j < post.len() implies (#[trigger] post[j]).output == pre[j].output by {
            }
            assert forall|i: int, j: int|
                #![trigger post[i].output, post[j].output]
                0 <= i < post.len() && 0 <= j < post.len() && i != j implies post[i].output
                != post[j].output by {
                assert(pre[i].output != pre[j].output);
            }
            assert forall|j: int| 0 <= j < post.len() implies (#[trigger] post[j]).wf(
                self.radius,
                self.alpha,
            ) by {
                if j != idx {
                    assert(pre[j].wf(old(self).radius, old(self).alpha));
                }
            }
            assert forall|o: u64| self.has_output(o) implies old(self).has_output(o) by {
                let w = choose|i: int|
                    0 <= i < post.len() && (#[trigger] post[i]).output == o;
                assert(pre[w].output == o);
            }
            assert forall|o: u64| old(self).has_output(o) implies self.has_output(o) by {
                let w = choose|i: int|
                    0 <= i < pre.len() && (#[trigger] pre[i]).output == o;
                assert(post[w].output == o);
            }
        }
    }

    /// An output appeared: build an overlay surface for it at the size it
    /// reports now (zero by zero while unknown) and track it. An entry
    /// already covering the same output is replaced, so that the output
    /// never has two overlays.
    pub fn new_output(&mut self, output: u64, size: Option<(u32, u32)>)
        requires
            old(self).wf(),
            (size_width(size) as int) * (size_height(size) as int) * 4 <= usize::MAX as int,
        ensures
            final(self).wf(),
            final(self).alpha == old(self).alpha,
            final(self).radius == old(self).radius,
            final(self).exit == old(self).exit,
            final(self).has_output(output),
            forall|o: u64| #[trigger] final(self).has_output(o)
                <==> (old(self).has_output(o) || o == output),
            final(self).outputs() == notice_step(old(self).outputs(), Notice::Added(output)),
            old(self).has_output(output) ==> {
                &&& final(self).views@.len() == old(self).views@.len()
                &&& (forall|j: int|
                    0 <= j < old(self).views@.len() && j != old(self).view_index(output)
                        ==> final(self).views@[j] == old(self).views@[j])
                &&& final(self).views@[old(self).view_index(output)].is_fresh(
                    output,
                    size_width(size),
                    size_height(size),
                    old(self).radius,
                    old(self).alpha,
                )
            },
            !old(self).has_output(output) ==> {
                &&& final(self).views@.len() == old(self).views@.len() + 1
                &&& (forall|j: int|
                    0 <= j < old(self).views@.len() ==> final(self).views@[j] == old(
                    self).views@[j])
                &&& final(self).views@[old(self).views@.len() as int].is_fresh(
                    output,
                    size_width(size),
                    size_height(size),
                    old(self).radius,
                    old(self).alpha,
                )
            },
    {
        let (width, height) = match size {
            Some(p) => p,
            None => (0, 0),
        };
        match self.find_index(output) {
            Some(i) => {
                proof {
                    assert(old(self).has_output(output));
                    let vi = old(self).view_index(output);
                    assert(0 <= vi < old(self).views@.len() && old(self).views@[vi].output
                        == output);
                    if vi != i {
                        assert(old(self).views@[vi].output != old(self).views@[i as int].output);
                    }
                }
                self.replace_view(i, output, width, height);
                proof {
                    lemma_outputs_insert(*old(self), *self, output);
                }
            },
            None => {
                let v = DimlandView::new(output, width, height, self.radius, self.alpha);
                self.views.push(v);
                proof {
                    let pre = old(self).views@;
                    let post = self.views@;
                    let n = pre.len() as int;
                    assert(post[n] == v);
                    assert forall|j: int| 0 <= j < pre.len() implies (#[trigger] pre[j]).output
                        != output by {
                    }
                    assert forall|i: int, j: int|
                        #![trigger post[i].output, post[j].output]
                        0 <= i < post.len() && 0 <= j < post.len() && i != j implies post[i].output
                        != post[j].output by {
                        if i < n && j < n {
                            assert(pre[i].output != pre[j].output);
                        }
                    }
                    assert forall|j: int| 0 <= j < post.len() implies (#[trigger] post[j]).wf(
                        self.radius,
                        self.alpha,
                    ) by {
                        if j < n {
                            assert(pre[j].wf(old(self).radius, old(self).alpha));
                        }
                    }
                    assert(self.has_output(output));
                    assert forall|o: u64| self.has_output(o) implies (old(self).has_output(o) || o
                        == output) by {
                        let w = choose|i: int|
                            0 <= i < post.len() && (#[trigger] post[i]).output == o;
                        if w < n {
                            assert(pre[w].output == o);
                        }
                    }
                    assert forall|o: u64| old(self).has_output(o) implies self.has_output(o) by {
                        let w = choose|i: int|
                            0 <= i < pre.len() && (#[trigger] pre[i]).output == o;
                        assert(post[w].output == o);
                    }
                    lemma_outputs_insert(*old(self), *self, output);
                }
            },
        }
    }

    /// An output changed: rebuild the overlay covering it, exactly as on
    /// first appearance, and swap the new surface in for the old one. An
    /// output that is not tracked is ignored.
    pub fn update_output(&mut self, output: u64, size: Option<(u32, u32)>)
        requires
            old(self).wf(),
            (size_width(size) as int) * (size_height(size) as int) * 4 <= usize::MAX as int,
        ensures
            final(self).wf(),
            final(self).alpha == old(self).alpha,
            final(self).radius == old(self).radius,
            final(self).exit == old(self).exit,
            forall|o: u64| #[trigger] final(self).has_output(o) <==> old(self).has_output(o),
            final(self).outputs() == notice_step(old(self).outputs(), Notice::Updated(output)),
            old(self).has_output(output) ==> {
                &&& final(self).views@.len() == old(self).views@.len()
                &&& (forall|j: int|
                    0 <= j < old(self).views@.len() && j != old(self).view_index(output)
                        ==> final(self).views@[j] == old(self).views@[j])
                &&& final(self).views@[old(self).view_index(output)].is_fresh(
                    output,
                    size_width(size),
                    size_height(size),
                    old(self).radius,
                    old(self).alpha,
                )
            },
            !old(self).has_output(output) ==> final(self).views@ == old(self).views@,
    {
        let (width, height) = match size {
            Some(p) => p,
            None => (0, 0),
        };
        match self.find_index(output) {
            Some(i) => {
                proof {
                    assert(old(self).has_output(output));
                    let vi = old(self).view_index(output);
                    assert(0 <= vi < old(self).views@.len() && old(self).views@[vi].output
                        == output);
                    if vi != i {
                        assert(old(self).views@[vi].output != old(self).views@[i as int].output);
                    }
                }
                self.replace_view(i, output, width, height);
                proof {
                    lemma_outputs_unchanged(*old(self), *self);
                }
            },
            None => {
                proof {
                    lemma_outputs_unchanged(*old(self), *self);
                }
            },
        }
    }

    /// An output disappeared: drop and release the overlay covering it; a
    /// removal for an output that was never added, or was already removed,
    /// is ignored.
    pub fn output_destroyed(&mut self, output: u64)
        requires
            old(self).wf(),
        ensures
            final(self).wf(),
            final(self).alpha == old(self).alpha,
            final(self).radius == old(self).radius,
            final(self).exit == old(self).exit,
            !final(self).has_output(output),
            forall|o: u64| #[trigger] final(self).has_output(o)
                <==> (old(self).has_output(o) && o != output),
            final(self).outputs() == notice_step(old(self).outputs(), Notice::Removed(output)),
            old(self).has_output(output) ==> final(self).views@ == old(self).views@.remove(
                old(self).view_index(output),
            ),
            !old(self).has_output(output) ==> final(self).views@ == old(self).views@,
    {
        match self.find_index(output) {
            Some(i) => {
                proof {
                    assert(old(self).has_output(output));
                    let vi = old(self).view_index(output);
                    assert(0 <= vi < old(self).views@.len() && old(self).views@[vi].output
                        == output);
                    if vi != i {
                        assert(old(self).views@[vi].output != old(self).views@[i as int].output);
                    }
                }
                self.views.remove(i);
                proof {
                    let pre = old(self).views@;
                    let post = self.views@;
                    pre.remove_ensures(i as int);
                    assert forall|i2: int, j2: int|
                        #![trigger post[i2].output, post[j2].output]
                        0 <= i2 < post.len() && 0 <= j2 < post.len() && i2 != j2 implies post[
                    i2].output != post[j2].output by {
                        let pi = if i2 < i { i2 } else { i2 + 1 };
                        let pj = if j2 < i { j2 } else { j2 + 1 };
                        assert(post[i2] == pre[pi] && post[j2] == pre[pj]);
                        assert(pre[pi].output != pre[pj].output);
                    }
                    assert forall|j: int| 0 <= j < post.len() implies (#[trigger] post[j]).wf(
                        self.radius,
                        self.alpha,
                    ) by {
                        let pj = if j < i { j } else { j + 1 };
                        assert(post[j] == pre[pj]);
                        assert(pre[pj].wf(old(self).radius, old(self).alpha));
                    }
                    assert forall|o: u64| self.has_output(o) implies (old(self).has_output(o) && o
                        != output) by {
                        let w = choose|k: int|
                            0 <= k < post.len() && (#[trigger] post[k]).output == o;
                        let pw = if w < i { w } else { w + 1 };
                        assert(post[w] == pre[pw]);
                        assert(pre[pw].output == o);
                        if o == output {
                            assert(pre[pw].output == pre[i as int].output);
                        }
                    }
                    assert forall|o: u64| old(self).has_output(o) && o != output implies
                        self.has_output(o) by {
                        let w = choose|k: int|
                            0 <= k < pre.len() && (#[trigger] pre[k]).output == o;
                        let nw = if w < i { w } else { w - 1 };
                        assert(w != i);
                        assert(post[nw] == pre[w]);
                        assert(post[nw].output == o);
                    }
                    lemma_outputs_remove(*old(self), *self, output);
                }
            },
            None => {
                proof {
                    assert forall|o: u64| self.has_output(o) implies (old(self).has_output(o) && o
                        != output) by {
                        let w = choose|k: int|
                            0 <= k < self.views@.len() && (#[trigger] self.views@[k]).output == o;
                    }
                    lemma_outputs_remove(*old(self), *self, output);
                }
            },
        }
    }

    /// A size confirmation arrived for the surface covering `output`: record
    /// the confirmed size — the caller must point the surface's scaling
    /// destination at it — and report `Some(true)` exactly on the first
    /// confirmation for that surface, upon which the caller attaches the
    /// buffer and commits. A confirmation for an untracked output is ignored
    /// and answered `None`.
    pub fn configure(&mut self, output: u64, width: u32, height: u32) -> (r: Option<bool>)
        requires
            old(self).wf(),
        ensures
            final(self).wf(),
            final(self).alpha == old(self).alpha,
            final(self).radius == old(self).radius,
            final(self).exit == old(self).exit,
            forall|o: u64| #[trigger] final(self).has_output(o) <==> old(self).has_output(o),
            r is Some <==> old(self).has_output(output),
            old(self).has_output(output) ==> {
                &&& final(self).views@.len() == old(self).views@.len()
                &&& (forall|j: int|
                    0 <= j < old(self).views@.len() && j != old(self).view_index(output)
                        ==> final(self).views@[j] == old(self).views@[j])
                &&& crate::view::is_configured_from(
                    final(self).views@[old(self).view_index(output)],
                    old(self).views@[old(self).view_index(output)],
                    width,
                    height,
                )
                &&& r == Some(
                    old(self).views@[old(self).view_index(output)].state
                        == SurfaceState::Uninitialized,
                )
            },
            !old(self).has_output(output) ==> final(self).views@ == old(self).views@,
    {
        match self.find_index(output) {
            Some(i) => {
                proof {
                    assert(old(self).has_output(output));
                    let vi = old(self).view_index(output);
                    assert(0 <= vi < old(self).views@.len() && old(self).views@[vi].output
                        == output);
                    if vi != i {
                        assert(old(self).views@[vi].output != old(self).views@[i as int].output);
                    }
                }
                let view = &mut self.views[i];
                let attach = view.configure(width, height);
                proof {
                    let pre = old(self).views@;
                    let post = self.views@;
                    assert forall|j: int| 0 <= j < post.len() implies (#[trigger] post[j]).output
                        == pre[j].output by {
                    }
                    assert forall|i2: int, j2: int|
                        #![trigger post[i2].output, post[j2].output]
                        0 <= i2 < post.len() && 0 <= j2 < post.len() && i2 != j2 implies post[
                    i2].output != post[j2].output by {
                        assert(pre[i2].output != pre[j2].output);
                    }
                    assert forall|j: int| 0 <= j < post.len() implies (#[trigger] post[j]).wf(
                        self.radius,
                        self.alpha,
                    ) by {
                        assert(pre[j].wf(old(self).radius, old(self).alpha));
                    }
                    assert forall|o: u64| self.has_output(o) implies old(self).has_output(o) by {
                        let w = choose|k: int|
                            0 <= k < post.len() && (#[trigger] post[k]).output == o;
                        assert(pre[w].output == o);
                    }
                    assert forall|o: u64| old(self).has_output(o) implies self.has_output(o) by {
                        let w = choose|k: int|
                            0 <= k < pre.len() && (#[trigger] pre[k]).output == o;
                        assert(post[w].output == o);
                    }
                }
                Some(attach)
            },
            None => None,
        }
    }

    /// Finds the entry covering `output`, if any.
    fn find_index(&self, output: u64) -> (r: Option<usize>)
        ensures
            match r {
                Some(i) => i < self.views@.len() && self.views@[i as int].output == output,
                None => !self.has_output(output),
            },
    {
        let mut i: usize = 0;
        while i < self.views.len()
            invariant
                i <= self.views@.len(),
                forall|j: int| 0 <= j < i ==> (#[trigger] self.views@[j]).output != output,
            decreases self.views@.len() - i,
        {
            if self.views[i].output == output {
                return Some(i);
            }
            i = i + 1;
        }
        None
    }
}

/// One output lifecycle notification, as the display server reports them.
pub enum Notice {
    Added(u64),
    Updated(u64),
    Removed(u64),
}

/// How one notification changes the set of covered outputs: an addition
/// covers the output, an update keeps the covered set as it is, a removal
/// uncovers the output.
pub open spec fn notice_step(s: Set<u64>, n: Notice) -> Set<u64> {
    match n {
        Notice::Added(o) => s.insert(o),
        Notice::Updated(_) => s,
        Notice::Removed(o) => s.remove(o),
    }
}

proof fn lemma_outputs_unchanged(pre: DimlandData, post: DimlandData)
    requires
        forall|o: u64| #[trigger] post.has_output(o) <==> pre.has_output(o),
    ensures
        post.outputs() == pre.outputs(),
{
    assert forall|o: u64| post.outputs().contains(o) == pre.outputs().contains(o) by {
        assert(post.outputs().contains(o) == post.has_output(o));
        assert(pre.outputs().contains(o) == pre.has_output(o));
    }
    assert(post.outputs() =~= pre.outputs());
}

/// The set of covered outputs after a whole run of notifications, starting
/// from `init`. Each of `new_output`, `update_output` and `output_destroyed`
/// ensures that it changes `outputs()` by exactly one `notice_step`, so this
/// is the covered set after any sequence of those calls.
pub open spec fn live_after(init: Set<u64>, evs: Seq<Notice>) -> Set<u64>
    decreases evs.len(),
{
    if evs.len() == 0 {
        init
    } else {
        notice_step(live_after(init, evs.drop_last()), evs.last())
    }
}

/// Whether output `o` is owed an overlay at the end of a run: some addition
/// of `o` is never followed by a removal of `o`, or `o` was covered at the
/// start and never removed.
pub open spec fn survives(init: Set<u64>, evs: Seq<Notice>, o: u64) -> bool {
    ||| (exists|k: int|
        0 <= k < evs.len() && evs[k] == Notice::Added(o) && (forall|m: int|
            k < m < evs.len() ==> evs[m] != Notice::Removed(o)))
    ||| (init.contains(o) && (forall|m: int| 0 <= m < evs.len() ==> evs[m] != Notice::Removed(o)))
}

proof fn lemma_survives_passthrough(init: Set<u64>, evs: Seq<Notice>, o: u64)
    requires
        evs.len() > 0,
        evs.last() != Notice::Added(o),
        evs.last() != Notice::Removed(o),
    ensures
        survives(init, evs, o) == survives(init, evs.drop_last(), o),
{
    let pre = evs.drop_last();
    let n = evs.len() - 1;
    if survives(init, pre, o) {
        if exists|k: int|
            0 <= k < pre.len() && pre[k] == Notice::Added(o) && (forall|m: int|
                k < m < pre.len() ==> pre[m] != Notice::Removed(o)) {
            let k = choose|k: int|
                0 <= k < pre.len() && pre[k] == Notice::Added(o) && (forall|m: int|
                    k < m < pre.len() ==> pre[m] != Notice::Removed(o));
            assert(evs[k] == Notice::Added(o));
            assert forall|m: int| k < m < evs.len() implies evs[m] != Notice::Removed(o) by {
                if m < n {
                    assert(pre[m] != Notice::Removed(o));
                }
            }
            assert(survives(init, evs, o));
        } else {
            assert forall|m: int| 0 <= m < evs.len() implies evs[m] != Notice::Removed(o) by {
                if m < n {
                    assert(pre[m] != Notice::Removed(o));
                }
            }
            assert(survives(init, evs, o));
        }
    }
    if survives(init, evs, o) {
        if exists|k: int|
            0 <= k < evs.len() && evs[k] == Notice::Added(o) && (forall|m: int|
                k < m < evs.len() ==> evs[m] != Notice::Removed(o)) {
            let k = choose|k: int|
                0 <= k < evs.len() && evs[k] == Notice::Added(o) && (forall|m: int|
                    k < m < evs.len() ==> evs[m] != Notice::Removed(o));
            assert(k != n);
            assert(pre[k] == Notice::Added(o));
            assert forall|m: int| k < m < pre.len() implies pre[m] != Notice::Removed(o) by {
                assert(evs[m] != Notice::Removed(o));
            }
            assert(survives(init, pre, o));
        } else {
            assert forall|m: int| 0 <= m < pre.len() implies pre[m] != Notice::Removed(o) by {
                assert(evs[m] != Notice::Removed(o));
            }
            assert(survives(init, pre, o));
        }
    }
}

/// The registry invariant over whole runs: after any sequence of add,
/// update and remove notifications, an output is covered exactly when an
/// addition of it (or its initial coverage) was never followed by its
/// removal. Together with `wf`, which every operation preserves, the
/// registry holds exactly one entry per such output and none for any other.
pub proof fn lemma_live_outputs(init: Set<u64>, evs: Seq<Notice>, o: u64)
    ensures
        live_after(init, evs).contains(o) == survives(init, evs, o),
    decreases evs.len(),
{
    if evs.len() == 0 {
        assert(!(exists|k: int|
            0 <= k < evs.len() && evs[k] == Notice::Added(o) && (forall|m: int|
                k < m < evs.len() ==> evs[m] != Notice::Removed(o))));
    } else {
        let pre = evs.drop_last();
        let last = evs.last();
        let n = evs.len() - 1;
        lemma_live_outputs(init, pre, o);
        match last {
            Notice::Added(a) => {
                if a == o {
                    assert(live_after(init, evs).contains(o));
                    assert(evs[n] == Notice::Added(o));
                    assert(forall|m: int| n < m < evs.len() ==> evs[m] != Notice::Removed(o));
                    assert(survives(init, evs, o));
                } else {
                    lemma_survives_passthrough(init, evs, o);
                    assert(live_after(init, evs).contains(o) == live_after(init, pre).contains(o));
                }
            },
            Notice::Updated(_) => {
                lemma_survives_passthrough(init, evs, o);
            },
            Notice::Removed(r) => {
                if r == o {
                    assert(!live_after(init, evs).contains(o));
                    assert(evs[n] == Notice::Removed(o));
                    if exists|k: int|
                        0 <= k < evs.len() && evs[k] == Notice::Added(o) && (forall|m: int|
                            k < m < evs.len() ==> evs[m] != Notice::Removed(o)) {
                        let k = choose|k: int|
                            0 <= k < evs.len() && evs[k] == Notice::Added(o) && (forall|m: int|
                                k < m < evs.len() ==> evs[m] != Notice::Removed(o));
                        assert(k < n);
                        assert(evs[n] != Notice::Removed(o));
                    }
                    assert(!survives(init, evs, o));
                } else {
                    lemma_survives_passthrough(init, evs, o);
                    assert(live_after(init, evs).contains(o) == live_after(init, pre).contains(o));
                }
            },
        }
    }
}

proof fn lemma_outputs_remove(pre: DimlandData, post: DimlandData, output: u64)
    requires
        forall|o: u64| #[trigger] post.has_output(o) <==> (pre.has_output(o) && o != output),
    ensures
        post.outputs() == pre.outputs().remove(output),
{
    assert forall|o: u64|
        post.outputs().contains(o) == pre.outputs().remove(output).contains(o) by {
        assert(post.outputs().contains(o) == post.has_output(o));
        assert(pre.outputs().contains(o) == pre.has_output(o));
    }
    assert(post.outputs() =~= pre.outputs().remove(output));
}

proof fn lemma_outputs_insert(pre: DimlandData, post: DimlandData, output: u64)
    requires
        forall|o: u64| #[trigger] post.has_output(o) <==> (pre.has_output(o) || o == output),
    ensures
        post.outputs() == pre.outputs().insert(output),
{
    assert forall|o: u64|
        post.outputs().contains(o) == pre.outputs().insert(output).contains(o) by {
        assert(post.outputs().contains(o) == post.has_output(o));
        assert(pre.outputs().contains(o) == pre.has_output(o));
    }
    assert(post.outputs() =~= pre.outputs().insert(output));
}

} // verus!

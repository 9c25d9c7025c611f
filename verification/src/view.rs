//! One overlay surface per output: its rendered buffer, the logical size the
//! server has confirmed so far, and the two-state configure handshake. The
//! buffer is rendered once, at construction, from the size known at that
//! moment; a size confirmation updates the scaling destination but never
//! re-renders or re-attaches the buffer.

use vstd::prelude::*;
use crate::pixels::buffer_bytes;
use crate::pixels::generate_buffer;

verus! {

/// The configure handshake of one surface: `Uninitialized` until the first
/// size confirmation arrives, `Live` from then on.
#[derive(Clone, Copy, Debug, PartialEq, Eq, Structural)]
pub enum SurfaceState {
    Uninitialized,
    Live,
}

/// One overlay surface. `buffer_width` and `buffer_height` are the size the
/// buffer was rendered at; `width` and `height` are the logical size last
/// confirmed by the server, zero until the first confirmation.
pub struct DimlandView {
    pub output: u64,
    pub buffer_width: u32,
    pub buffer_height: u32,
    pub width: u32,
    pub height: u32,
    pub buffer: Vec<u8>,
    pub state: SurfaceState,
}

impl DimlandView {
    /// The buffer holds exactly the rendered content for the view's
    /// construction-time size and the registry's parameters.
    pub open spec fn wf(self, radius: u32, alpha: u8) -> bool {
        self.buffer@ == buffer_bytes(self.buffer_width, self.buffer_height, radius, alpha)
    }

    /// A view as `new` returns it: bound to `output`, buffer rendered at
    /// `width` by `height`, confirmed size still zero, handshake not yet run.
    pub open spec fn is_fresh(self, output: u64, width: u32, height: u32, radius: u32, alpha: u8) -> bool {
        &&& self.output == output
        &&& self.buffer_width == width
        &&& self.buffer_height == height
        &&& self.width == 0
        &&& self.height == 0
        &&& self.state == SurfaceState::Uninitialized
        &&& self.wf(radius, alpha)
    }

    /// Builds the overlay surface for one output: renders the buffer at the
    /// size reported for the output right now and starts the handshake.
    pub fn new(output: u64, width: u32, height: u32, radius: u32, alpha: u8) -> (v: DimlandView)
        requires
            (width as int) * (height as int) * 4 <= usize::MAX as int,
        ensures
            v.is_fresh(output, width, height, radius, alpha),
    {
        DimlandView {
            output,
            buffer_width: width,
            buffer_height: height,
            width: 0,
            height: 0,
            buffer: generate_buffer(width, height, radius, alpha),
            state: SurfaceState::Uninitialized,
        }
    }

    /// Handles one size confirmation: records the confirmed size (the caller
    /// must point the scaling destination at it) and reports whether this
    /// confirmation is the first, in which case — and only then — the caller
    /// attaches the buffer and commits. The buffer itself never changes.
    pub fn configure(&mut self, width: u32, height: u32) -> (attach: bool)
        ensures
            final(self).output == old(self).output,
            final(self).buffer_width == old(self).buffer_width,
            final(self).buffer_height == old(self).buffer_height,
            final(self).buffer == old(self).buffer,
            final(self).width == width,
            final(self).height == height,
            final(self).state == SurfaceState::Live,
            final(self).state == configure_next(old(self).state),
            attach == (old(self).state == SurfaceState::Uninitialized),
            attach == configure_attaches(old(self).state),
    {
        self.width = width;
        self.height = height;
        let attach = self.state == SurfaceState::Uninitialized;
        self.state = SurfaceState::Live;
        attach
    }
}

/// `post` is `pre` after one size confirmation at (width, height): the same
/// output and the same buffer, rendered at the same size, with the confirmed
/// size recorded and the handshake completed.
pub open spec fn is_configured_from(post: DimlandView, pre: DimlandView, width: u32, height: u32) -> bool {
    &&& post.output == pre.output
    &&& post.buffer_width == pre.buffer_width
    &&& post.buffer_height == pre.buffer_height
    &&& post.buffer == pre.buffer
    &&& post.width == width
    &&& post.height == height
    &&& post.state == SurfaceState::Live
}

/// Whether handling a size confirmation in state `s` attaches the buffer:
/// only the transition out of `Uninitialized` does.
pub open spec fn configure_attaches(s: SurfaceState) -> bool {
    s == SurfaceState::Uninitialized
}

/// The state after handling a size confirmation, whatever the state before.
pub open spec fn configure_next(s: SurfaceState) -> SurfaceState {
    SurfaceState::Live
}

/// How many of the next `n` size confirmations attach the buffer, starting
/// from state `s`.
pub open spec fn attach_count(s: SurfaceState, n: nat) -> nat
    decreases n,
{
    if n == 0 {
        0
    } else {
        (if configure_attaches(s) { 1int } else { 0int }) as nat
            + attach_count(configure_next(s), (n - 1) as nat)
    }
}

/// A surface already `Live` never attaches again.
pub proof fn lemma_live_never_attaches(n: nat)
    ensures
        attach_count(SurfaceState::Live, n) == 0,
    decreases n,
{
    if n > 0 {
        lemma_live_never_attaches((n - 1) as nat);
    }
}

/// Across any run of size confirmations, however long and from whichever
/// state, the buffer is attached at most once, and only on the transition
/// out of `Uninitialized`.
pub proof fn lemma_attach_at_most_once(s: SurfaceState, n: nat)
    ensures
        attach_count(s, n) <= 1,
{
    if n > 0 {
        lemma_live_never_attaches((n - 1) as nat);
    }
}

/// The rendered buffer is a pure function of the construction parameters:
/// two well-formed views built at the same size, radius and alpha hold
/// byte-identical buffers — in particular, replacing a view with one built
/// for an unchanged output size reproduces the old buffer exactly.
pub proof fn lemma_same_size_buffer_identical(
    v1: DimlandView,
    v2: DimlandView,
    radius: u32,
    alpha: u8,
)
    requires
        v1.wf(radius, alpha),
        v2.wf(radius, alpha),
        v1.buffer_width == v2.buffer_width,
        v1.buffer_height == v2.buffer_height,
    ensures
        v1.buffer@ == v2.buffer@,
{
}

} // verus!

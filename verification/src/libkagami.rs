//! The host shim's entry points for targets without a Wayland host.
use vstd::prelude::*;

verus! {

pub open spec fn host_unavailable_message() -> Seq<char> {
    "libkagami host shim is only available on unix hosts"@
}

fn host_unavailable() -> (r: Result<(), String>)
    ensures
        r matches Err(m) && m@ == host_unavailable_message(),
{
    Err("libkagami host shim is only available on unix hosts".to_owned())
}

/// Connecting to a display always fails on a target without a Wayland host.
pub fn host_connect_wayland() -> (r: Result<(), String>)
    ensures
        r matches Err(m) && m@ == host_unavailable_message(),
{
    host_unavailable()
}

/// Creating a shared-memory buffer always fails on a target without a Wayland host.
pub fn host_create_shm_buffer(_shm: &(), _width: i32, _height: i32) -> (r: Result<(), String>)
    ensures
        r matches Err(m) && m@ == host_unavailable_message(),
{
    host_unavailable()
}

} // verus!

verus! {

/// The size of a shared-memory pixel buffer: rows of `4 * width` bytes (the width
/// taken as an unsigned index), `height` rows.
pub open spec fn shm_stride(width: i32) -> usize {
    (width * 4) as usize
}

/// The layout `(stride, size)` of a shared-memory buffer of `width x height`
/// pixels; an error when the size does not fit in `usize`.
pub fn shm_layout(width: i32, height: i32) -> (r: Result<(usize, usize), String>)
    requires
        i32::MIN <= width * 4 <= i32::MAX,
    ensures
        match r {
            Ok((stride, size)) => stride == shm_stride(width) && size == stride * (height as usize)
                && stride * (height as usize) <= usize::MAX,
            Err(e) => e@ == "size overflow"@ && shm_stride(width) * (height as usize) > usize::MAX,
        },
{
    let stride = (width * 4) as usize;
    match stride.checked_mul(height as usize) {
        Some(size) => Ok((stride, size)),
        None => Err("size overflow".to_owned()),
    }
}

/// Which of a surface's two buffers is shown; the other is drawn into.
pub struct BufferFlip {
    pub front: usize,
}

/// The buffer drawn into while `front` is shown: the second while the first is
/// shown, the first otherwise.
pub open spec fn back_of(front: usize) -> usize {
    if front == 0 { 1 } else { 0 }
}

impl BufferFlip {
    /// The first buffer shown.
    pub fn new() -> (b: Self)
        ensures
            b.front == 0,
    {
        BufferFlip { front: 0 }
    }

    /// The buffer to draw into.
    pub fn back(&self) -> (i: usize)
        ensures
            i == back_of(self.front),
    {
        if self.front == 0 { 1 } else { 0 }
    }

    /// Shows the buffer drawn into; returns the buffer now shown.
    pub fn swap(&mut self) -> (i: usize)
        ensures
            final(self).front == back_of(old(self).front),
            i == final(self).front,
    {
        self.front = if self.front == 0 { 1 } else { 0 };
        self.front
    }

    /// The buffer a commit of the shown buffer attaches: the first when the first
    /// is shown, the second otherwise (and that one is then taken as shown).
    pub fn commit(&mut self) -> (i: usize)
        ensures
            i == if old(self).front == 0 { 0usize } else { 1usize },
            final(self).front == i,
    {
        self.front = if self.front == 0 { 0 } else { 1 };
        self.front
    }
}

/// Swapping twice shows the same buffer again, and the buffer drawn into is never
/// the one shown.
pub proof fn lemma_flip_twice(front: usize)
    requires
        front <= 1,
    ensures
        back_of(back_of(front)) == front,
        back_of(front) != front,
{
}

} // verus!

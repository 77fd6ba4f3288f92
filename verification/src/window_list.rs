//! The windows of the application, polled in turn.

use vstd::prelude::*;

verus! {

/// The position polled after `position` in a list of `len` windows.
pub open spec fn next_position(position: int, len: int) -> int
    recommends
        len > 0,
{
    (position + 1) % len
}

/// A registry of windows, each known by its position in the list, with a
/// cursor that goes round them.
pub struct WindowList<W> {
    windows: Vec<W>,
    window_position: usize,
}

impl<W> WindowList<W> {
    /// The windows, in the order they were pushed.
    pub closed spec fn windows(&self) -> Seq<W> {
        self.windows@
    }

    /// The position of the window polled last.
    pub closed spec fn position(&self) -> nat {
        self.window_position as nat
    }

    /// The invariant of the list: the cursor is on a window, or at 0 in an
    /// empty list.
    pub open spec fn well_formed(&self) -> bool {
        self.position() == 0 || self.position() < self.windows().len()
    }

    /// An empty list.
    pub fn new() -> (list: WindowList<W>)
        ensures
            list.well_formed(),
            list.windows() == Seq::<W>::empty(),
            list.position() == 0,
    {
        WindowList { windows: Vec::new(), window_position: 0 }
    }

    /// Appends `window`; the cursor stays where it is.
    pub fn push(&mut self, window: W)
        requires
            old(self).well_formed(),
        ensures
            final(self).well_formed(),
            final(self).windows() == old(self).windows().push(window),
            final(self).position() == old(self).position(),
    {
        self.windows.push(window);
    }

    /// The number of windows.
    pub fn len(&self) -> (n: usize)
        ensures
            n == self.windows().len(),
    {
        self.windows.len()
    }

    /// Moves the cursor to the next window, going back to the first after
    /// the last, and returns its position: the window to poll next. In an
    /// empty list there is none, and the cursor stays.
    pub fn next_window(&mut self) -> (next: Option<usize>)
        requires
            old(self).well_formed(),
        ensures
            final(self).well_formed(),
            final(self).windows() == old(self).windows(),
            match next {
                Some(position) => {
                    &&& old(self).windows().len() > 0
                    &&& position == next_position(
                        old(self).position() as int,
                        old(self).windows().len() as int,
                    )
                    &&& final(self).position() == position
                },
                None => {
                    &&& old(self).windows().len() == 0
                    &&& final(self).position() == old(self).position()
                },
            },
    {
        if self.windows.len() == 0 {
            return None;
        }
        let cur_window_position = (self.window_position + 1) % self.windows.len();
        self.window_position = cur_window_position;
        Some(cur_window_position)
    }

    /// The window at `position`.
    pub fn window(&self, position: usize) -> (window: Option<&W>)
        ensures
            match window {
                Some(w) => position < self.windows().len() && *w == self.windows()[
                    position as int
                ],
                None => position >= self.windows().len(),
            },
    {
        if position < self.windows.len() {
            Some(&self.windows[position])
        } else {
            None
        }
    }

    /// The window at `position`, to poll or draw on. The list keeps its
    /// length and its cursor whatever is done to the window.
    pub fn window_mut(&mut self, position: usize) -> (window: Option<&mut W>)
        ensures
            final(self).position() == old(self).position(),
            match window {
                Some(w) => {
                    &&& position < old(self).windows().len()
                    &&& *w == old(self).windows()[position as int]
                    &&& final(self).windows() == old(self).windows().update(
                        position as int,
                        *final(w),
                    )
                },
                None => {
                    &&& position >= old(self).windows().len()
                    &&& final(self).windows() == old(self).windows()
                },
            },
    {
        if position < self.windows.len() {
            Some(&mut self.windows[position])
        } else {
            None
        }
    }
}

} // verus!

//! A fixed-width window over a text that may be longer than the window. Each
//! tick moves the window one character, back and forth between the two ends,
//! and it rests at each end for a configured number of ticks.

use vstd::prelude::*;
use crate::text::{chars_of, push_char, same_seq};

verus! {

/// Ends every rendered window, so that a status bar that strips trailing
/// white space keeps the padding.
pub const SENTINEL: char = '\u{feff}';

pub struct Scroller {
    content: Vec<char>,
    buffer: String,
    head: usize,
    forward: bool,
    wait: u8,
    size: usize,
    start_wait: u8,
}

/// What a `Scroller` is: its text, the window last rendered, where the
/// window starts, which way it moves, the ticks left to rest, the window
/// width and the number of ticks to rest at each end.
pub struct ScrollerView {
    pub content: Seq<char>,
    pub rendered: Seq<char>,
    pub head: nat,
    pub forward: bool,
    pub wait: nat,
    pub window: nat,
    pub dwell: nat,
}

pub open spec fn spaces(n: nat) -> Seq<char> {
    Seq::new(n, |i: int| ' ')
}

/// The window of `window` characters of `content` from `head`, padded with
/// spaces, then the sentinel.
pub open spec fn window_text(content: Seq<char>, head: nat, window: nat) -> Seq<char> {
    let rest: int = content.len() - head;
    let take: int = if window <= rest {
        window as int
    } else {
        rest
    };
    content.subrange(head as int, head + take) + spaces((window - take) as nat) + seq![SENTINEL]
}

impl ScrollerView {
    /// The last position the window can start at.
    pub open spec fn last_head(self) -> nat {
        if self.content.len() > self.window {
            (self.content.len() - self.window) as nat
        } else {
            0
        }
    }

    pub open spec fn wf(self) -> bool {
        &&& self.head <= self.last_head()
        &&& self.wait <= self.dwell
        &&& self.dwell <= u8::MAX
        &&& self.window <= u8::MAX
    }

    /// One tick. A text that fits is shown from its start and the rest is
    /// rearmed; otherwise the rest counts down, then the window moves on, or
    /// turns at an end and rests again.
    pub open spec fn tick(self) -> ScrollerView {
        let len = self.content.len();
        if len <= self.window {
            ScrollerView {
                head: 0,
                wait: self.dwell,
                rendered: window_text(self.content, 0, self.window),
                ..self
            }
        } else {
            let w: nat = if self.wait > 0 {
                (self.wait - 1) as nat
            } else {
                0
            };
            let last = self.last_head();
            let moved = if self.forward && self.head < last && w == 0 {
                ScrollerView { head: self.head + 1, wait: w, ..self }
            } else if self.forward && self.head == last {
                ScrollerView { forward: false, wait: self.dwell, ..self }
            } else if !self.forward && self.head > 0 && w == 0 {
                ScrollerView { head: (self.head - 1) as nat, wait: w, ..self }
            } else if !self.forward && self.head == 0 {
                ScrollerView { forward: true, wait: self.dwell, ..self }
            } else {
                ScrollerView { wait: w, ..self }
            };
            ScrollerView { rendered: window_text(self.content, moved.head, self.window), ..moved }
        }
    }
}

/// A scroller just made: no text, nothing rendered, moving forward, with the
/// full rest ahead.
pub open spec fn fresh_view(size: nat, wait: nat) -> ScrollerView {
    ScrollerView {
        content: seq![],
        rendered: seq![],
        head: 0,
        forward: true,
        wait: wait,
        window: size,
        dwell: wait,
    }
}

impl View for Scroller {
    type V = ScrollerView;

    closed spec fn view(&self) -> ScrollerView {
        ScrollerView {
            content: self.content@,
            rendered: self.buffer@,
            head: self.head as nat,
            forward: self.forward,
            wait: self.wait as nat,
            window: self.size as nat,
            dwell: self.start_wait as nat,
        }
    }
}

impl Scroller {
    /// A scroller with an empty text, a window of `size` characters (none:
    /// disabled) that rests `wait` ticks at each end.
    pub fn new(size: u8, wait: u8) -> (r: Self)
        ensures
            r@ == fresh_view(size as nat, wait as nat),
            r@.wf(),
    {
        Scroller {
            content: Vec::new(),
            buffer: String::new(),
            head: 0,
            forward: true,
            wait,
            size: size as usize,
            start_wait: wait,
        }
    }

    /// Whether the scroller has a window at all.
    pub fn is_initialized(&self) -> (r: bool)
        ensures
            r == (self@.window > 0),
    {
        self.size > 0
    }

    /// Replaces the text; a new text is shown from its start, moving
    /// forward. The rest countdown is left as it is.
    pub fn set_content(&mut self, content: &str)
        requires
            old(self)@.wf(),
        ensures
            final(self)@.wf(),
            old(self)@.content == content@ ==> final(self)@ == old(self)@,
            old(self)@.content != content@ ==> final(self)@ == (ScrollerView {
                content: content@,
                head: 0,
                forward: true,
                ..old(self)@
            }),
    {
        let c = chars_of(content);
        if !same_seq(&self.content, &c) {
            self.content = c;
            self.reset_head();
        }
    }

    fn reset_head(&mut self)
        ensures
            final(self)@ == (ScrollerView { head: 0, forward: true, ..old(self)@ }),
    {
        self.head = 0;
        self.forward = true;
    }

    /// Renders the window at the current head.
    fn render(&mut self)
        requires
            old(self)@.head <= old(self)@.content.len(),
        ensures
            final(self)@ == (ScrollerView {
                rendered: window_text(old(self)@.content, old(self)@.head, old(self)@.window),
                ..old(self)@
            }),
    {
        let len = self.content.len();
        let rest = len - self.head;
        let take = if self.size <= rest {
            self.size
        } else {
            rest
        };
        let mut out = String::new();
        let ghost v = self@;
        let ghost shown = v.content.subrange(v.head as int, v.head + take);
        for k in 0..take
            invariant
                v == self@,
                take <= rest,
                rest == len - self.head,
                len == self.content@.len(),
                shown == self.content@.subrange(self.head as int, self.head + take),
                out@ == shown.subrange(0, k as int),
        {
            push_char(&mut out, self.content[self.head + k]);
            assert(shown.subrange(0, k + 1) == shown.subrange(0, k as int).push(shown[k as int]));
        }
        assert(shown.subrange(0, take as int) == shown);
        let pad = self.size - take;
        assert(take as int == (if v.window <= v.content.len() - v.head {
            v.window as int
        } else {
            v.content.len() - v.head
        }));
        for k in 0..pad
            invariant
                v == self@,
                pad == v.window - take,
                out@ == shown + spaces(k as nat),
        {
            push_char(&mut out, ' ');
            assert(spaces((k + 1) as nat) == spaces(k as nat).push(' '));
        }
        push_char(&mut out, SENTINEL);
        assert(out@ == window_text(v.content, v.head, v.window));
        self.buffer = out;
    }

    /// One tick: moves the window as `ScrollerView::tick` says and renders
    /// it.
    pub fn update(&mut self)
        requires
            old(self)@.wf(),
        ensures
            final(self)@ == old(self)@.tick(),
            final(self)@.wf(),
            old(self)@.content.len() <= old(self)@.window ==> {
                &&& final(self)@.head == 0
                &&& final(self)@.rendered == old(self)@.content + spaces(
                    (old(self)@.window - old(self)@.content.len()) as nat,
                ) + seq![SENTINEL]
                &&& final(self)@.rendered.len() == old(self)@.window + 1
            },
            old(self)@.content.len() > old(self)@.window && !old(self)@.forward && old(self)@.head
                == 0 ==> final(self)@.forward && final(self)@.head == 0,
    {
        let len = self.content.len();
        if len > self.size {
            if self.wait > 0 {
                self.wait -= 1;
            }
            let last = len - self.size;
            if self.forward && self.head < last && self.wait == 0 {
                self.head += 1;
            } else if self.forward && self.head == last {
                self.forward = false;
                self.wait = self.start_wait;
            } else if !self.forward && self.head > 0 && self.wait == 0 {
                self.head -= 1;
            } else if !self.forward && self.head == 0 {
                self.forward = true;
                self.wait = self.start_wait;
            }
        } else {
            self.head = 0;
            self.wait = self.start_wait;
        }
        self.render();
        proof {
            let o = old(self)@;
            if o.content.len() <= o.window {
                assert(o.content.subrange(0, o.content.len() as int) == o.content);
            }
        }
    }

    /// The window rendered by the last tick (empty before the first).
    pub fn display(&self) -> (r: &str)
        ensures
            r@ == self@.rendered,
    {
        self.buffer.as_str()
    }
}

/// The scroller after `n` ticks.
pub open spec fn ticks(v: ScrollerView, n: nat) -> ScrollerView
    decreases n,
{
    if n == 0 {
        v
    } else {
        ticks(v, (n - 1) as nat).tick()
    }
}

/// A tick keeps the scroller well formed, and renders exactly `window`
/// characters and the sentinel.
pub proof fn lemma_tick_keeps_shape(v: ScrollerView)
    requires
        v.wf(),
    ensures
        v.tick().wf(),
        v.tick().rendered.len() == v.window + 1,
        v.tick().content == v.content && v.tick().window == v.window && v.tick().dwell == v.dwell,
{
}

/// However many ticks pass, the window never starts past the text length
/// minus the window width.
pub proof fn lemma_head_stays_in_range(v: ScrollerView, n: nat)
    requires
        v.wf(),
    ensures
        ticks(v, n).wf(),
        ticks(v, n).head <= ticks(v, n).last_head(),
        ticks(v, n).content == v.content && ticks(v, n).window == v.window,
    decreases n,
{
    if n > 0 {
        lemma_head_stays_in_range(v, (n - 1) as nat);
        lemma_tick_keeps_shape(ticks(v, (n - 1) as nat));
    }
}

/// While more than one tick of rest is left, a tick does not move the
/// window.
pub proof fn lemma_rest_holds_window(v: ScrollerView)
    requires
        v.wf(),
        v.content.len() > v.window,
        v.wait > 1,
    ensures
        v.tick().head == v.head,
        v.tick().rendered == window_text(v.content, v.head, v.window),
{
}

/// Once the rest is over, each tick moves the window one character in its
/// direction until it reaches an end.
pub proof fn lemma_rested_window_moves(v: ScrollerView)
    requires
        v.wf(),
        v.content.len() > v.window,
        v.wait <= 1,
    ensures
        v.forward && v.head < v.last_head() ==> v.tick().head == v.head + 1 && v.tick().forward,
        !v.forward && v.head > 0 ==> v.tick().head == v.head - 1 && !v.tick().forward,
{
}

/// A window that reached the start moving backward stays there, turns
/// forward and rests again.
pub proof fn lemma_turns_at_start(v: ScrollerView)
    requires
        v.wf(),
        v.content.len() > v.window,
        !v.forward,
        v.head == 0,
    ensures
        v.tick().head == 0,
        v.tick().forward,
        v.tick().wait == v.dwell,
{
}

/// A window that reached the end moving forward stays there, turns backward
/// and rests again.
pub proof fn lemma_turns_at_end(v: ScrollerView)
    requires
        v.wf(),
        v.content.len() > v.window,
        v.forward,
        v.head == v.last_head(),
    ensures
        v.tick().head == v.head,
        !v.tick().forward,
        v.tick().wait == v.dwell,
{
}

/// A text that fits in the window is shown from its start, padded with
/// spaces to the full width.
pub proof fn lemma_short_text_fills_window(v: ScrollerView)
    requires
        v.wf(),
        v.content.len() <= v.window,
    ensures
        v.tick().head == 0,
        v.tick().rendered == v.content + spaces((v.window - v.content.len()) as nat) + seq![
            SENTINEL,
        ],
        v.tick().rendered.len() == v.window + 1,
{
    assert(v.content.subrange(0, v.content.len() as int) == v.content);
}

} // verus!

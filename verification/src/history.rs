//! Ordered record of previously committed command lines with a browse cursor.
use vstd::prelude::*;

verus! {

/// Mathematical model of the history: the committed lines in order, and the
/// browse cursor.  A cursor equal to `commands.len()` means the user is not
/// browsing and sits on a fresh empty line.
pub struct HistoryView {
    pub commands: Seq<Seq<char>>,
    pub cursor: nat,
}

/// Effect of `push`: the line is appended and the cursor is reset to
/// "not browsing" (the new length).
pub open spec fn history_push(h: HistoryView, line: Seq<char>) -> HistoryView {
    HistoryView { commands: h.commands.push(line), cursor: h.commands.len() + 1 }
}

/// Effect and result of `up`: the cursor moves one step toward 0 (clamped),
/// and the line at the new cursor is returned.
pub open spec fn history_up(h: HistoryView) -> (HistoryView, Seq<char>)
    recommends
        h.commands.len() > 0,
        h.cursor <= h.commands.len(),
{
    let c: nat = if h.cursor > 0 {
        (h.cursor - 1) as nat
    } else {
        0
    };
    (HistoryView { commands: h.commands, cursor: c }, h.commands[c as int])
}

/// Effect and result of `down`: the cursor moves one step toward
/// `commands.len()` (clamped); the line at the new cursor is returned, or the
/// empty line once the cursor is past the last entry.
pub open spec fn history_down(h: HistoryView) -> (HistoryView, Seq<char>)
    recommends
        h.cursor <= h.commands.len(),
{
    let c: nat = if h.cursor < h.commands.len() {
        h.cursor + 1
    } else {
        h.cursor
    };
    let line = if c == h.commands.len() {
        Seq::<char>::empty()
    } else {
        h.commands[c as int]
    };
    (HistoryView { commands: h.commands, cursor: c }, line)
}

/// Ordered list of previously submitted lines plus a navigation cursor.
/// Browsing never mutates the stored lines; only `up` and `down` move the
/// cursor, clamped to `[0, len]`.
pub struct History {
    commands: Vec<String>,
    cursor: usize,
}

impl View for History {
    type V = HistoryView;

    closed spec fn view(&self) -> HistoryView {
        HistoryView { commands: self.commands.deep_view(), cursor: self.cursor as nat }
    }
}

impl History {
    /// Well-formedness: the browse cursor stays within `[0, len]`.  `new`
    /// establishes it and every method preserves it.
    pub open spec fn wf(self) -> bool {
        self@.cursor <= self@.commands.len()
    }

    pub fn new() -> (r: History)
        ensures
            r@.commands.len() == 0,
            r@.cursor == 0,
            r.wf(),
    {
        History { commands: Vec::new(), cursor: 0 }
    }

    /// Number of committed lines.
    pub fn len(&self) -> (r: usize)
        ensures
            r == self@.commands.len(),
    {
        self.commands.len()
    }

    pub fn push(&mut self, command: String)
        ensures
            final(self)@ == history_push(old(self)@, command@),
            final(self).wf(),
    {
        self.commands.push(command);
        self.cursor = self.commands.len();
        proof {
            assert(self@.commands =~= history_push(old(self)@, command@).commands);
        }
    }

    pub fn up(&mut self) -> (r: &str)
        requires
            old(self).wf(),
            old(self)@.commands.len() > 0,
        ensures
            final(self)@ == history_up(old(self)@).0,
            r@ == history_up(old(self)@).1,
            final(self).wf(),
    {
        if self.cursor > 0 {
            self.cursor = self.cursor - 1;
        }
        self.commands[self.cursor].as_str()
    }

    pub fn down(&mut self) -> (r: &str)
        requires
            old(self).wf(),
        ensures
            final(self)@ == history_down(old(self)@).0,
            r@ == history_down(old(self)@).1,
            final(self).wf(),
    {
        if self.cursor < self.commands.len() {
            self.cursor = self.cursor + 1;
        }
        if self.cursor == self.commands.len() {
            let r = "";
            proof {
                reveal_strlit("");
                assert(r@ =~= Seq::<char>::empty());
            }
            r
        } else {
            self.commands[self.cursor].as_str()
        }
    }
}

/// After `push(a)` and `push(b)`, browsing `up` twice lands on `a`; one
/// `down` after that lands on `b`; a further `down` yields the empty line.
/// This holds from any starting history.
pub proof fn lemma_history_navigation(h: HistoryView, a: Seq<char>, b: Seq<char>)
    requires
        h.cursor <= h.commands.len(),
    ensures
        ({
            let h1 = history_push(history_push(h, a), b);
            let u1 = history_up(h1);
            let u2 = history_up(u1.0);
            let d1 = history_down(u2.0);
            let d2 = history_down(d1.0);
            u2.1 == a && d1.1 == b && d2.1 == Seq::<char>::empty()
        }),
{
}

} // verus!

//! The cursor-addressable edit buffer behind the interactive prompt.
use vstd::prelude::*;

use crate::text::push_char;

verus! {

/// Mathematical model of the edit buffer: one logical line split at the
/// cursor.  The visible line is `left + right` and the cursor position is
/// `left.len()`.
pub struct PromptView {
    pub left: Seq<char>,
    pub right: Seq<char>,
}

/// Effect of `add_char`: the character is inserted at the cursor.
pub open spec fn prompt_add(p: PromptView, c: char) -> PromptView {
    PromptView { left: p.left.push(c), right: p.right }
}

/// Effect of `move_left_one`: the character just left of the cursor moves to
/// the right sequence; a no-op at the start of the line.
pub open spec fn prompt_move_left(p: PromptView) -> PromptView {
    if p.left.len() == 0 {
        p
    } else {
        PromptView { left: p.left.drop_last(), right: seq![p.left.last()] + p.right }
    }
}

/// Effect of `move_right_one`: the character just right of the cursor moves
/// to the left sequence; a no-op at the end of the line.
pub open spec fn prompt_move_right(p: PromptView) -> PromptView {
    if p.right.len() == 0 {
        p
    } else {
        PromptView { left: p.left.push(p.right[0]), right: p.right.drop_first() }
    }
}

/// Effect of `backspace_one`: the character just left of the cursor is
/// removed; a no-op at the start of the line.
pub open spec fn prompt_backspace(p: PromptView) -> PromptView {
    if p.left.len() == 0 {
        p
    } else {
        PromptView { left: p.left.drop_last(), right: p.right }
    }
}

/// Effect of `delete_one`: the character just right of the cursor is removed;
/// a no-op at the end of the line.
pub open spec fn prompt_delete(p: PromptView) -> PromptView {
    if p.right.len() == 0 {
        p
    } else {
        PromptView { left: p.left, right: p.right.drop_first() }
    }
}

/// `n` cursor moves to the left.
pub open spec fn prompt_move_left_n(p: PromptView, n: nat) -> PromptView
    decreases n,
{
    if n == 0 {
        p
    } else {
        prompt_move_left_n(prompt_move_left(p), (n - 1) as nat)
    }
}

/// `n` cursor moves to the right.
pub open spec fn prompt_move_right_n(p: PromptView, n: nat) -> PromptView
    decreases n,
{
    if n == 0 {
        p
    } else {
        prompt_move_right_n(prompt_move_right(p), (n - 1) as nat)
    }
}

/// The edit buffer: two character sequences split at the cursor, so that
/// insertion, deletion and cursor movement are cheap at the cursor.
pub struct Prompt {
    left: std::collections::VecDeque<char>,
    right: std::collections::VecDeque<char>,
}

impl View for Prompt {
    type V = PromptView;

    closed spec fn view(&self) -> PromptView {
        PromptView { left: self.left@, right: self.right@ }
    }
}

impl Prompt {
    pub fn new() -> (r: Prompt)
        ensures
            r@.left.len() == 0,
            r@.right.len() == 0,
    {
        Prompt {
            left: std::collections::VecDeque::new(),
            right: std::collections::VecDeque::new(),
        }
    }

    /// A buffer holding a recalled line, with the cursor at the end of it.
    pub fn from_history(source: &str) -> (r: Prompt)
        ensures
            r@ == (PromptView { left: source@, right: Seq::empty() }),
    {
        let mut left: std::collections::VecDeque<char> = std::collections::VecDeque::new();
        let n = source.unicode_len();
        let mut i: usize = 0;
        while i < n
            invariant
                n == source@.len(),
                i <= n,
                left@ =~= source@.subrange(0, i as int),
            decreases n - i,
        {
            left.push_back(source.get_char(i));
            i = i + 1;
        }
        proof {
            assert(left@ =~= source@);
        }
        let r = Prompt { left, right: std::collections::VecDeque::new() };
        proof {
            assert(r@.right =~= Seq::<char>::empty());
        }
        r
    }

    pub fn add_char(&mut self, c: char)
        ensures
            final(self)@ == prompt_add(old(self)@, c),
    {
        self.left.push_back(c);
    }

    pub fn move_left_one(&mut self)
        ensures
            final(self)@ == prompt_move_left(old(self)@),
    {
        if let Some(c) = self.left.pop_back() {
            self.right.push_front(c);
            proof {
                assert(self@.right =~= prompt_move_left(old(self)@).right);
            }
        }
    }

    pub fn move_right_one(&mut self)
        ensures
            final(self)@ == prompt_move_right(old(self)@),
    {
        if let Some(c) = self.right.pop_front() {
            self.left.push_back(c);
            proof {
                assert(self@.left =~= prompt_move_right(old(self)@).left);
            }
        }
    }

    pub fn backspace_one(&mut self)
        ensures
            final(self)@ == prompt_backspace(old(self)@),
    {
        let _ = self.left.pop_back();
        proof {
            if old(self)@.left.len() > 0 {
                assert(self@.left =~= prompt_backspace(old(self)@).left);
            }
        }
    }

    pub fn delete_one(&mut self)
        ensures
            final(self)@ == prompt_delete(old(self)@),
    {
        let _ = self.right.pop_front();
        proof {
            if old(self)@.right.len() > 0 {
                assert(self@.right =~= prompt_delete(old(self)@).right);
            }
        }
    }

    /// The cursor position: the length of the left sequence.
    pub fn cursor(&self) -> (r: usize)
        ensures
            r == self@.left.len(),
    {
        self.left.len()
    }

    /// The logical line being edited: left and right sequences concatenated.
    pub fn build(&self) -> (r: String)
        ensures
            r@ == self@.left + self@.right,
    {
        let mut out = String::new();
        let mut i: usize = 0;
        let nl = self.left.len();
        while i < nl
            invariant
                nl == self@.left.len(),
                i <= nl,
                out@ =~= self@.left.subrange(0, i as int),
            decreases nl - i,
        {
            push_char(&mut out, self.left[i]);
            proof {
                assert(out@ =~= self@.left.subrange(0, i + 1 as int));
            }
            i = i + 1;
        }
        let mut j: usize = 0;
        let nr = self.right.len();
        while j < nr
            invariant
                nr == self@.right.len(),
                j <= nr,
                out@ =~= self@.left + self@.right.subrange(0, j as int),
            decreases nr - j,
        {
            push_char(&mut out, self.right[j]);
            proof {
                assert(out@ =~= self@.left + self@.right.subrange(0, j + 1 as int));
            }
            j = j + 1;
        }
        proof {
            assert(out@ =~= self@.left + self@.right);
        }
        out
    }
}

/// After `n` left-moves, the last `min(n, left.len())` characters of the left
/// sequence stand at the front of the right sequence and the rest is
/// unchanged.
proof fn lemma_move_left_n(p: PromptView, n: nat)
    ensures
        ({
            let k: nat = if n <= p.left.len() {
                n
            } else {
                p.left.len()
            };
            prompt_move_left_n(p, n) == (PromptView {
                left: p.left.subrange(0, p.left.len() - k),
                right: p.left.subrange(p.left.len() - k, p.left.len() as int) + p.right,
            })
        }),
    decreases n,
{
    let l = p.left.len() as int;
    if n == 0 {
        assert(p.left.subrange(0, l) =~= p.left);
        assert(p.left.subrange(l, l) + p.right =~= p.right);
    } else if p.left.len() == 0 {
        lemma_move_left_n(p, (n - 1) as nat);
        assert(p.left.subrange(0, 0) =~= p.left);
    } else {
        let p1 = prompt_move_left(p);
        lemma_move_left_n(p1, (n - 1) as nat);
        let k: nat = if n <= p.left.len() {
            n
        } else {
            p.left.len()
        };
        let k1: nat = (k - 1) as nat;
        assert(p1.left =~= p.left.subrange(0, l - 1));
        assert(p1.right =~= p.left.subrange(l - 1, l) + p.right);
        assert(p1.left.subrange(0, p1.left.len() - k1) =~= p.left.subrange(0, l - k));
        assert(p1.left.subrange(p1.left.len() - k1, p1.left.len() as int) + p1.right =~= p.left.subrange(l - k, l) + p.right);
    }
}

/// After `n` right-moves, the first `min(n, right.len())` characters of the
/// right sequence stand at the end of the left sequence and the rest is
/// unchanged.
proof fn lemma_move_right_n(p: PromptView, n: nat)
    ensures
        ({
            let m: nat = if n <= p.right.len() {
                n
            } else {
                p.right.len()
            };
            prompt_move_right_n(p, n) == (PromptView {
                left: p.left + p.right.subrange(0, m as int),
                right: p.right.subrange(m as int, p.right.len() as int),
            })
        }),
    decreases n,
{
    let r = p.right.len() as int;
    if n == 0 {
        assert(p.left + p.right.subrange(0, 0) =~= p.left);
        assert(p.right.subrange(0, r) =~= p.right);
    } else if p.right.len() == 0 {
        lemma_move_right_n(p, (n - 1) as nat);
        assert(p.left + p.right.subrange(0, 0) =~= p.left);
        assert(p.right.subrange(0, 0) =~= p.right);
    } else {
        let p1 = prompt_move_right(p);
        lemma_move_right_n(p1, (n - 1) as nat);
        let m: nat = if n <= p.right.len() {
            n
        } else {
            p.right.len()
        };
        let m1: nat = (m - 1) as nat;
        assert(p1.left =~= p.left + p.right.subrange(0, 1));
        assert(p1.right =~= p.right.subrange(1, r));
        assert(p1.left + p1.right.subrange(0, m1 as int) =~= p.left + p.right.subrange(0, m as int));
        assert(p1.right.subrange(m1 as int, p1.right.len() as int) =~= p.right.subrange(m as int, r));
    }
}

/// Round trip of cursor movement: a buffer reached by insertions alone has an
/// empty right sequence, and from any such buffer, `n` left-moves followed by
/// `n` right-moves restore both the contents and the cursor position, for
/// every `n`.
pub proof fn lemma_edit_roundtrip(p: PromptView, n: nat)
    requires
        p.right.len() == 0,
    ensures
        prompt_move_right_n(prompt_move_left_n(p, n), n) == p,
{
    let l = p.left.len() as int;
    let k: nat = if n <= p.left.len() {
        n
    } else {
        p.left.len()
    };
    lemma_move_left_n(p, n);
    let q = prompt_move_left_n(p, n);
    assert(q.right =~= p.left.subrange(l - k, l));
    lemma_move_right_n(q, n);
    assert(q.left + q.right.subrange(0, k as int) =~= p.left);
    assert(q.right.subrange(k as int, k as int) =~= p.right);
}

} // verus!

//! The live view: each symbol keeps one terminal line for the whole session,
//! and each batch is drawn with the fewest cursor moves.

use vstd::prelude::*;
use crate::quote::Quote;

verus! {

/// One terminal operation of the live view.
#[derive(Debug, Clone, Copy, PartialEq, Eq, Structural)]
pub enum RenderOp {
    /// Move the cursor to the start of the line `n` lines up.
    Up(usize),
    /// Move the cursor to the start of the line `n` lines down.
    Down(usize),
    /// Clear the line the cursor is on.
    ClearLine,
    /// Print the quote at this index of the batch, ending the line.
    Write(usize),
    /// Flush the output.
    Flush,
}

/// The state of a live view: the symbol on each line, in line order, the
/// line last written, whether any line was written yet, and whether a lone
/// first quote is printed plainly.
pub struct RenderState {
    pub lines: Seq<Seq<char>>,
    pub cursor: int,
    pub written: bool,
    pub multiline: bool,
}

/// The live view of a streaming session.
pub struct LiveRender {
    multiline: bool,
    written: bool,
    cursor: usize,
    lines: Vec<String>,
}

pub open spec fn symbols_of(batch: Seq<Quote>) -> Seq<Seq<char>> {
    batch.map_values(|q: Quote| q.symbol@)
}

/// The line a symbol is drawn on: the one it holds, or the next free one.
pub open spec fn line_of(lines: Seq<Seq<char>>, sym: Seq<char>) -> int {
    if lines.contains(sym) {
        lines.index_of(sym)
    } else {
        lines.len() as int
    }
}

/// The lines once a symbol has one.
pub open spec fn place(lines: Seq<Seq<char>>, sym: Seq<char>) -> Seq<Seq<char>> {
    if lines.contains(sym) {
        lines
    } else {
        lines.push(sym)
    }
}

/// The moves from just below line `cursor` to the start of line `l`.
pub open spec fn moves(written: bool, cursor: int, l: int) -> Seq<RenderOp> {
    if !written {
        Seq::empty()
    } else if cursor >= l {
        seq![RenderOp::Up((cursor - l + 1) as usize)]
    } else if l > cursor + 1 {
        seq![RenderOp::Down((l - cursor - 1) as usize)]
    } else {
        Seq::empty()
    }
}

/// Drawing the quote at index `i` of a batch, whose symbol is `sym`.
pub open spec fn draw_one(st: RenderState, sym: Seq<char>, i: int) -> (RenderState, Seq<RenderOp>) {
    let l = line_of(st.lines, sym);
    (
        RenderState { lines: place(st.lines, sym), cursor: l, written: true, multiline: st.multiline },
        moves(st.written, st.cursor, l) + seq![RenderOp::ClearLine, RenderOp::Write(i as usize)],
    )
}

/// Drawing the quotes of a batch, in order.
pub open spec fn draw_all(st: RenderState, syms: Seq<Seq<char>>) -> (RenderState, Seq<RenderOp>)
    decreases syms.len(),
{
    if syms.len() == 0 {
        (st, Seq::empty())
    } else {
        let (s1, o1) = draw_all(st, syms.drop_last());
        let (s2, o2) = draw_one(s1, syms.last(), syms.len() - 1);
        (s2, o1 + o2)
    }
}

/// What a batch does to the view: a lone first quote in multi-line mode is
/// printed plainly and leaves the view as it was; any other batch is drawn
/// and flushed.
pub open spec fn render_batch(st: RenderState, syms: Seq<Seq<char>>) -> (RenderState, Seq<RenderOp>) {
    if st.multiline && syms.len() == 1 && !st.written {
        (st, seq![RenderOp::Write(0)])
    } else {
        let (s, o) = draw_all(st, syms);
        (s, o.push(RenderOp::Flush))
    }
}

/// No symbol holds two lines, the cursor rests on a line once one is
/// written, and none is before.
pub open spec fn state_wf(st: RenderState) -> bool {
    &&& forall|i: int, j: int| 0 <= i < j < st.lines.len() ==> st.lines[i] != st.lines[j]
    &&& st.written ==> 0 <= st.cursor < st.lines.len()
    &&& !st.written ==> st.lines.len() == 0 && st.cursor == 0
}

pub open spec fn strings_view(v: Seq<String>) -> Seq<Seq<char>> {
    v.map_values(|s: String| s@)
}

impl View for LiveRender {
    type V = RenderState;

    closed spec fn view(&self) -> RenderState {
        RenderState {
            lines: strings_view(self.lines@),
            cursor: self.cursor as int,
            written: self.written,
            multiline: self.multiline,
        }
    }
}

proof fn lemma_index_of(s: Seq<Seq<char>>, x: Seq<char>)
    requires
        s.contains(x),
    ensures
        0 <= s.index_of(x) < s.len(),
        s[s.index_of(x)] == x,
{
}

proof fn lemma_draw_one_wf(st: RenderState, sym: Seq<char>, i: int)
    requires
        state_wf(st),
    ensures
        state_wf(draw_one(st, sym, i).0),
        draw_one(st, sym, i).0.multiline == st.multiline,
{
    let lines = st.lines;
    if lines.contains(sym) {
        lemma_index_of(lines, sym);
    } else {
        let p = lines.push(sym);
        assert forall|a: int, b: int| 0 <= a < b < p.len() implies p[a] != p[b] by {
            if b == lines.len() {
                assert(p[a] == lines[a]);
            }
        }
    }
}

impl LiveRender {
    pub open spec fn wf(&self) -> bool {
        state_wf(self@)
    }

    /// A view with no line drawn yet.
    pub fn new(multiline: bool) -> (r: LiveRender)
        ensures
            r.wf(),
            r@.lines.len() == 0,
            !r@.written,
            r@.multiline == multiline,
    {
        LiveRender { multiline, written: false, cursor: 0, lines: Vec::new() }
    }

    /// The symbol on each line, in line order.
    pub fn lines(&self) -> (r: &Vec<String>)
        ensures
            strings_view(r@) == self@.lines,
    {
        &self.lines
    }

    /// The line last written; meaningful once a line is written.
    pub fn cursor(&self) -> (r: usize)
        ensures
            r == self@.cursor,
    {
        self.cursor
    }

    fn line_for(&self, sym: &String) -> (r: usize)
        requires
            self.wf(),
        ensures
            r == line_of(self@.lines, sym@),
    {
        let mut i: usize = 0;
        while i < self.lines.len()
            invariant
                i <= self.lines@.len(),
                self.wf(),
                forall|j: int| 0 <= j < i ==> strings_view(self.lines@)[j] != sym@,
            decreases self.lines.len() - i,
        {
            if self.lines[i] == *sym {
                proof {
                    let ls = self@.lines;
                    assert(ls[i as int] == sym@);
                    lemma_index_of(ls, sym@);
                    let k = ls.index_of(sym@);
                    assert(k == i) by {
                        if k < i {
                            assert(ls[k] != sym@);
                        } else if k > i {
                            assert(ls[i as int] != ls[k]);
                        }
                    }
                }
                return i;
            }
            i = i + 1;
        }
        proof {
            let ls = self@.lines;
            if ls.contains(sym@) {
                let k = choose|k: int| 0 <= k < ls.len() && ls[k] == sym@;
                assert(ls[k] != sym@);
            }
        }
        i
    }

    /// Draws one batch: each quote goes to its symbol's line, a new symbol
    /// to the next free line, and the cursor moves the least it can between
    /// them. Returns the operations in the order they are to be performed.
    pub fn render(&mut self, batch: &Vec<Quote>) -> (r: Vec<RenderOp>)
        requires
            old(self).wf(),
        ensures
            final(self).wf(),
            (final(self)@, r@) == render_batch(old(self)@, symbols_of(batch@)),
    {
        let mut ops: Vec<RenderOp> = Vec::new();
        if self.multiline && batch.len() == 1 && !self.written {
            ops.push(RenderOp::Write(0));
            proof {
                assert(ops@ =~= seq![RenderOp::Write(0)]);
            }
            return ops;
        }
        let ghost syms = symbols_of(batch@);
        let mut i: usize = 0;
        proof {
            assert(syms.take(0) =~= Seq::<Seq<char>>::empty());
            assert(ops@ =~= Seq::<RenderOp>::empty());
        }
        while i < batch.len()
            invariant
                i <= batch@.len(),
                syms == symbols_of(batch@),
                self.wf(),
                (self@, ops@) == draw_all(old(self)@, syms.take(i as int)),
            decreases batch.len() - i,
        {
            let sym = &batch[i].symbol;
            let l = self.line_for(sym);
            let ghost before = self@;
            let ghost ops_before = ops@;
            if self.written {
                let n = self.lines.len();
                assert(self.cursor < n);
                if self.cursor >= l {
                    ops.push(RenderOp::Up((self.cursor - l) + 1));
                } else if l > self.cursor + 1 {
                    ops.push(RenderOp::Down(l - self.cursor - 1));
                }
            }
            ops.push(RenderOp::ClearLine);
            ops.push(RenderOp::Write(i));
            if l == self.lines.len() {
                self.lines.push(sym.clone());
            }
            self.cursor = l;
            self.written = true;
            proof {
                lemma_draw_one_wf(before, sym@, i as int);
                let t = syms.take(i + 1);
                assert(t.drop_last() =~= syms.take(i as int));
                assert(t.last() == sym@);
                let (s2, o2) = draw_one(before, sym@, i as int);
                assert(ops@ =~= ops_before + o2);
                if !before.lines.contains(sym@) {
                    assert(self@.lines =~= before.lines.push(sym@));
                } else {
                    lemma_index_of(before.lines, sym@);
                    assert(self@.lines =~= before.lines);
                }
                assert(self@ == s2);
            }
            i = i + 1;
        }
        ops.push(RenderOp::Flush);
        proof {
            assert(syms.take(batch@.len() as int) =~= syms);
        }
        ops
    }
}

/// The lines once each symbol of `syms`, in order, has one.
pub open spec fn first_appearances(lines: Seq<Seq<char>>, syms: Seq<Seq<char>>) -> Seq<Seq<char>>
    decreases syms.len(),
{
    if syms.len() == 0 {
        lines
    } else {
        place(first_appearances(lines, syms.drop_last()), syms.last())
    }
}

/// All the symbols of a sequence of batches, in delivery order.
pub open spec fn flatten(batches: Seq<Seq<Seq<char>>>) -> Seq<Seq<char>>
    decreases batches.len(),
{
    if batches.len() == 0 {
        Seq::empty()
    } else {
        flatten(batches.drop_last()) + batches.last()
    }
}

/// The view after a sequence of batches.
pub open spec fn session_state(st: RenderState, batches: Seq<Seq<Seq<char>>>) -> RenderState
    decreases batches.len(),
{
    if batches.len() == 0 {
        st
    } else {
        render_batch(session_state(st, batches.drop_last()), batches.last()).0
    }
}

proof fn lemma_draw_all_lines(st: RenderState, syms: Seq<Seq<char>>)
    ensures
        draw_all(st, syms).0.lines == first_appearances(st.lines, syms),
        draw_all(st, syms).0.multiline == st.multiline,
    decreases syms.len(),
{
    if syms.len() > 0 {
        lemma_draw_all_lines(st, syms.drop_last());
    }
}

proof fn lemma_first_appearances_concat(lines: Seq<Seq<char>>, x: Seq<Seq<char>>, y: Seq<Seq<char>>)
    ensures
        first_appearances(lines, x + y) == first_appearances(first_appearances(lines, x), y),
    decreases y.len(),
{
    if y.len() == 0 {
        assert(x + y =~= x);
    } else {
        lemma_first_appearances_concat(lines, x, y.drop_last());
        assert((x + y).drop_last() =~= x + y.drop_last());
        assert((x + y).last() == y.last());
    }
}

/// Outside multi-line mode, the symbol on each line is fixed by first
/// appearance alone: the lines of a session are its symbols in the order in
/// which each first arrived, over all batches, whatever order each batch
/// held them in, and a line once given is never changed.
pub proof fn lemma_session_lines(st: RenderState, batches: Seq<Seq<Seq<char>>>)
    requires
        !st.multiline,
    ensures
        session_state(st, batches).lines == first_appearances(st.lines, flatten(batches)),
        !session_state(st, batches).multiline,
    decreases batches.len(),
{
    if batches.len() > 0 {
        let front = batches.drop_last();
        lemma_session_lines(st, front);
        let mid = session_state(st, front);
        lemma_draw_all_lines(mid, batches.last());
        lemma_first_appearances_concat(st.lines, flatten(front), batches.last());
    }
}

proof fn lemma_first_appearances_placed(lines: Seq<Seq<char>>, syms: Seq<Seq<char>>)
    requires
        forall|i: int| 0 <= i < syms.len() ==> lines.contains(#[trigger] syms[i]),
    ensures
        first_appearances(lines, syms) == lines,
    decreases syms.len(),
{
    if syms.len() > 0 {
        let front = syms.drop_last();
        assert forall|i: int| 0 <= i < front.len() implies lines.contains(#[trigger] front[i]) by {
            assert(front[i] == syms[i]);
        }
        lemma_first_appearances_placed(lines, front);
        assert(lines.contains(syms[syms.len() - 1]));
    }
}

/// Two batches that hold the same symbols, each of which already has a line,
/// leave the lines the same whatever order either batch holds them in.
pub proof fn lemma_lines_independent_of_order(st: RenderState, a: Seq<Seq<char>>, b: Seq<Seq<char>>)
    requires
        state_wf(st),
        forall|x: Seq<char>| a.contains(x) <==> b.contains(x),
        forall|i: int| 0 <= i < a.len() ==> st.lines.contains(#[trigger] a[i]),
    ensures
        render_batch(st, a).0.lines == render_batch(st, b).0.lines,
        render_batch(st, a).0.lines == st.lines,
{
    assert forall|i: int| 0 <= i < b.len() implies st.lines.contains(#[trigger] b[i]) by {
        assert(b.contains(b[i]));
        assert(a.contains(b[i]));
        let k = choose|k: int| 0 <= k < a.len() && a[k] == b[i];
        assert(st.lines.contains(a[k]));
    }
    lemma_draw_all_lines(st, a);
    lemma_draw_all_lines(st, b);
    lemma_first_appearances_placed(st.lines, a);
    lemma_first_appearances_placed(st.lines, b);
}

} // verus!

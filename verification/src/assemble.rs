//! Putting the segments' temporary files together.
use vstd::prelude::*;

use crate::part::{max_int, Part};

verus! {

/// What a part contributes to the file: where it starts and how many bytes it has read.
pub open spec fn piece(p: Part) -> (i64, i64) {
    (p.from, max_int(p.current - p.from, 0) as i64)
}

/// The pieces of the parts, in the order of the parts.
pub open spec fn pieces(parts: Seq<Part>) -> Seq<(i64, i64)> {
    parts.map_values(|p: Part| piece(p))
}

/// Item `a`, which stood at position `i`, goes before item `b`, which stood at position `j`.
pub open spec fn goes_before(a: (i64, i64), i: int, b: (i64, i64), j: int) -> bool {
    a.0 < b.0 || (a.0 == b.0 && i < j)
}

/// `order` lists every position of `input` once, by key, and positions with the same
/// key as they stand; `output` is `input` in that order.
pub open spec fn stable_order(
    input: Seq<(i64, i64)>,
    output: Seq<(i64, i64)>,
    order: Seq<int>,
) -> bool {
    &&& output.len() == input.len()
    &&& order.len() == input.len()
    &&& forall|j: int|
        0 <= j < order.len() ==> 0 <= #[trigger] order[j] < input.len() && output[j]
            == input[order[j]]
    &&& forall|j: int, k: int|
        0 <= j < k < output.len() ==> goes_before(
            #[trigger] output[j],
            order[j],
            #[trigger] output[k],
            order[k],
        )
    &&& forall|i: int| 0 <= i < input.len() ==> #[trigger] order.contains(i)
}

/// `output` is `input` sorted by the first component, equal ones left in order.
pub open spec fn sorted_stably(input: Seq<(i64, i64)>, output: Seq<(i64, i64)>) -> bool {
    exists|order: Seq<int>| stable_order(input, output, order)
}

/// Inserting the next item behind all items with the same or a smaller key extends a
/// stable order by one.
proof fn lemma_insert_keeps_order(
    input: Seq<(i64, i64)>,
    output: Seq<(i64, i64)>,
    order: Seq<int>,
    n: int,
    pos: int,
)
    requires
        0 <= n < input.len(),
        stable_order(input.take(n), output, order),
        0 <= pos <= n,
        forall|j: int| 0 <= j < pos ==> output[j].0 <= input[n].0,
        forall|j: int| pos <= j < n ==> output[j].0 > input[n].0,
    ensures
        stable_order(input.take(n + 1), output.insert(pos, input[n]), order.insert(pos, n)),
{
    let before = input.take(n);
    let after = input.take(n + 1);
    let out2 = output.insert(pos, input[n]);
    let ord2 = order.insert(pos, n);
    assert(before.len() == n && output.len() == n && order.len() == n);
    assert(after.len() == n + 1);
    assert(out2.len() == n + 1);
    assert(ord2.len() == n + 1);
    assert forall|j: int| 0 <= j < ord2.len() implies 0 <= #[trigger] ord2[j] < after.len()
        && out2[j] == after[ord2[j]] by {
        if j < pos {
            assert(ord2[j] == order[j]);
            assert(out2[j] == output[j]);
        } else if j > pos {
            assert(ord2[j] == order[j - 1]);
            assert(out2[j] == output[j - 1]);
        }
    }
    assert forall|j: int, k: int| 0 <= j < k < out2.len() implies goes_before(
        #[trigger] out2[j],
        ord2[j],
        #[trigger] out2[k],
        ord2[k],
    ) by {
        let oj = if j < pos {
            j
        } else {
            j - 1
        };
        let ok = if k < pos {
            k
        } else {
            k - 1
        };
        if j == pos {
            assert(out2[k] == output[ok]);
        } else if k == pos {
            assert(out2[j] == output[oj]);
            assert(ord2[j] == order[oj]);
        } else {
            assert(out2[j] == output[oj] && out2[k] == output[ok]);
            assert(ord2[j] == order[oj] && ord2[k] == order[ok]);
        }
    }
    assert forall|i: int| 0 <= i < after.len() implies #[trigger] ord2.contains(i) by {
        if i == n {
            assert(ord2[pos] == n);
        } else {
            assert(order.contains(i));
            let j = choose|j: int| 0 <= j < order.len() && order[j] == i;
            if j < pos {
                assert(ord2[j] == i);
            } else {
                assert(ord2[j + 1] == i);
            }
        }
    }
}

/// The starts and lengths to assemble, in the order of the starts.
pub fn parts_for_assemble(parts: &[Part]) -> (v: Vec<(i64, i64)>)
    requires
        forall|i: int|
            0 <= i < parts@.len() ==> i64::MIN <= (#[trigger] parts@[i]).current - parts@[i].from
                <= i64::MAX,
    ensures
        sorted_stably(pieces(parts@), v@),
{
    let mut v: Vec<(i64, i64)> = Vec::new();
    let ghost mut order: Seq<int> = Seq::empty();
    let ghost input = pieces(parts@);
    let mut n: usize = 0;
    assert(stable_order(input.take(0), v@, order));
    while n < parts.len()
        invariant
            n <= parts@.len(),
            input == pieces(parts@),
            v@.len() == n,
            stable_order(input.take(n as int), v@, order),
            forall|i: int|
                0 <= i < parts@.len() ==> i64::MIN <= (#[trigger] parts@[i]).current
                    - parts@[i].from <= i64::MAX,
        decreases parts@.len() - n,
    {
        let p = parts[n];
        let read: i64 = p.current - p.from;
        let item: (i64, i64) = (p.from, if read >= 0 { read } else { 0 });
        assert(item == input[n as int]);
        let mut pos: usize = n;
        while pos > 0 && v[pos - 1].0 > item.0
            invariant
                pos <= n,
                v@.len() == n,
                forall|j: int| pos <= j < n ==> v@[j].0 > item.0,
            decreases pos,
        {
            pos = pos - 1;
        }
        proof {
            assert forall|j: int| 0 <= j < pos implies v@[j].0 <= input[n as int].0 by {
                if j < pos - 1 {
                    assert(goes_before(v@[j], order[j], v@[pos - 1], order[pos - 1]));
                    assert(v@[j].0 <= v@[pos - 1].0);
                }
            }
            lemma_insert_keeps_order(input, v@, order, n as int, pos as int);
            order = order.insert(pos as int, n as int);
        }
        v.insert(pos, item);
        n = n + 1;
    }
    assert(input.take(n as int) =~= input);
    v
}

/// How the file is put together.
#[derive(Debug, Clone)]
pub enum Assembly {
    /// The temporary file of the part that starts at `from` becomes the file as it is.
    Rename { from: i64 },
    /// The first `length` bytes of each named temporary file, one behind the other.
    Concat { pieces: Vec<(i64, i64)> },
}

/// The pieces that hold at least one byte.
pub open spec fn nonempty_pieces(pieces: Seq<(i64, i64)>) -> Seq<(i64, i64)> {
    pieces.filter(|x: (i64, i64)| x.1 > 0)
}

/// A single piece that starts the file and is all that its temporary file holds needs no
/// copying. `first_len` is the length of the first piece's temporary file.
pub open spec fn needs_no_copy(parts: Seq<(i64, i64)>, first_len: Option<i64>) -> bool {
    parts.len() == 1 && parts[0].0 == 0 && first_len == Some(parts[0].1)
}

/// Decides how to put the pieces together: a temporary file that is exactly the file is
/// renamed; otherwise the bytes of each piece, and no others, are copied in order.
/// `first_len` is the length of the first piece's temporary file, if there is one.
pub fn assembly_plan(parts: &[(i64, i64)], first_len: Option<i64>) -> (plan: Assembly)
    ensures
        match plan {
            Assembly::Rename { from } => needs_no_copy(parts@, first_len) && from == 0,
            Assembly::Concat { pieces } => !needs_no_copy(parts@, first_len) && pieces@
                == nonempty_pieces(parts@),
        },
{
    if parts.len() == 1 && parts[0].0 == 0 {
        if let Some(len) = first_len {
            if len == parts[0].1 {
                return Assembly::Rename { from: parts[0].0 };
            }
        }
    }
    let mut kept: Vec<(i64, i64)> = Vec::new();
    let mut i: usize = 0;
    assert(nonempty_pieces(parts@.take(0)) =~= Seq::empty()) by {
        reveal(Seq::filter);
    }
    while i < parts.len()
        invariant
            i <= parts@.len(),
            kept@ == nonempty_pieces(parts@.take(i as int)),
        decreases parts@.len() - i,
    {
        proof {
            reveal(Seq::filter);
            assert(parts@.take(i + 1).drop_last() =~= parts@.take(i as int));
            assert(parts@.take(i + 1).last() == parts@[i as int]);
        }
        if parts[i].1 > 0 {
            kept.push(parts[i]);
        }
        i = i + 1;
    }
    assert(parts@.take(parts@.len() as int) =~= parts@);
    Assembly::Concat { pieces: kept }
}

/// Copying one piece: how many of its bytes are still to be copied.
#[derive(Debug, Clone, Copy)]
pub struct PieceCopy {
    pub remaining: i64,
}

impl PieceCopy {
    pub fn new(length: i64) -> (c: Self)
        ensures
            c.remaining == length,
    {
        PieceCopy { remaining: length }
    }

    /// How many bytes to read next into a buffer of `buffer` bytes: never more than are
    /// still to be copied; `None` when the piece is complete.
    pub fn want(&self, buffer: usize) -> (w: Option<usize>)
        requires
            buffer <= i64::MAX,
        ensures
            w is None <==> self.remaining <= 0,
            w matches Some(n) ==> n == (if self.remaining < buffer {
                self.remaining as int
            } else {
                buffer as int
            }),
    {
        if self.remaining <= 0 {
            None
        } else if self.remaining < buffer as i64 {
            Some(self.remaining as usize)
        } else {
            Some(buffer)
        }
    }

    /// Notes that `n` bytes were read and written; returns whether to go on. A read of
    /// nothing means that the temporary file ends here.
    pub fn copied(&mut self, n: usize) -> (more: bool)
        requires
            n <= i64::MAX,
            old(self).remaining - n >= i64::MIN,
        ensures
            final(self).remaining == old(self).remaining - n,
            more == (n > 0 && final(self).remaining > 0),
    {
        self.remaining = self.remaining - n as i64;
        n > 0 && self.remaining > 0
    }
}

/// Writing a buffer at an offset of a file, piece by piece, until all of it is written.
#[derive(Debug)]
pub struct WriteAt {
    /// the length of the buffer
    pub len: usize,
    /// where the buffer belongs
    pub start: u64,
    /// how much of it has been written
    pub written: usize,
}

impl WriteAt {
    pub open spec fn wf(self) -> bool {
        self.written <= self.len && self.start + self.len <= u64::MAX
    }

    pub fn new(len: usize, start: u64) -> (w: Self)
        requires
            start + len <= u64::MAX,
        ensures
            w.wf(),
            w.len == len,
            w.start == start,
            w.written == 0,
    {
        WriteAt { len, start, written: 0 }
    }

    /// What to write next: the rest of the buffer from the first position on, at the
    /// second position of the file. `None` when everything is written.
    pub fn next(&self) -> (r: Option<(usize, u64)>)
        requires
            self.wf(),
        ensures
            r is None <==> self.written == self.len,
            r matches Some((at, offset)) ==> at == self.written && offset == self.start
                + self.written,
    {
        if self.written < self.len {
            Some((self.written, self.start + self.written as u64))
        } else {
            None
        }
    }

    /// Takes note that `n` bytes were written; returns whether that is progress at all.
    pub fn wrote(&mut self, n: usize) -> (progress: bool)
        requires
            old(self).wf(),
            old(self).written + n <= old(self).len,
        ensures
            final(self).wf(),
            *final(self) == (WriteAt { written: (old(self).written + n) as usize, ..*old(self) }),
            progress == (n > 0),
    {
        self.written = self.written + n;
        n > 0
    }
}

// ---------------------------------------------------------------- laws

/// A part contributes its start and as many bytes as it has read.
pub proof fn law_piece_of_a_part(parts: Seq<Part>, i: int)
    requires
        0 <= i < parts.len(),
        parts[i].current - parts[i].from <= i64::MAX,
    ensures
        pieces(parts).len() == parts.len(),
        pieces(parts)[i].0 == parts[i].from,
        parts[i].current >= parts[i].from ==> pieces(parts)[i].1 == parts[i].current
            - parts[i].from,
        parts[i].current < parts[i].from ==> pieces(parts)[i].1 == 0,
{
}

/// Pieces are put in the order of their starts: none is lost, none is added, and each
/// starts no earlier than the one before it.
pub proof fn law_pieces_are_sorted(input: Seq<(i64, i64)>, output: Seq<(i64, i64)>)
    requires
        sorted_stably(input, output),
    ensures
        output.len() == input.len(),
        forall|j: int, k: int|
            0 <= j < k < output.len() ==> (#[trigger] output[j]).0 <= (#[trigger] output[k]).0,
        forall|i: int| 0 <= i < input.len() ==> output.contains(#[trigger] input[i]),
        forall|j: int| 0 <= j < output.len() ==> input.contains(#[trigger] output[j]),
{
    let order = choose|order: Seq<int>| stable_order(input, output, order);
    assert forall|j: int, k: int| 0 <= j < k < output.len() implies (#[trigger] output[j]).0 <= (
    #[trigger] output[k]).0 by {
        assert(goes_before(output[j], order[j], output[k], order[k]));
    }
    assert forall|i: int| 0 <= i < input.len() implies output.contains(#[trigger] input[i]) by {
        assert(order.contains(i));
        let j = choose|j: int| 0 <= j < order.len() && order[j] == i;
        assert(output[j] == input[i]);
    }
    assert forall|j: int| 0 <= j < output.len() implies input.contains(#[trigger] output[j]) by {
        assert(0 <= order[j] < input.len());
        assert(output[j] == input[order[j]]);
    }
}

/// Pieces that hold something are copied, in order; empty ones are left out.
pub proof fn law_empty_pieces_are_left_out(v: Seq<(i64, i64)>, x: (i64, i64))
    ensures
        nonempty_pieces(Seq::empty()) == Seq::<(i64, i64)>::empty(),
        x.1 > 0 ==> nonempty_pieces(v.push(x)) == nonempty_pieces(v).push(x),
        x.1 <= 0 ==> nonempty_pieces(v.push(x)) == nonempty_pieces(v),
{
    reveal(Seq::filter);
    assert(v.push(x).drop_last() =~= v);
    assert(nonempty_pieces(Seq::empty()) =~= Seq::<(i64, i64)>::empty());
}

/// A temporary file is renamed only if it is the only one, starts the file, and is exactly
/// as long as its piece.
pub proof fn law_only_a_whole_file_is_renamed(parts: Seq<(i64, i64)>, first_len: Option<i64>)
    ensures
        needs_no_copy(parts, first_len) <==> parts.len() == 1 && parts[0].0 == 0 && (
        first_len matches Some(n) && n == parts[0].1),
{
}

} // verus!

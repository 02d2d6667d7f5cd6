//! What the temporary files hold, and what comes out when they are put together.
use vstd::prelude::*;

use crate::assemble::{
    goes_before, needs_no_copy, nonempty_pieces, piece, pieces, sorted_stably, stable_order,
};
use crate::part::Part;
use crate::tiling::{after_split, apart, covered, holds, law_split_cuts_in_two, tiles};

verus! {

/// The temporary files, by the start of the part that each belongs to.
pub type Files = Map<int, Seq<u8>>;

/// The part's temporary file holds the bytes that the part has read, as they are in
/// the source.
pub open spec fn stored(p: Part, files: Files, data: Seq<u8>) -> bool {
    p.current == p.from || {
        &&& files.contains_key(p.from as int)
        &&& files[p.from as int].len() >= p.current - p.from
        &&& files[p.from as int].take(p.current - p.from) == data.subrange(
            p.from as int,
            p.current as int,
        )
    }
}

/// Every part's temporary file holds what the part has read.
pub open spec fn faithful(parts: Seq<Part>, files: Files, data: Seq<u8>) -> bool {
    forall|i: int| 0 <= i < parts.len() ==> stored(#[trigger] parts[i], files, data)
}

/// A file after bytes were written at an offset inside it or at its end.
pub open spec fn written(file: Seq<u8>, off: int, bytes: Seq<u8>) -> Seq<u8> {
    if off + bytes.len() < file.len() {
        file.take(off) + bytes + file.skip(off + bytes.len() as int)
    } else {
        file.take(off) + bytes
    }
}

/// The bytes of one piece: the front of its temporary file.
pub open spec fn piece_bytes(x: (i64, i64), files: Files) -> Seq<u8> {
    let file = files[x.0 as int];
    if x.1 < file.len() {
        file.take(x.1 as int)
    } else {
        file
    }
}

/// Pieces copied one behind the other.
pub open spec fn copied(v: Seq<(i64, i64)>, files: Files) -> Seq<u8>
    decreases v.len(),
{
    if v.len() == 0 {
        Seq::empty()
    } else {
        copied(v.drop_last(), files) + piece_bytes(v.last(), files)
    }
}

/// The file that comes out of the pieces: the bytes of each, and no others.
pub open spec fn assembled(v: Seq<(i64, i64)>, files: Files) -> Seq<u8> {
    copied(nonempty_pieces(v), files)
}

/// The length of the temporary file of the first piece.
pub open spec fn first_length(v: Seq<(i64, i64)>, files: Files) -> Option<i64> {
    if v.len() > 0 && files.contains_key(v[0].0 as int) {
        Some(files[v[0].0 as int].len() as i64)
    } else {
        None
    }
}

/// A temporary file that is renamed is what copying would have given: bytes that were
/// set aside and not downloaded never reach the file.
pub proof fn law_renamed_file_is_the_copy(v: Seq<(i64, i64)>, files: Files)
    requires
        needs_no_copy(v, first_length(v, files)),
        files[0].len() <= i64::MAX,
    ensures
        files[0] == assembled(v, files),
{
    reveal(Seq::filter);
    assert(v.drop_last() =~= Seq::empty());
    assert(nonempty_pieces(v.drop_last()) =~= Seq::empty());
    if v[0].1 > 0 {
        assert(nonempty_pieces(v) =~= v);
        assert(copied(v.drop_last(), files) =~= Seq::empty());
        assert(copied(v, files) =~= files[0]);
    } else {
        assert(nonempty_pieces(v) =~= Seq::empty());
        assert(files[0] =~= Seq::empty());
    }
}

/// Nothing has been read yet: every set of temporary files is faithful.
pub proof fn law_fresh_parts_are_faithful(parts: Seq<Part>, files: Files, data: Seq<u8>)
    requires
        forall|i: int| 0 <= i < parts.len() ==> (#[trigger] parts[i]).current == parts[i].from,
    ensures
        faithful(parts, files, data),
{
}

/// Creating the missing temporary file of a part keeps the files faithful.
pub proof fn law_new_file_keeps_faithful(
    parts: Seq<Part>,
    files: Files,
    data: Seq<u8>,
    i: int,
    file: Seq<u8>,
)
    requires
        tiles(parts, data.len() as int),
        faithful(parts, files, data),
        0 <= i < parts.len(),
        !files.contains_key(parts[i].from as int),
    ensures
        faithful(parts, files.insert(parts[i].from as int, file), data),
{
    let next = files.insert(parts[i].from as int, file);
    assert forall|k: int| 0 <= k < parts.len() implies stored(#[trigger] parts[k], next, data) by {
        assert(stored(parts[k], files, data));
        if k != i {
            assert(apart(parts[k], parts[i]));
        }
    }
}

/// Writing the source's next bytes of a part into its temporary file, no more than the
/// part may read, keeps the files faithful.
pub proof fn law_write_keeps_faithful(
    parts: Seq<Part>,
    files: Files,
    data: Seq<u8>,
    i: int,
    bytes: Seq<u8>,
)
    requires
        tiles(parts, data.len() as int),
        faithful(parts, files, data),
        0 <= i < parts.len(),
        files.contains_key(parts[i].from as int),
        bytes.len() <= parts[i].allowed(),
        bytes == data.subrange(parts[i].current as int, parts[i].current + bytes.len() as int),
    ensures
        faithful(
            parts.update(
                i,
                Part { current: (parts[i].current + bytes.len()) as i64, ..parts[i] },
            ),
            files.insert(
                parts[i].from as int,
                written(files[parts[i].from as int], parts[i].current - parts[i].from, bytes),
            ),
            data,
        ),
{
    let p = parts[i];
    let q = Part { current: (p.current + bytes.len()) as i64, ..p };
    let next = parts.update(i, q);
    let file = files[p.from as int];
    let off = p.current - p.from;
    let file2 = written(file, off, bytes);
    let files2 = files.insert(p.from as int, file2);
    assert(stored(p, files, data));
    assert(file.take(off) =~= data.subrange(p.from as int, p.current as int));
    assert(file2.take(off + bytes.len() as int) =~= data.subrange(
        p.from as int,
        p.current + bytes.len() as int,
    ));
    assert(stored(q, files2, data));
    assert forall|k: int| 0 <= k < next.len() implies stored(#[trigger] next[k], files2, data) by {
        if k != i {
            assert(stored(parts[k], files, data));
            assert(apart(parts[k], parts[i]));
        }
    }
}

/// Splitting a part keeps the files faithful.
pub proof fn law_split_keeps_faithful(
    parts: Seq<Part>,
    files: Files,
    data: Seq<u8>,
    i: int,
    min_delta: int,
)
    requires
        tiles(parts, data.len() as int),
        faithful(parts, files, data),
        0 <= i < parts.len(),
        parts[i].can_split(min_delta),
    ensures
        faithful(after_split(parts, i), files, data),
{
    law_split_cuts_in_two(parts[i], min_delta);
    let next = after_split(parts, i);
    assert forall|k: int| 0 <= k < next.len() implies stored(#[trigger] next[k], files, data) by {
        if k < parts.len() {
            assert(stored(parts[k], files, data));
        }
    }
}

/// Files stay faithful to parts that start and stand where the old ones did.
pub proof fn law_same_progress_is_faithful(
    parts: Seq<Part>,
    others: Seq<Part>,
    files: Files,
    data: Seq<u8>,
)
    requires
        faithful(parts, files, data),
        others.len() == parts.len(),
        forall|i: int|
            0 <= i < parts.len() ==> (#[trigger] others[i]).from == parts[i].from
                && others[i].current == parts[i].current,
    ensures
        faithful(others, files, data),
{
    assert forall|i: int| 0 <= i < others.len() implies stored(
        #[trigger] others[i],
        files,
        data,
    ) by {
        assert(stored(parts[i], files, data));
    }
}

/// A filter that nothing fails keeps the sequence.
proof fn lemma_all_nonempty(v: Seq<(i64, i64)>)
    requires
        forall|i: int| 0 <= i < v.len() ==> (#[trigger] v[i]).1 > 0,
    ensures
        nonempty_pieces(v) == v,
    decreases v.len(),
{
    reveal(Seq::filter);
    if v.len() > 0 {
        let front = v.drop_last();
        assert forall|i: int| 0 <= i < front.len() implies (#[trigger] front[i]).1 > 0 by {
            assert(front[i] == v[i]);
        }
        lemma_all_nonempty(front);
        assert(v[v.len() - 1].1 > 0);
        assert(front.push(v.last()) =~= v);
    } else {
        assert(nonempty_pieces(v) =~= v);
    }
}

/// In the order of their starts, the pieces of complete parts follow each other from
/// the first byte to the last.
proof fn lemma_pieces_in_row(
    parts: Seq<Part>,
    size: int,
    v: Seq<(i64, i64)>,
    order: Seq<int>,
)
    requires
        tiles(parts, size),
        forall|i: int| 0 <= i < parts.len() ==> (#[trigger] parts[i]).spec_done(),
        stable_order(pieces(parts), v, order),
    ensures
        forall|j: int|
            0 <= j < v.len() ==> (#[trigger] v[j]).0 == parts[order[j]].from && v[j].1
                == parts[order[j]].to - parts[order[j]].from + 1,
        v.len() > 0 ==> v[0].0 == 0,
        forall|j: int, k: int|
            0 <= j < v.len() && k == j + 1 && k < v.len() ==> (#[trigger] v[k]).0 == (
            #[trigger] v[j]).0 + v[j].1,
        v.len() > 0 ==> v[v.len() - 1].0 + v[v.len() - 1].1 == size,
        v.len() == 0 ==> size <= 0,
{
    let ps = pieces(parts);
    assert forall|j: int| 0 <= j < v.len() implies (#[trigger] v[j]).0 == parts[order[j]].from
        && v[j].1 == parts[order[j]].to - parts[order[j]].from + 1 by {
        let i = order[j];
        assert(0 <= i < ps.len());
        assert(ps[i] == piece(parts[i]));
        assert(parts[i].wf() && parts[i].spec_done());
    }
    if v.len() == 0 {
        if size > 0 {
            assert(covered(parts, 0));
        }
    } else {
        let last = v.len() - 1;
        // the first byte
        let i0 = order[0];
        assert(parts[i0].wf() && parts[i0].from <= parts[i0].to && parts[i0].to < size);
        assert(covered(parts, 0));
        let z = choose|z: int| 0 <= z < parts.len() && holds(#[trigger] parts[z], 0);
        assert(parts[z].wf());
        assert(order.contains(z));
        let jz = choose|jz: int| 0 <= jz < order.len() && order[jz] == z;
        assert(v[jz].0 == 0);
        if jz > 0 {
            assert(goes_before(v[0], order[0], v[jz], order[jz]));
        }
        // what follows each part
        assert forall|j: int| 0 <= j < v.len() implies (if j < last {
            v[j + 1].0 == (#[trigger] v[j]).0 + v[j].1
        } else {
            v[j].0 + v[j].1 == size
        }) by {
            let p = parts[order[j]];
            let b = p.to + 1;
            assert(p.wf() && p.from <= p.to && p.to < size);
            if j < last {
                let q = parts[order[j + 1]];
                assert(q.wf() && q.from <= q.to && q.to < size);
                assert(goes_before(v[j], order[j], v[j + 1], order[j + 1]));
                assert(v[j + 1].0 == q.from);
                assert(order[j] != order[j + 1]) by {
                    if order[j] == order[j + 1] {
                        assert(v[j].0 == v[j + 1].0);
                    }
                }
                assert(apart(parts[order[j]], parts[order[j + 1]]));
                assert(q.from >= b);
            }
            if b < size {
                assert(covered(parts, b));
                let k = choose|k: int| 0 <= k < parts.len() && holds(#[trigger] parts[k], b);
                assert(k != order[j]);
                assert(apart(parts[order[j]], parts[k]));
                assert(parts[k].from == b);
                assert(order.contains(k));
                let jk = choose|jk: int| 0 <= jk < order.len() && order[jk] == k;
                assert(v[jk].0 == b);
                if jk < j {
                    assert(goes_before(v[jk], order[jk], v[j], order[j]));
                }
                assert(jk > j);
                if jk > j + 1 {
                    assert(goes_before(v[j + 1], order[j + 1], v[jk], order[jk]));
                }
            }
        }
    }
}

/// The pieces of complete parts that tile a file follow each other: the first starts at
/// the first byte, each starts where the one before it ends, and the last ends where the
/// file does.
pub proof fn law_pieces_follow_each_other(parts: Seq<Part>, size: int, v: Seq<(i64, i64)>)
    requires
        tiles(parts, size),
        forall|i: int| 0 <= i < parts.len() ==> (#[trigger] parts[i]).spec_done(),
        sorted_stably(pieces(parts), v),
    ensures
        v.len() == 0 ==> size <= 0,
        v.len() > 0 ==> v[0].0 == 0,
        forall|j: int, k: int|
            0 <= j < v.len() && k == j + 1 && k < v.len() ==> (#[trigger] v[k]).0 == (
            #[trigger] v[j]).0 + v[j].1,
        v.len() > 0 ==> v[v.len() - 1].0 + v[v.len() - 1].1 == size,
        forall|j: int| 0 <= j < v.len() ==> (#[trigger] v[j]).1 > 0,
{
    let order = choose|order: Seq<int>| stable_order(pieces(parts), v, order);
    lemma_pieces_in_row(parts, size, v, order);
    assert forall|j: int| 0 <= j < v.len() implies (#[trigger] v[j]).1 > 0 by {
        let p = parts[order[j]];
        assert(p.wf() && p.from <= p.to);
    }
}

/// The pieces in front of piece `j` are the bytes of the source in front of it.
proof fn lemma_copied_prefix(
    parts: Seq<Part>,
    files: Files,
    data: Seq<u8>,
    v: Seq<(i64, i64)>,
    order: Seq<int>,
    j: int,
)
    requires
        tiles(parts, data.len() as int),
        forall|i: int| 0 <= i < parts.len() ==> (#[trigger] parts[i]).spec_done(),
        faithful(parts, files, data),
        stable_order(pieces(parts), v, order),
        0 <= j < v.len(),
    ensures
        copied(v.take(j + 1), files) == data.take(v[j].0 + v[j].1),
    decreases j,
{
    lemma_pieces_in_row(parts, data.len() as int, v, order);
    let i = order[j];
    let p = parts[i];
    assert(p.wf() && p.from <= p.to && p.to < data.len() && p.spec_done());
    assert(stored(p, files, data));
    assert(piece_bytes(v[j], files) =~= data.subrange(p.from as int, p.to + 1));
    assert(v.take(j + 1).drop_last() =~= v.take(j));
    assert(v.take(j + 1).last() == v[j]);
    if j == 0 {
        assert(copied(v.take(0), files) =~= Seq::<u8>::empty());
        assert(data.subrange(0, p.to + 1) =~= data.take(p.to + 1));
    } else {
        lemma_copied_prefix(parts, files, data, v, order, j - 1);
        assert(v[j].0 == v[j - 1].0 + v[j - 1].1);
        assert(data.take(p.from as int) + data.subrange(p.from as int, p.to + 1) =~= data.take(
            p.to + 1,
        ));
    }
}

/// When the parts tile the source, all of them are complete and the temporary files
/// hold what was read, the assembled file is the source, byte for byte.
pub proof fn law_assembled_file_is_the_source(
    parts: Seq<Part>,
    files: Files,
    data: Seq<u8>,
    v: Seq<(i64, i64)>,
)
    requires
        tiles(parts, data.len() as int),
        forall|i: int| 0 <= i < parts.len() ==> (#[trigger] parts[i]).spec_done(),
        faithful(parts, files, data),
        sorted_stably(pieces(parts), v),
    ensures
        assembled(v, files) == data,
{
    let order = choose|order: Seq<int>| stable_order(pieces(parts), v, order);
    lemma_pieces_in_row(parts, data.len() as int, v, order);
    if v.len() == 0 {
        lemma_all_nonempty(v);
        assert(copied(v, files) =~= data);
    } else {
        let last = v.len() - 1;
        assert forall|i: int| 0 <= i < v.len() implies (#[trigger] v[i]).1 > 0 by {
            let p = parts[order[i]];
            assert(p.wf() && p.from <= p.to);
        }
        lemma_all_nonempty(v);
        lemma_copied_prefix(parts, files, data, v, order, last);
        assert(v.take(last + 1) =~= v);
        assert(data.take(data.len() as int) =~= data);
    }
}

} // verus!

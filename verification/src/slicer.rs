use vstd::prelude::*;

verus! {

/// A chunk as a mathematical value: its place among the chunks of a buffer
/// and its bytes.
pub struct Piece {
    pub index: nat,
    pub bytes: Seq<u8>,
}

/// One of the ordered pieces that a buffer is split into.
#[derive(Debug)]
pub struct Chunk {
    pub index: usize,
    pub bytes: Vec<u8>,
}

/// The mathematical value of a chunk.
pub open spec fn piece_of(chunk: Chunk) -> Piece {
    Piece { index: chunk.index as nat, bytes: chunk.bytes@ }
}

impl View for Chunk {
    type V = Piece;

    open spec fn view(&self) -> Piece {
        piece_of(*self)
    }
}

/// The mathematical values of a list of chunks, in the order of the list.
pub open spec fn pieces_of(chunks: Seq<Chunk>) -> Seq<Piece> {
    chunks.map_values(|chunk: Chunk| piece_of(chunk))
}

/// The piece with the given index when `buffer` is split into `n` pieces:
/// every piece but the last holds `len / n` bytes, and the last holds all
/// that is left.
pub open spec fn piece(buffer: Seq<u8>, n: nat, index: nat) -> Piece
    recommends
        index < n,
{
    let base = (buffer.len() / n) as int;
    let start = index * base;
    Piece {
        index,
        bytes: if index + 1 == n {
            buffer.subrange(start, buffer.len() as int)
        } else {
            buffer.subrange(start, start + base)
        },
    }
}

/// The pieces of a buffer split `n` ways, in index order; none for `n == 0`.
pub open spec fn split(buffer: Seq<u8>, n: nat) -> Seq<Piece> {
    Seq::new(n, |i: int| piece(buffer, n, i as nat))
}

/// The bytes of the pieces, one piece after the other in the order of the
/// list.
pub open spec fn joined(pieces: Seq<Piece>) -> Seq<u8>
    decreases pieces.len(),
{
    if pieces.len() == 0 {
        Seq::empty()
    } else {
        pieces[0].bytes + joined(pieces.drop_first())
    }
}

/// `place` is where the list has the piece of the lowest index and, among
/// pieces of that index, the one that comes first.
pub open spec fn is_first_lowest(pieces: Seq<Piece>, place: int) -> bool {
    &&& 0 <= place < pieces.len()
    &&& forall|j: int| 0 <= j < pieces.len() ==> pieces[place].index <= (#[trigger] pieces[j]).index
    &&& forall|j: int| 0 <= j < place ==> pieces[place].index < (#[trigger] pieces[j]).index
}

/// The place that `is_first_lowest` singles out.
pub open spec fn first_lowest(pieces: Seq<Piece>) -> int {
    choose|place: int| is_first_lowest(pieces, place)
}

/// A place that `is_first_lowest` holds of is the one that `first_lowest` names.
pub proof fn lemma_first_lowest_unique(pieces: Seq<Piece>, place: int)
    requires
        is_first_lowest(pieces, place),
    ensures
        first_lowest(pieces) == place,
{
    let k = first_lowest(pieces);
    if k < place {
        assert(pieces[place].index < pieces[k].index);
    } else if place < k {
        assert(pieces[k].index < pieces[place].index);
    }
}

/// Every list with a piece in it has a first lowest piece.
pub proof fn lemma_first_lowest_exists(pieces: Seq<Piece>)
    requires
        pieces.len() > 0,
    ensures
        is_first_lowest(pieces, first_lowest(pieces)),
    decreases pieces.len(),
{
    if pieces.len() == 1 {
        assert(is_first_lowest(pieces, 0));
    } else {
        let shorter = pieces.drop_last();
        lemma_first_lowest_exists(shorter);
        let m = first_lowest(shorter);
        let last = pieces.len() - 1;
        assert(forall|j: int| 0 <= j < shorter.len() ==> shorter[j] == pieces[j]);
        if pieces[last].index < pieces[m].index {
            assert(is_first_lowest(pieces, last));
        } else {
            assert(is_first_lowest(pieces, m));
        }
    }
}

/// The buffer that a list of pieces stands for: the bytes of all its pieces
/// in the order of their indices, pieces of one index in the order of the
/// list.
pub open spec fn reassembled(pieces: Seq<Piece>) -> Seq<u8>
    decreases pieces.len(),
{
    if pieces.len() == 0 {
        Seq::empty()
    } else {
        proof {
            lemma_first_lowest_exists(pieces);
        }
        let place = first_lowest(pieces);
        pieces[place].bytes + reassembled(pieces.remove(place))
    }
}

/// The indices of the list never fall from one piece to the next.
pub open spec fn in_index_order(pieces: Seq<Piece>) -> bool {
    forall|i: int, j: int| 0 <= i < j < pieces.len() ==> (#[trigger] pieces[i]).index <= (#[trigger] pieces[j]).index
}

/// Every piece of a split lies inside the buffer.
pub proof fn lemma_piece_bounds(len: nat, n: nat, index: nat)
    requires
        index < n,
    ensures
        index * (len / n) + (len / n) <= len,
{
    let base = len / n;
    assert(base * n <= len) by {
        vstd::arithmetic::div_mod::lemma_fundamental_div_mod(len as int, n as int);
        vstd::arithmetic::div_mod::lemma_mod_pos_bound(len as int, n as int);
    }
    assert(index * base + base <= base * n) by (nonlinear_arith)
        requires
            index < n,
            0 <= base,
    ;
}

/// A list in index order is joined as it stands.
pub proof fn lemma_reassembled_in_order(pieces: Seq<Piece>)
    requires
        in_index_order(pieces),
    ensures
        reassembled(pieces) == joined(pieces),
    decreases pieces.len(),
{
    if pieces.len() > 0 {
        assert(is_first_lowest(pieces, 0));
        lemma_first_lowest_unique(pieces, 0);
        let rest = pieces.drop_first();
        assert(pieces.remove(0) =~= rest);
        assert forall|i: int, j: int| 0 <= i < j < rest.len() implies (#[trigger] rest[i]).index <= (
        #[trigger] rest[j]).index by {
            assert(rest[i] == pieces[i + 1] && rest[j] == pieces[j + 1]);
        }
        lemma_reassembled_in_order(rest);
    }
}

/// The pieces of a split from one of them on, joined, are the buffer from
/// the start of that piece on.
pub proof fn lemma_joined_split(buffer: Seq<u8>, n: nat, from: nat)
    requires
        from < n,
    ensures
        joined(split(buffer, n).skip(from as int)) == buffer.subrange(
            from * ((buffer.len() / n) as int),
            buffer.len() as int,
        ),
    decreases n - from,
{
    let base = (buffer.len() / n) as int;
    let tail = split(buffer, n).skip(from as int);
    lemma_piece_bounds(buffer.len(), n, from);
    assert(0 <= from * base) by (nonlinear_arith)
        requires
            0 <= from,
            0 <= base,
    ;
    assert(tail[0] == piece(buffer, n, from));
    if from + 1 == n {
        assert(tail.drop_first() =~= Seq::<Piece>::empty());
        assert(joined(tail.drop_first()) =~= Seq::<u8>::empty());
        assert(joined(tail) =~= buffer.subrange(from * base, buffer.len() as int));
    } else {
        let next = (from + 1) as nat;
        lemma_joined_split(buffer, n, next);
        assert(tail.drop_first() =~= split(buffer, n).skip(next as int));
        assert(next * base == from * base + base) by (nonlinear_arith)
            requires
                next == from + 1,
        ;
        assert(buffer.subrange(from * base, from * base + base) + buffer.subrange(
            from * base + base,
            buffer.len() as int,
        ) =~= buffer.subrange(from * base, buffer.len() as int));
    }
}

/// Split and reassemble: the pieces of a buffer split into one piece or
/// more stand for the buffer.
pub proof fn lemma_reassemble_split(buffer: Seq<u8>, n: nat)
    requires
        n >= 1,
    ensures
        reassembled(split(buffer, n)) == buffer,
{
    let pieces = split(buffer, n);
    lemma_reassembled_in_order(pieces);
    lemma_joined_split(buffer, n, 0);
    assert(pieces.skip(0) =~= pieces);
    assert(0 * ((buffer.len() / n) as int) == 0);
    assert(buffer.subrange(0, buffer.len() as int) =~= buffer);
}

/// Split and reassemble: a buffer split zero ways has no pieces.
pub proof fn lemma_split_zero(buffer: Seq<u8>)
    ensures
        split(buffer, 0) == Seq::<Piece>::empty(),
{
}

/// A copy of the bytes of the buffer from `from` up to `to`.
fn copy_range(buffer: &Vec<u8>, from: usize, to: usize) -> (bytes: Vec<u8>)
    requires
        from <= to <= buffer.len(),
    ensures
        bytes@ == buffer@.subrange(from as int, to as int),
{
    let mut bytes: Vec<u8> = Vec::new();
    let mut i: usize = from;
    while i < to
        invariant
            from <= i <= to <= buffer.len(),
            bytes@ == buffer@.subrange(from as int, i as int),
        decreases to - i,
    {
        bytes.push(buffer[i]);
        i += 1;
    }
    bytes
}

/// Splits a buffer into a given number of pieces.
pub struct Slicer {
    pub buffer: Vec<u8>,
    pub slice_amount: usize,
}

impl Slicer {
    /// Splits the buffer into `slice_amount` chunks, in index order. Each
    /// chunk but the last holds `len / slice_amount` bytes; the last holds
    /// what is left. With `slice_amount == 0` there are no chunks.
    pub fn slice(&self) -> (chunks: Vec<Chunk>)
        ensures
            pieces_of(chunks@) == split(self.buffer@, self.slice_amount as nat),
            chunks@.len() == self.slice_amount,
            self.slice_amount >= 1 ==> reassembled(pieces_of(chunks@)) == self.buffer@,
    {
        let mut chunks: Vec<Chunk> = Vec::new();
        let n = self.slice_amount;
        if n == 0 {
            return chunks;
        }
        let len = self.buffer.len();
        let base = len / n;
        let mut start: usize = 0;
        let mut i: usize = 0;
        while i < n - 1
            invariant
                n >= 1,
                i <= n - 1,
                len == self.buffer.len(),
                base == len / n,
                start == i * base,
                start <= len,
                chunks@.len() == i,
                pieces_of(chunks@) == split(self.buffer@, n as nat).take(i as int),
            decreases n - 1 - i,
        {
            proof {
                lemma_piece_bounds(len as nat, n as nat, i as nat);
                assert((i + 1) * base == i * base + base) by (nonlinear_arith);
            }
            let end = start + base;
            chunks.push(Chunk { index: i, bytes: copy_range(&self.buffer, start, end) });
            start = end;
            i += 1;
        }
        let ghost before = pieces_of(chunks@);
        chunks.push(Chunk { index: i, bytes: copy_range(&self.buffer, start, len) });
        assert(pieces_of(chunks@) =~= before.push(piece(self.buffer@, n as nat, i as nat)));
        proof {
            assert(pieces_of(chunks@) =~= split(self.buffer@, n as nat));
            lemma_reassemble_split(self.buffer@, n as nat);
        }
        chunks
    }
}

/// Puts the chunks of a buffer together again.
pub struct Compiler {
    pub slices: Vec<Chunk>,
}

/// The pieces at the given places of a list, in the order of the places.
pub open spec fn pieces_at(pieces: Seq<Piece>, places: Seq<usize>) -> Seq<Piece> {
    places.map_values(|place: usize| pieces[place as int])
}

impl Compiler {
    /// Of the chunks at the given places, the one of the lowest index; of
    /// several with that index, the one whose place comes first.
    fn lowest(&self, places: &Vec<usize>) -> (found: usize)
        requires
            places.len() > 0,
            forall|k: int| 0 <= k < places.len() ==> (#[trigger] places@[k]) < self.slices.len(),
        ensures
            is_first_lowest(pieces_at(pieces_of(self.slices@), places@), found as int),
    {
        let ghost waiting = pieces_at(pieces_of(self.slices@), places@);
        let mut found: usize = 0;
        let mut j: usize = 1;
        while j < places.len()
            invariant
                1 <= j <= places.len(),
                found < j,
                waiting == pieces_at(pieces_of(self.slices@), places@),
                forall|k: int| 0 <= k < places.len() ==> (#[trigger] places@[k]) < self.slices.len(),
                is_first_lowest(waiting.take(j as int), found as int),
            decreases places.len() - j,
        {
            let ghost seen = waiting.take(j as int);
            let ghost next = waiting.take(j + 1);
            assert(forall|k: int| 0 <= k < j ==> next[k] == seen[k]);
            assert(waiting[j as int] == piece_of(self.slices@[places@[j as int] as int]));
            assert(waiting[found as int] == piece_of(self.slices@[places@[found as int] as int]));
            if self.slices[places[j]].index < self.slices[places[found]].index {
                assert forall|k: int| 0 <= k < next.len() implies next[j as int].index <= (#[trigger] next[k]).index by {
                    if k < j {
                        assert(seen[found as int].index <= seen[k].index);
                    }
                }
                found = j;
            } else {
                assert forall|k: int| 0 <= k < next.len() implies next[found as int].index <= (
                #[trigger] next[k]).index by {
                    if k < j {
                        assert(seen[found as int].index <= seen[k].index);
                    }
                }
                assert forall|k: int| 0 <= k < found implies next[found as int].index < (#[trigger] next[k]).index by {
                    assert(seen[found as int].index < seen[k].index);
                }
            }
            j += 1;
        }
        assert(waiting.take(j as int) =~= waiting);
        found
    }

    /// Joins all the chunks in the order of their indices: the bytes of the
    /// chunk of the lowest index first. Chunks of one index are joined in
    /// the order of the list. The chunks of `Slicer::slice` give the buffer
    /// back.
    pub fn compile(&self) -> (buffer: Vec<u8>)
        ensures
            buffer@ == reassembled(pieces_of(self.slices@)),
    {
        let ghost pieces = pieces_of(self.slices@);
        let mut places: Vec<usize> = Vec::new();
        let mut k: usize = 0;
        while k < self.slices.len()
            invariant
                k <= self.slices.len(),
                places@.len() == k,
                forall|i: int| 0 <= i < k ==> (#[trigger] places@[i]) == i,
            decreases self.slices.len() - k,
        {
            places.push(k);
            k += 1;
        }
        assert(pieces_at(pieces, places@) =~= pieces);
        let mut buffer: Vec<u8> = Vec::new();
        while places.len() > 0
            invariant
                pieces == pieces_of(self.slices@),
                forall|i: int| 0 <= i < places.len() ==> (#[trigger] places@[i]) < self.slices.len(),
                buffer@ + reassembled(pieces_at(pieces, places@)) == reassembled(pieces),
            decreases places.len(),
        {
            let ghost waiting = pieces_at(pieces, places@);
            let ghost before = buffer@;
            let found = self.lowest(&places);
            let place = places.remove(found);
            proof {
                lemma_first_lowest_unique(waiting, found as int);
                assert(pieces_at(pieces, places@) =~= waiting.remove(found as int));
                assert(waiting[found as int] == piece_of(self.slices@[place as int]));
            }
            buffer.extend_from_slice(self.slices[place].bytes.as_slice());
            assert(buffer@ =~= before + waiting[found as int].bytes);
            assert(buffer@ + reassembled(waiting.remove(found as int)) =~= before + reassembled(waiting));
        }
        assert(buffer@ + Seq::<u8>::empty() =~= buffer@);
        buffer
    }
}

} // verus!

//! Where each row of a witness comes from.

use crate::row::{field_row, row_count, Row};
use crate::state::{
    decode_rows, lemma_step_bounds, next_tx_id, state_rank, step, step_rows, value_error,
};
use crate::tags::RlpTxFieldTag;
use vstd::prelude::*;

verus! {

/// The origin of a row: the field at the front of `bytes`, and the row of it.
#[verifier::ext_equal]
pub struct Site {
    pub state: RlpTxFieldTag,
    pub tx_id: int,
    pub bytes: Seq<u8>,
    pub j: int,
}

impl Site {
    /// The step that lays out the row.
    pub open spec fn step(self) -> crate::state::Step {
        step(self.state, self.bytes, self.bytes.len() as int)
    }

    /// The bytes of the field.
    pub open spec fn raw(self) -> Seq<u8> {
        self.bytes.take(self.step().consumed)
    }

    /// The row is the last one of its field.
    pub open spec fn ends_field(self) -> bool {
        self.j == row_count(self.raw().len()) - 1
    }

    /// The row itself.
    pub open spec fn row(self, r: int, m: int) -> Row {
        let laid_out = field_row(
            self.tx_id,
            self.state,
            self.raw(),
            r,
            m,
            self.bytes.len() as int,
            self.step().error,
            self.j,
        );
        if self.step().mismatch && self.ends_field() {
            value_error(laid_out)
        } else {
            laid_out
        }
    }

    /// Where the row behind it comes from.
    pub open spec fn next(self) -> Site {
        if self.ends_field() {
            Site {
                state: self.step().next,
                tx_id: next_tx_id(self.tx_id, self.step().next),
                bytes: self.bytes.skip(self.step().consumed),
                j: 0,
            }
        } else {
            Site { j: self.j + 1, ..self }
        }
    }

    /// The field has such a row.
    pub open spec fn is_laid_out(self) -> bool {
        &&& self.state != RlpTxFieldTag::Padding
        &&& 0 <= self.j < row_count(self.raw().len())
    }
}

/// The origins of the rows of one field.
pub open spec fn field_sites(state: RlpTxFieldTag, tx_id: int, bytes: Seq<u8>) -> Seq<Site> {
    let s = step(state, bytes, bytes.len() as int);
    Seq::new(
        row_count(bytes.take(s.consumed).len()),
        |j: int| Site { state, tx_id, bytes, j },
    )
}

/// The origins of the rows for all of `bytes`.
pub open spec fn decode_sites(state: RlpTxFieldTag, tx_id: int, bytes: Seq<u8>) -> Seq<Site>
    decreases bytes.len(), state_rank(state),
{
    if state == RlpTxFieldTag::Padding {
        seq![]
    } else {
        proof {
            lemma_step_bounds(state, bytes, bytes.len() as int);
        }
        let s = step(state, bytes, bytes.len() as int);
        field_sites(state, tx_id, bytes) + decode_sites(
            s.next,
            next_tx_id(tx_id, s.next),
            bytes.skip(s.consumed),
        )
    }
}

/// The sites follow each other, from that of the first row of the field `state` on up to the last
/// one before the padding.
pub open spec fn chained(
    sites: Seq<Site>,
    state: RlpTxFieldTag,
    tx_id: int,
    bytes: Seq<u8>,
) -> bool {
    &&& sites.len() > 0
    &&& sites[0] == Site { state, tx_id, bytes, j: 0 }
    &&& forall|i: int| 0 <= i < sites.len() ==> (#[trigger] sites[i]).is_laid_out()
    &&& forall|i: int| 0 <= i < sites.len() - 1 ==> sites[i + 1] == #[trigger] sites[i].next()
    &&& sites.last().next().state == RlpTxFieldTag::Padding
}

/// The rows of a field are those of its sites.
proof fn lemma_field_sites(state: RlpTxFieldTag, tx_id: int, bytes: Seq<u8>, r: int, m: int)
    ensures
        ({
            let sites = field_sites(state, tx_id, bytes);
            let rows = step_rows(state, tx_id, bytes, bytes.len() as int, r, m);
            &&& sites.len() == rows.len()
            &&& sites.len() > 0
            &&& forall|i: int|
                0 <= i < sites.len() ==> #[trigger] rows[i] == sites[i].row(r, m)
        }),
{
    reveal(step_rows);
    lemma_step_bounds(state, bytes, bytes.len() as int);
}

/// The sites of a field, followed by those of the next ones.
proof fn lemma_chain(
    front: Seq<Site>,
    back: Seq<Site>,
    state: RlpTxFieldTag,
    tx_id: int,
    bytes: Seq<u8>,
)
    requires
        state != RlpTxFieldTag::Padding,
        front == field_sites(state, tx_id, bytes),
        front.len() > 0,
        ({
            let next = front.last().next();
            if next.state == RlpTxFieldTag::Padding {
                back.len() == 0
            } else {
                chained(back, next.state, next.tx_id, next.bytes)
            }
        }),
    ensures
        chained(front + back, state, tx_id, bytes),
{
    let all = front + back;
    let n = front.len() as int;
    assert(all[0] == front[0]);
    assert forall|i: int| 0 <= i < all.len() implies (#[trigger] all[i]).is_laid_out() by {
        if i < n {
            assert(all[i] == front[i]);
        } else {
            assert(all[i] == back[i - n]);
            assert(back[i - n].is_laid_out());
        }
    }
    assert forall|i: int| 0 <= i < all.len() - 1 implies all[i + 1] == #[trigger] all[i].next() by {
        if i < n - 1 {
            assert(all[i] == front[i] && all[i + 1] == front[i + 1]);
        } else if i == n - 1 {
            assert(all[i] == front.last());
            assert(all[i + 1] == back[0]);
        } else {
            assert(all[i] == back[i - n]);
            assert(all[i + 1] == back[i - n + 1]);
            assert(back[i - n + 1] == back[i - n].next());
        }
    }
    if back.len() == 0 {
        assert(all.last() == front.last());
    } else {
        assert(all.last() == back.last());
    }
}

/// Each row is the one of its site, and the sites follow each other.
pub proof fn lemma_sites(state: RlpTxFieldTag, tx_id: int, bytes: Seq<u8>, r: int, m: int)
    ensures
        ({
            let sites = decode_sites(state, tx_id, bytes);
            let rows = decode_rows(state, tx_id, bytes, r, m);
            &&& sites.len() == rows.len()
            &&& forall|i: int|
                0 <= i < sites.len() ==> #[trigger] rows[i] == sites[i].row(r, m)
            &&& state != RlpTxFieldTag::Padding ==> chained(sites, state, tx_id, bytes)
            &&& state == RlpTxFieldTag::Padding ==> sites.len() == 0
        }),
    decreases bytes.len(), state_rank(state),
{
    if state != RlpTxFieldTag::Padding {
        let len = bytes.len() as int;
        let s = step(state, bytes, len);
        lemma_step_bounds(state, bytes, len);
        let (id, rest) = (next_tx_id(tx_id, s.next), bytes.skip(s.consumed));
        lemma_sites(s.next, id, rest, r, m);
        lemma_field_sites(state, tx_id, bytes, r, m);
        let front = field_sites(state, tx_id, bytes);
        let back = decode_sites(s.next, id, rest);
        assert(front.last().ends_field());
        lemma_chain(front, back, state, tx_id, bytes);
    }
}

} // verus!

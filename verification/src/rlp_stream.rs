//! Encoding in the recursive length prefix format.

use vstd::prelude::*;

verus! {

/// The shortest big endian form of `n`, which is empty for zero.
pub open spec fn minimal_be(n: nat) -> Seq<u8>
    decreases n,
{
    if n == 0 {
        seq![]
    } else {
        minimal_be(n / 256).push((n % 256) as u8)
    }
}

/// `bytes` without the zeros in front.
pub open spec fn without_leading_zeros(bytes: Seq<u8>) -> Seq<u8>
    decreases bytes.len(),
{
    if bytes.len() > 0 && bytes[0] == 0 {
        without_leading_zeros(bytes.skip(1))
    } else {
        bytes
    }
}

/// The header of an item of `len` bytes, counted from `base`. The length stands in the first byte
/// up to 55, and behind it from there on.
pub open spec fn item_header(base: int, len: nat) -> Seq<u8> {
    if len <= 55 {
        seq![(base + len) as u8]
    } else {
        seq![(base + 55 + minimal_be(len).len()) as u8] + minimal_be(len)
    }
}

/// The encoding of a string. A single byte below 0x80 stands for itself.
pub open spec fn rlp_string(value: Seq<u8>) -> Seq<u8> {
    if value.len() == 1 && value[0] < 0x80 {
        value
    } else {
        item_header(0x80, value.len()) + value
    }
}

/// The encoding of a list whose items have the encodings that `payload` holds.
pub open spec fn rlp_list(payload: Seq<u8>) -> Seq<u8> {
    item_header(0xc0, payload.len()) + payload
}

/// The sequences one after the other.
pub open spec fn concat_all(parts: Seq<Seq<u8>>) -> Seq<u8>
    decreases parts.len(),
{
    if parts.len() == 0 {
        seq![]
    } else {
        concat_all(parts.drop_last()) + parts.last()
    }
}

/// `rlp::RlpStream`: the encoder, to which items are appended.
#[verifier::external_type_specification]
#[verifier::external_body]
pub struct ExRlpStream(rlp::RlpStream);

/// The bytes that a stream holds. In front of the items of a list that is still open stands one
/// byte for its header.
pub uninterp spec fn stream_bytes(stream: rlp::RlpStream) -> Seq<u8>;

/// The lists that are still open in a stream, the outermost one first: where its items start, and
/// how many of them are to come.
pub uninterp spec fn stream_lists(stream: rlp::RlpStream) -> Seq<(int, int)>;

/// What `count` items at the end of `bytes` make of the open lists. A list that is complete gets
/// its header, and is an item of the list around it.
pub open spec fn noted(bytes: Seq<u8>, lists: Seq<(int, int)>, count: int) -> (
    Seq<u8>,
    Seq<(int, int)>,
)
    decreases lists.len(),
{
    if lists.len() == 0 {
        (bytes, lists)
    } else {
        let (start, left) = lists.last();
        if left == count {
            noted(
                bytes.take(start - 1) + rlp_list(bytes.skip(start)),
                lists.drop_last(),
                1,
            )
        } else {
            (bytes, lists.update(lists.len() - 1, (start, left - count)))
        }
    }
}

/// The open lists start within the bytes, and still expect items.
pub open spec fn expects_item(bytes: Seq<u8>, lists: Seq<(int, int)>) -> bool {
    forall|i: int|
        0 <= i < lists.len() ==> 1 <= (#[trigger] lists[i]).0 <= bytes.len() && lists[i].1 > 0
}

/// What the stream holds after the item with the encoding `item` was appended.
pub open spec fn appended(stream: rlp::RlpStream, item: Seq<u8>) -> (Seq<u8>, Seq<(int, int)>) {
    noted(stream_bytes(stream) + item, stream_lists(stream), 1)
}

/// An item with the encoding `item` can be appended. Lengths are written with at most four bytes.
pub open spec fn can_append(stream: rlp::RlpStream, item: Seq<u8>) -> bool {
    &&& expects_item(stream_bytes(stream), stream_lists(stream))
    &&& appended(stream, item).0.len() <= u32::MAX
}

/// `stream` holds this.
pub open spec fn holds(stream: rlp::RlpStream, state: (Seq<u8>, Seq<(int, int)>)) -> bool {
    stream_bytes(stream) == state.0 && stream_lists(stream) == state.1
}

/// Calls `rlp::RlpStream::new`: an empty stream.
#[verifier::external_body]
pub(crate) fn stream_new() -> (r: rlp::RlpStream)
    ensures
        stream_bytes(r) == Seq::<u8>::empty(),
        stream_lists(r) == Seq::<(int, int)>::empty(),
{
    rlp::RlpStream::new()
}

/// Calls `rlp::RlpStream::begin_list`: opens a list of `len` items. An empty one is complete at
/// once.
#[verifier::external_body]
pub(crate) fn stream_begin_list(stream: &mut rlp::RlpStream, len: usize)
    requires
        expects_item(stream_bytes(*old(stream)), stream_lists(*old(stream))),
        len == 0 ==> can_append(*old(stream), rlp_list(seq![])),
    ensures
        len == 0 ==> holds(*final(stream), appended(*old(stream), rlp_list(seq![]))),
        len > 0 ==> holds(
            *final(stream),
            (
                stream_bytes(*old(stream)).push(0),
                stream_lists(*old(stream)).push(
                    ((stream_bytes(*old(stream)).len() + 1) as int, len as int),
                ),
            ),
        ),
{
    stream.begin_list(len);
}

/// Calls `rlp::RlpStream::append` with a `u8`: the string of its shortest big endian form.
#[verifier::external_body]
pub(crate) fn stream_append_u8(stream: &mut rlp::RlpStream, value: u8)
    requires
        can_append(*old(stream), rlp_string(minimal_be(value as nat))),
    ensures
        holds(*final(stream), appended(*old(stream), rlp_string(minimal_be(value as nat)))),
{
    stream.append(&value);
}

/// Calls `rlp::RlpStream::append` with a `u64`: the string of its shortest big endian form.
#[verifier::external_body]
pub(crate) fn stream_append_u64(stream: &mut rlp::RlpStream, value: u64)
    requires
        can_append(*old(stream), rlp_string(minimal_be(value as nat))),
    ensures
        holds(*final(stream), appended(*old(stream), rlp_string(minimal_be(value as nat)))),
{
    stream.append(&value);
}

/// Calls `rlp::RlpStream::append` with an `ethers_core::types::U256`, made of its big endian form:
/// the string of that form without the zeros in front.
#[verifier::external_body]
pub(crate) fn stream_append_word(stream: &mut rlp::RlpStream, value: &[u8; 32])
    requires
        can_append(*old(stream), rlp_string(without_leading_zeros(value@))),
    ensures
        holds(*final(stream), appended(*old(stream), rlp_string(without_leading_zeros(value@)))),
{
    stream.append(&ethers_core::types::U256::from_big_endian(value));
}

/// Calls `rlp::RlpStream::append` with an `ethers_core::types::Address`: the string of its bytes.
#[verifier::external_body]
pub(crate) fn stream_append_address(stream: &mut rlp::RlpStream, value: &[u8; 20])
    requires
        can_append(*old(stream), rlp_string(value@)),
    ensures
        holds(*final(stream), appended(*old(stream), rlp_string(value@))),
{
    stream.append(&ethers_core::types::H160::from(*value));
}

/// Calls `rlp::RlpStream::append` with a `Vec<u8>`: the string of its bytes.
#[verifier::external_body]
pub(crate) fn stream_append_bytes(stream: &mut rlp::RlpStream, value: &Vec<u8>)
    requires
        can_append(*old(stream), rlp_string(value@)),
    ensures
        holds(*final(stream), appended(*old(stream), rlp_string(value@))),
{
    stream.append(value);
}

/// Calls `rlp::RlpStream::append` with the empty `&str`: the empty string.
#[verifier::external_body]
pub(crate) fn stream_append_empty(stream: &mut rlp::RlpStream)
    requires
        can_append(*old(stream), rlp_string(seq![])),
    ensures
        holds(*final(stream), appended(*old(stream), rlp_string(seq![]))),
{
    stream.append(&"");
}

/// Calls `rlp::RlpStream::out`: the bytes of a stream without open lists.
#[verifier::external_body]
pub(crate) fn stream_out(stream: rlp::RlpStream) -> (r: Vec<u8>)
    requires
        stream_lists(stream).len() == 0,
    ensures
        r@ == stream_bytes(stream),
{
    stream.out().to_vec()
}

/// Noting items loses no bytes.
pub proof fn lemma_noted_grows(bytes: Seq<u8>, lists: Seq<(int, int)>, count: int)
    requires
        expects_item(bytes, lists),
    ensures
        noted(bytes, lists, count).0.len() >= bytes.len(),
        count == 1 ==> expects_item(noted(bytes, lists, count).0, noted(bytes, lists, count).1),
    decreases lists.len(),
{
    if lists.len() > 0 {
        let (start, left) = lists.last();
        assert(lists[lists.len() - 1].0 <= bytes.len());
        if left == count {
            let closed = bytes.take(start - 1) + rlp_list(bytes.skip(start));
            assert(closed.len() >= bytes.len());
            let outer = lists.drop_last();
            assert forall|i: int| 0 <= i < outer.len() implies 1 <= (#[trigger] outer[i]).0
                <= closed.len() && outer[i].1 > 0 by {
                assert(outer[i] == lists[i]);
            }
            lemma_noted_grows(closed, outer, 1);
        } else if count == 1 {
            let after = lists.update(lists.len() - 1, (start, left - count));
            assert forall|i: int| 0 <= i < after.len() implies 1 <= (#[trigger] after[i]).0
                <= bytes.len() && after[i].1 > 0 by {
                assert(lists[i].1 > 0);
            }
        }
    }
}

/// The state of a stream within a list: `items` were appended, and `left` are to come.
pub open spec fn within_list(
    bytes: Seq<u8>,
    lists: Seq<(int, int)>,
    items: Seq<u8>,
    left: int,
) -> (Seq<u8>, Seq<(int, int)>) {
    (bytes.push(0) + items, lists.push(((bytes.len() + 1) as int, left)))
}

/// One more item within a list. The last one completes it.
pub proof fn lemma_append_within(
    bytes: Seq<u8>,
    lists: Seq<(int, int)>,
    items: Seq<u8>,
    left: int,
    item: Seq<u8>,
)
    requires
        expects_item(bytes, lists),
        left > 0,
    ensures
        ({
            let (b, l) = within_list(bytes, lists, items, left);
            &&& expects_item(b, l)
            &&& noted(b + item, l, 1) == if left > 1 {
                within_list(bytes, lists, items + item, left - 1)
            } else {
                noted(bytes + rlp_list(items + item), lists, 1)
            }
            &&& left > 1 ==> noted(b + item, l, 1).0.len() == bytes.len() + 1 + items.len()
                + item.len()
        }),
{
    let (b, l) = within_list(bytes, lists, items, left);
    let n = bytes.len() as int;
    assert forall|i: int| 0 <= i < l.len() implies 1 <= (#[trigger] l[i]).0 <= b.len() && l[i].1
        > 0 by {
        if i < lists.len() {
            assert(l[i] == lists[i]);
        }
    }
    if left > 1 {
        assert(b + item =~= bytes.push(0) + (items + item));
        assert(l.update(l.len() - 1, (n + 1, left - 1)) =~= lists.push((n + 1, left - 1)));
    } else {
        assert((b + item).take(n) =~= bytes);
        assert((b + item).skip(n + 1) =~= items + item);
        assert(l.drop_last() =~= lists);
    }
}

} // verus!

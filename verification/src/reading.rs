//! What a reader finds in the encodings of transactions.

use crate::circuit::block_encodings;
use crate::decode::be_value;
use crate::field::le_byte;
use crate::rlp_stream::{
    concat_all, item_header, minimal_be, rlp_list, rlp_string, without_leading_zeros,
};
use crate::round_trip::{lemma_minimal_be, lemma_tail_parts, lemma_without_leading_zeros};
use crate::taiko_pi_circuit::lemma_number_is_unique;
use crate::transaction::{
    access_item_rlp, access_list_rlp, access_view, dynamic_fee_items, legacy_encodings,
    legacy_items, signature_of, string_encodings, word_of, AccessListItem, Signature,
    SignedDynamicFeeTransaction, SignedTransaction, Transaction,
};
use vstd::prelude::*;

verus! {

/// How many bytes stand in front of what the first item of `bytes` holds.
pub open spec fn head_size(bytes: Seq<u8>) -> int {
    let byte0 = bytes[0];
    if byte0 < 0x80 {
        0
    } else if byte0 <= 0xb7 {
        1
    } else if byte0 <= 0xbf {
        byte0 - 0xb6
    } else if byte0 <= 0xf7 {
        1
    } else {
        byte0 - 0xf6
    }
}

/// How many bytes the first item of `bytes` holds.
pub open spec fn body_size(bytes: Seq<u8>) -> int {
    let byte0 = bytes[0];
    if byte0 < 0x80 {
        1
    } else if byte0 <= 0xb7 {
        byte0 - 0x80
    } else if byte0 <= 0xbf {
        be_value(bytes.subrange(1, byte0 - 0xb6))
    } else if byte0 <= 0xf7 {
        byte0 - 0xc0
    } else {
        be_value(bytes.subrange(1, byte0 - 0xf6))
    }
}

/// The first item of `bytes` is a list.
pub open spec fn is_list(bytes: Seq<u8>) -> bool {
    bytes[0] >= 0xc0
}

/// How many bytes the first item of `bytes` takes.
pub open spec fn item_size(bytes: Seq<u8>) -> int {
    head_size(bytes) + body_size(bytes)
}

/// What the first item of `bytes` holds.
pub open spec fn body(bytes: Seq<u8>) -> Seq<u8> {
    bytes.subrange(head_size(bytes), item_size(bytes))
}

/// What is left of `bytes` behind `k` items.
pub open spec fn behind(bytes: Seq<u8>, k: nat) -> Seq<u8>
    decreases k,
{
    if k == 0 {
        bytes
    } else {
        let rest = behind(bytes, (k - 1) as nat);
        rest.skip(item_size(rest))
    }
}

/// Item `k` of `bytes`, as it stands there.
pub open spec fn item(bytes: Seq<u8>, k: nat) -> Seq<u8> {
    behind(bytes, k).take(item_size(behind(bytes, k)))
}

/// Item `k` of `bytes` is a string that holds `value`.
pub open spec fn string_at(bytes: Seq<u8>, k: nat, value: Seq<u8>) -> bool {
    &&& behind(bytes, k).len() > 0
    &&& !is_list(behind(bytes, k))
    &&& body(behind(bytes, k)) == value
}

/// Item `k` of `bytes` is the shortest string that holds the number `value`.
pub open spec fn number_at(bytes: Seq<u8>, k: nat, value: int) -> bool {
    let digits = body(behind(bytes, k));
    &&& string_at(bytes, k, digits)
    &&& be_value(digits) == value
    &&& digits.len() > 0 ==> digits[0] != 0
}

/// Item `k` of `bytes` is the string of the address, or the empty string without one.
pub open spec fn address_at(bytes: Seq<u8>, k: nat, address: Option<[u8; 20]>) -> bool {
    match address {
        Some(a) => string_at(bytes, k, a@),
        None => string_at(bytes, k, seq![]),
    }
}

/// `item` is read as one item, whatever stands behind it.
pub open spec fn is_whole(item: Seq<u8>) -> bool {
    &&& item.len() > 0
    &&& forall|rest: Seq<u8>|
        #![trigger item + rest]
        item_size(item + rest) == item.len() && body(item + rest) == body(item) && is_list(
            item + rest,
        ) == is_list(item)
}

/// What a header says is read.
proof fn lemma_reads_header(base: int, len: nat, rest: Seq<u8>)
    requires
        base == 0x80 || base == 0xc0,
        len <= u32::MAX,
    ensures
        ({
            let bytes = item_header(base, len) + rest;
            &&& bytes[0] >= base
            &&& base == 0x80 ==> bytes[0] < 0xc0
            &&& head_size(bytes) == item_header(base, len).len()
            &&& body_size(bytes) == len
        }),
{
    lemma_minimal_be(len);
    let digits = minimal_be(len);
    let bytes = item_header(base, len) + rest;
    if len > 55 {
        assert(bytes[0] == base + 55 + digits.len());
        assert(bytes.subrange(1, 1 + digits.len() as int) =~= digits);
    }
}

/// The encoding of a string is read back.
pub proof fn lemma_reads_string(value: Seq<u8>)
    requires
        value.len() <= u32::MAX,
    ensures
        is_whole(rlp_string(value)),
        !is_list(rlp_string(value)),
        body(rlp_string(value)) == value,
{
    let s = rlp_string(value);
    assert forall|rest: Seq<u8>| #[trigger]
        is_read(s + rest, s.len() as int, value, false) by {
        let bytes = s + rest;
        if value.len() == 1 && value[0] < 0x80 {
            assert(bytes[0] == value[0]);
            assert(body(bytes) =~= value);
        } else {
            lemma_reads_header(0x80, value.len(), value + rest);
            assert(bytes =~= item_header(0x80, value.len()) + (value + rest));
            assert(body(bytes) =~= value);
        }
    }
    lemma_is_whole(s, value, false);
}

/// The encoding of a list is read back.
pub proof fn lemma_reads_list(payload: Seq<u8>)
    requires
        payload.len() <= u32::MAX,
    ensures
        is_whole(rlp_list(payload)),
        is_list(rlp_list(payload)),
        body(rlp_list(payload)) == payload,
{
    let s = rlp_list(payload);
    assert forall|rest: Seq<u8>| #[trigger]
        is_read(s + rest, s.len() as int, payload, true) by {
        let bytes = s + rest;
        lemma_reads_header(0xc0, payload.len(), payload + rest);
        assert(bytes =~= item_header(0xc0, payload.len()) + (payload + rest));
        assert(body(bytes) =~= payload);
    }
    lemma_is_whole(s, payload, true);
}

/// The first item of `bytes` takes `size` bytes and holds `value`.
spec fn is_read(bytes: Seq<u8>, size: int, value: Seq<u8>, list: bool) -> bool {
    item_size(bytes) == size && body(bytes) == value && is_list(bytes) == list
}

proof fn lemma_is_whole(s: Seq<u8>, value: Seq<u8>, list: bool)
    requires
        s.len() > 0,
        forall|rest: Seq<u8>| #[trigger] is_read(s + rest, s.len() as int, value, list),
    ensures
        is_whole(s),
        is_list(s) == list,
        body(s) == value,
{
    let none = Seq::<u8>::empty();
    assert(is_read(s + none, s.len() as int, value, list));
    assert(s + none =~= s);
    assert forall|rest: Seq<u8>| #![trigger s + rest] item_size(s + rest) == s.len() && body(
        s + rest,
    ) == body(s) && is_list(s + rest) == is_list(s) by {
        assert(is_read(s + rest, s.len() as int, value, list));
    }
}

/// Items that follow each other are read one by one.
pub proof fn lemma_reads_items(items: Seq<Seq<u8>>, k: nat)
    requires
        forall|i: int| 0 <= i < items.len() ==> is_whole(#[trigger] items[i]),
        k <= items.len(),
    ensures
        behind(concat_all(items), k) == concat_all(items.skip(k as int)),
        k < items.len() ==> {
            let rest = behind(concat_all(items), k);
            &&& rest.len() > 0
            &&& body(rest) == body(items[k as int])
            &&& is_list(rest) == is_list(items[k as int])
            &&& item(concat_all(items), k) == items[k as int]
        },
        k == items.len() ==> behind(concat_all(items), k).len() == 0,
    decreases k,
{
    let all = concat_all(items);
    if k == 0 {
        assert(items.skip(0) =~= items);
    } else {
        let j = (k - 1) as nat;
        lemma_reads_items(items, j);
        let none = Seq::<u8>::empty();
        lemma_tail_parts(items, none, j as int);
        let tail = concat_all(items.skip(k as int));
        assert(concat_all(items.skip(j as int)) + none =~= concat_all(items.skip(j as int)));
        assert(tail + none =~= tail);
        assert(is_whole(items[j as int]));
        assert((items[j as int] + tail).skip(items[j as int].len() as int) =~= tail);
    }
    if k < items.len() {
        let none = Seq::<u8>::empty();
        lemma_tail_parts(items, none, k as int);
        let tail = concat_all(items.skip(k as int + 1));
        assert(concat_all(items.skip(k as int)) + none =~= concat_all(items.skip(k as int)));
        assert(tail + none =~= tail);
        assert(is_whole(items[k as int]));
        assert((items[k as int] + tail).take(items[k as int].len() as int) =~= items[k as int]);
    } else {
        assert(items.skip(k as int) =~= seq![]);
    }
}

/// Leading zeros do not count.
proof fn lemma_zeros_do_not_count(word: Seq<u8>)
    ensures
        be_value(without_leading_zeros(word)) == be_value(word),
    decreases word.len(),
{
    if word.len() > 0 && word[0] == 0 {
        lemma_zeros_do_not_count(word.skip(1));
        lemma_zero_in_front(word);
    }
}

proof fn lemma_zero_in_front(word: Seq<u8>)
    requires
        word.len() > 0,
        word[0] == 0,
    ensures
        be_value(word.skip(1)) == be_value(word),
    decreases word.len(),
{
    if word.len() == 1 {
        reveal_with_fuel(be_value, 2);
        assert(word.skip(1) =~= seq![]);
    } else {
        lemma_zero_in_front(word.drop_last());
        assert(word.skip(1).drop_last() =~= word.drop_last().skip(1));
    }
}

/// The encoding of a word is read back as its number.
pub proof fn lemma_reads_word(word: Seq<u8>)
    requires
        without_leading_zeros(word).len() <= u32::MAX,
    ensures
        ({
            let s = rlp_string(without_leading_zeros(word));
            &&& is_whole(s)
            &&& !is_list(s)
            &&& be_value(body(s)) == be_value(word)
            &&& body(s).len() > 0 ==> body(s)[0] != 0
        }),
{
    lemma_without_leading_zeros(word);
    lemma_reads_string(without_leading_zeros(word));
    lemma_zeros_do_not_count(word);
}

/// A word has few bytes.
proof fn lemma_words_are_short()
    ensures
        forall|word: Seq<u8>|
            word.len() <= 32 ==> (#[trigger] without_leading_zeros(word)).len() <= 32,
{
    assert forall|word: Seq<u8>| word.len() <= 32 implies (#[trigger] without_leading_zeros(
        word,
    )).len() <= 32 by {
        lemma_without_leading_zeros(word);
    }
}

/// A part is no longer than the whole.
proof fn lemma_part_is_shorter(parts: Seq<Seq<u8>>, k: int)
    requires
        0 <= k < parts.len(),
    ensures
        parts[k].len() <= concat_all(parts).len(),
    decreases parts.len(),
{
    if k < parts.len() - 1 {
        lemma_part_is_shorter(parts.drop_last(), k);
    }
}

/// In `bytes` stands a list of nine items: the nonce, gas price, gas, recipient, value and data of
/// the transaction, and the three parts of its signature.
pub open spec fn reads_signed(bytes: Seq<u8>, t: SignedTransaction) -> bool {
    let items = body(bytes);
    &&& bytes.len() > 0
    &&& is_list(bytes)
    &&& item_size(bytes) == bytes.len()
    &&& number_at(items, 0, be_value(t.tx.nonce@))
    &&& number_at(items, 1, be_value(t.tx.gas_price->0@))
    &&& number_at(items, 2, be_value(t.tx.gas@))
    &&& address_at(items, 3, t.tx.to)
    &&& number_at(items, 4, be_value(t.tx.value@))
    &&& string_at(items, 5, t.tx.input@)
    &&& number_at(items, 6, t.signature.v as int)
    &&& number_at(items, 7, be_value(t.signature.r@))
    &&& number_at(items, 8, be_value(t.signature.s@))
    &&& behind(items, 9).len() == 0
}

/// In `bytes` stands a list of two items: the address, and the list of the keys.
pub open spec fn reads_access_item(bytes: Seq<u8>, access: AccessListItem) -> bool {
    let items = body(bytes);
    let keys = body(behind(items, 1));
    &&& bytes.len() > 0
    &&& is_list(bytes)
    &&& item_size(bytes) == bytes.len()
    &&& string_at(items, 0, access.address@)
    &&& behind(items, 1).len() > 0
    &&& is_list(behind(items, 1))
    &&& behind(items, 2).len() == 0
    &&& forall|k: nat|
        k < access.storage_keys@.len() ==> #[trigger] string_at(
            keys,
            k,
            access.storage_keys@[k as int]@,
        )
    &&& behind(keys, access.storage_keys@.len()).len() == 0
}

/// In `bytes` stands a list of the items of the access list.
pub open spec fn reads_access_list(bytes: Seq<u8>, list: Seq<AccessListItem>) -> bool {
    let items = body(bytes);
    &&& bytes.len() > 0
    &&& is_list(bytes)
    &&& item_size(bytes) == bytes.len()
    &&& forall|k: nat|
        k < list.len() ==> (#[trigger] behind(items, k)).len() > 0 && reads_access_item(
            item(items, k),
            list[k as int],
        )
    &&& behind(items, list.len()).len() == 0
}

/// In `bytes` stand the type 2 and a list of twelve items: the chain, nonce, two fees, gas,
/// recipient, value, data and access list of the transaction, and the three parts of its signature.
pub open spec fn reads_signed_dynamic_fee(bytes: Seq<u8>, t: SignedDynamicFeeTransaction) -> bool {
    let list = bytes.skip(1);
    let items = body(list);
    &&& bytes.len() > 1
    &&& bytes[0] == 2
    &&& is_list(list)
    &&& item_size(list) == list.len()
    &&& number_at(items, 0, be_value(t.tx.chain_id->0@))
    &&& number_at(items, 1, be_value(t.tx.nonce@))
    &&& number_at(items, 2, be_value(t.tx.max_priority_fee_per_gas->0@))
    &&& number_at(items, 3, be_value(t.tx.max_fee_per_gas->0@))
    &&& number_at(items, 4, be_value(t.tx.gas@))
    &&& address_at(items, 5, t.tx.to)
    &&& number_at(items, 6, be_value(t.tx.value@))
    &&& string_at(items, 7, t.tx.input@)
    &&& item(items, 8) == access_list_rlp(access_view(t.tx.access_list->0@))
    &&& reads_access_list(item(items, 8), t.tx.access_list->0@)
    &&& number_at(items, 9, t.signature.v as int)
    &&& number_at(items, 10, be_value(t.signature.r@))
    &&& number_at(items, 11, be_value(t.signature.s@))
    &&& behind(items, 12).len() == 0
}

/// A signed transaction is given back by its encoding.
pub proof fn law_legacy_encoding_is_read_back(t: SignedTransaction)
    requires
        t.tx.gas_price is Some,
        t.encoding().len() <= u32::MAX,
    ensures
        reads_signed(t.encoding(), t),
{
    let items = legacy_items(t.tx@, t.signature@);
    let payload = concat_all(items);
    assert(payload.len() <= t.encoding().len());
    lemma_reads_list(payload);
    assert(t.encoding() + Seq::<u8>::empty() =~= t.encoding());
    lemma_part_is_shorter(items, 5);
    assert(t.tx.input@.len() <= items[5].len());
    lemma_words_are_short();
    lemma_reads_word(t.tx.nonce@);
    lemma_reads_word(t.tx.gas_price->0@);
    lemma_reads_word(t.tx.gas@);
    match t.tx.to {
        Some(a) => lemma_reads_string(a@),
        None => lemma_reads_string(seq![]),
    }
    lemma_reads_word(t.tx.value@);
    lemma_reads_string(t.tx.input@);
    lemma_minimal_be(t.signature.v as nat);
    lemma_reads_string(minimal_be(t.signature.v as nat));
    lemma_reads_word(t.signature.r@);
    lemma_reads_word(t.signature.s@);
    assert forall|i: int| 0 <= i < items.len() implies is_whole(#[trigger] items[i]) by {}
    lemma_reads_items(items, 0);
    lemma_reads_items(items, 1);
    lemma_reads_items(items, 2);
    lemma_reads_items(items, 3);
    lemma_reads_items(items, 4);
    lemma_reads_items(items, 5);
    lemma_reads_items(items, 6);
    lemma_reads_items(items, 7);
    lemma_reads_items(items, 8);
    lemma_reads_items(items, 9);
}

/// Two numbers that are read from one item are the same.
proof fn lemma_same_word(bytes: Seq<u8>, k: nat, a: Seq<u8>, b: Seq<u8>)
    requires
        a.len() == b.len(),
        number_at(bytes, k, be_value(a)),
        number_at(bytes, k, be_value(b)),
    ensures
        a == b,
{
    lemma_number_is_unique(a, b);
}

/// Two addresses that are read from one item are the same.
proof fn lemma_same_address(bytes: Seq<u8>, k: nat, a: Option<[u8; 20]>, b: Option<[u8; 20]>)
    requires
        address_at(bytes, k, a),
        address_at(bytes, k, b),
    ensures
        a is Some == b is Some,
        a is Some ==> a->0@ == b->0@,
{
    let found = body(behind(bytes, k));
    assert(a is Some ==> found.len() == 20);
    assert(b is Some ==> found.len() == 20);
    assert(a is None ==> found.len() == 0);
    assert(b is None ==> found.len() == 0);
}

/// Signed transactions with one encoding are the same in every field that is encoded.
pub proof fn law_legacy_encoding_is_injective(a: SignedTransaction, b: SignedTransaction)
    requires
        a.tx.gas_price is Some,
        b.tx.gas_price is Some,
        a.encoding().len() <= u32::MAX,
        a.encoding() == b.encoding(),
    ensures
        a.tx.nonce@ == b.tx.nonce@,
        a.tx.gas_price->0@ == b.tx.gas_price->0@,
        a.tx.gas@ == b.tx.gas@,
        a.tx.to is Some == b.tx.to is Some,
        a.tx.to is Some ==> a.tx.to->0@ == b.tx.to->0@,
        a.tx.value@ == b.tx.value@,
        a.tx.input@ == b.tx.input@,
        a.signature.v == b.signature.v,
        a.signature.r@ == b.signature.r@,
        a.signature.s@ == b.signature.s@,
{
    law_legacy_encoding_is_read_back(a);
    law_legacy_encoding_is_read_back(b);
    let items = body(a.encoding());
    lemma_same_word(items, 0, a.tx.nonce@, b.tx.nonce@);
    lemma_same_word(items, 1, a.tx.gas_price->0@, b.tx.gas_price->0@);
    lemma_same_word(items, 2, a.tx.gas@, b.tx.gas@);
    lemma_same_address(items, 3, a.tx.to, b.tx.to);
    lemma_same_word(items, 4, a.tx.value@, b.tx.value@);
    lemma_same_word(items, 7, a.signature.r@, b.signature.r@);
    lemma_same_word(items, 8, a.signature.s@, b.signature.s@);
}

/// The encoding of an item of an access list gives back its address and its keys.
proof fn lemma_reads_access_item(access: AccessListItem)
    requires
        access_item_rlp(access@).len() <= u32::MAX,
    ensures
        is_whole(access_item_rlp(access@)),
        reads_access_item(access_item_rlp(access@), access),
{
    let bytes = access_item_rlp(access@);
    let n = access.storage_keys@.len();
    let keys = Seq::new(n, |i: int| rlp_string(access@.storage_keys[i]));
    assert(keys =~= Seq::new(
        access@.storage_keys.len(),
        |i: int| rlp_string(access@.storage_keys[i]),
    ));
    let inner = seq![rlp_string(access.address@), rlp_list(concat_all(keys))];
    let payload = rlp_string(access.address@) + rlp_list(concat_all(keys));
    assert(concat_all(inner) =~= payload) by {
        reveal_with_fuel(concat_all, 3);
        assert(inner.drop_last() =~= seq![rlp_string(access.address@)]);
        assert(inner.drop_last().drop_last() =~= seq![]);
    }
    assert(bytes == rlp_list(payload));
    assert(payload.len() <= bytes.len());
    lemma_reads_list(payload);
    assert(bytes + Seq::<u8>::empty() =~= bytes);
    lemma_reads_string(access.address@);
    assert(concat_all(keys).len() <= rlp_list(concat_all(keys)).len());
    lemma_reads_list(concat_all(keys));
    assert forall|i: int| 0 <= i < inner.len() implies is_whole(#[trigger] inner[i]) by {}
    lemma_reads_items(inner, 0);
    lemma_reads_items(inner, 1);
    lemma_reads_items(inner, 2);
    assert forall|i: int| 0 <= i < keys.len() implies is_whole(#[trigger] keys[i]) by {
        lemma_reads_string(access@.storage_keys[i]);
    }
    assert forall|k: nat| k < n implies #[trigger] string_at(
        concat_all(keys),
        k,
        access.storage_keys@[k as int]@,
    ) by {
        lemma_reads_string(access@.storage_keys[k as int]);
        lemma_reads_items(keys, k);
    }
    lemma_reads_items(keys, n);
}

/// The encoding of an access list gives back its items, in order, each of them with its address and
/// its keys.
pub proof fn law_access_list_is_read_back(list: Seq<AccessListItem>)
    requires
        access_list_rlp(access_view(list)).len() <= u32::MAX,
    ensures
        is_whole(access_list_rlp(access_view(list))),
        reads_access_list(access_list_rlp(access_view(list)), list),
{
    let bytes = access_list_rlp(access_view(list));
    let view = access_view(list);
    let items = Seq::new(view.len(), |i: int| access_item_rlp(view[i]));
    assert(concat_all(items).len() <= bytes.len());
    assert forall|i: int| 0 <= i < items.len() implies is_whole(#[trigger] items[i])
        && reads_access_item(items[i], list[i]) by {
        lemma_part_is_shorter(items, i);
        lemma_reads_access_item(list[i]);
    }
    lemma_reads_list(concat_all(items));
    assert(bytes + Seq::<u8>::empty() =~= bytes);
    assert forall|k: nat| k < list.len() implies (#[trigger] behind(concat_all(items), k)).len() > 0
        && reads_access_item(item(concat_all(items), k), list[k as int]) by {
        lemma_reads_items(items, k);
        assert(reads_access_item(items[k as int], list[k as int]));
    }
    lemma_reads_items(items, list.len());
}

/// Access lists that are read from one item are the same.
proof fn lemma_same_access_list(bytes: Seq<u8>, a: Seq<AccessListItem>, b: Seq<AccessListItem>)
    requires
        reads_access_list(bytes, a),
        reads_access_list(bytes, b),
    ensures
        access_view(a) == access_view(b),
{
    let items = body(bytes);
    assert(a.len() == b.len()) by {
        if a.len() < b.len() {
            assert(behind(items, a.len()).len() > 0);
        }
        if b.len() < a.len() {
            assert(behind(items, b.len()).len() > 0);
        }
    }
    assert forall|k: nat| k < a.len() implies a[k as int]@ == b[k as int]@ by {
        assert(behind(items, k).len() > 0);
        lemma_same_access_item(item(items, k), a[k as int], b[k as int]);
    }
    assert forall|i: int| 0 <= i < a.len() implies access_view(a)[i] == access_view(b)[i] by {
        assert(a[(i as nat) as int]@ == b[(i as nat) as int]@);
    }
    assert(access_view(a) =~= access_view(b));
}

proof fn lemma_same_access_item(bytes: Seq<u8>, a: AccessListItem, b: AccessListItem)
    requires
        reads_access_item(bytes, a),
        reads_access_item(bytes, b),
    ensures
        a.address@ == b.address@,
        a.storage_keys@.len() == b.storage_keys@.len(),
        forall|i: int|
            0 <= i < a.storage_keys@.len() ==> (#[trigger] a.storage_keys@[i])@
                == b.storage_keys@[i]@,
        a@ == b@,
{
    let keys = body(behind(body(bytes), 1));
    let (n, m) = (a.storage_keys@.len(), b.storage_keys@.len());
    assert(n == m) by {
        if n < m {
            assert(string_at(keys, n, b.storage_keys@[n as int]@));
        }
        if m < n {
            assert(string_at(keys, m, a.storage_keys@[m as int]@));
        }
    }
    assert forall|i: int| 0 <= i < n implies (#[trigger] a.storage_keys@[i])@
        == b.storage_keys@[i]@ by {
        assert(string_at(keys, i as nat, a.storage_keys@[i]@));
        assert(string_at(keys, i as nat, b.storage_keys@[i]@));
    }
    assert(a@.storage_keys =~= b@.storage_keys);
}

/// Access lists with one view are the same in every address and key.
pub proof fn law_view_tells_access_lists_apart(
    a: Seq<AccessListItem>,
    b: Seq<AccessListItem>,
    i: int,
    j: int,
)
    requires
        access_view(a) == access_view(b),
    ensures
        a.len() == b.len(),
        0 <= i < a.len() ==> {
            &&& a[i].address@ == b[i].address@
            &&& a[i].storage_keys@.len() == b[i].storage_keys@.len()
            &&& 0 <= j < a[i].storage_keys@.len() ==> a[i].storage_keys@[j]@
                == b[i].storage_keys@[j]@
        },
{
    assert(access_view(a).len() == a.len());
    assert(access_view(b).len() == b.len());
    if 0 <= i < a.len() {
        assert(access_view(a)[i] == a[i]@);
        assert(access_view(b)[i] == b[i]@);
        let (x, y) = (a[i]@.storage_keys, b[i]@.storage_keys);
        assert(x.len() == a[i].storage_keys@.len());
        assert(y.len() == b[i].storage_keys@.len());
        if 0 <= j < a[i].storage_keys@.len() {
            assert(x[j] == a[i].storage_keys@[j]@);
            assert(y[j] == b[i].storage_keys@[j]@);
        }
    }
}

/// A signed dynamic fee transaction is given back by its encoding.
pub proof fn law_dynamic_fee_encoding_is_read_back(t: SignedDynamicFeeTransaction)
    requires
        t.has_fees(),
        t.encoding().len() <= u32::MAX,
    ensures
        reads_signed_dynamic_fee(t.encoding(), t),
{
    let items = dynamic_fee_items(t.tx@, t.signature@);
    let payload = concat_all(items);
    let list = rlp_list(payload);
    reveal_with_fuel(minimal_be, 2);
    assert(minimal_be(2) =~= seq![2u8]);
    assert(t.encoding() == seq![2u8] + list);
    assert(t.encoding().skip(1) =~= list);
    assert(payload.len() <= list.len());
    lemma_reads_list(payload);
    assert(list + Seq::<u8>::empty() =~= list);
    lemma_part_is_shorter(items, 7);
    assert(t.tx.input@.len() <= items[7].len());
    lemma_part_is_shorter(items, 8);
    law_access_list_is_read_back(t.tx.access_list->0@);
    lemma_words_are_short();
    lemma_reads_word(t.tx.chain_id->0@);
    lemma_reads_word(t.tx.nonce@);
    lemma_reads_word(t.tx.max_priority_fee_per_gas->0@);
    lemma_reads_word(t.tx.max_fee_per_gas->0@);
    lemma_reads_word(t.tx.gas@);
    match t.tx.to {
        Some(a) => lemma_reads_string(a@),
        None => lemma_reads_string(seq![]),
    }
    lemma_reads_word(t.tx.value@);
    lemma_reads_string(t.tx.input@);
    lemma_minimal_be(t.signature.v as nat);
    lemma_reads_string(minimal_be(t.signature.v as nat));
    lemma_reads_word(t.signature.r@);
    lemma_reads_word(t.signature.s@);
    assert forall|i: int| 0 <= i < items.len() implies is_whole(#[trigger] items[i]) by {}
    lemma_reads_items(items, 0);
    lemma_reads_items(items, 1);
    lemma_reads_items(items, 2);
    lemma_reads_items(items, 3);
    lemma_reads_items(items, 4);
    lemma_reads_items(items, 5);
    lemma_reads_items(items, 6);
    lemma_reads_items(items, 7);
    lemma_reads_items(items, 8);
    lemma_reads_items(items, 9);
    lemma_reads_items(items, 10);
    lemma_reads_items(items, 11);
    lemma_reads_items(items, 12);
}

/// Signed dynamic fee transactions with one encoding are the same in every field that is encoded,
/// their access lists among them.
pub proof fn law_dynamic_fee_encoding_is_injective(
    a: SignedDynamicFeeTransaction,
    b: SignedDynamicFeeTransaction,
)
    requires
        a.has_fees(),
        b.has_fees(),
        a.encoding().len() <= u32::MAX,
        a.encoding() == b.encoding(),
    ensures
        a.tx.chain_id->0@ == b.tx.chain_id->0@,
        a.tx.nonce@ == b.tx.nonce@,
        a.tx.max_priority_fee_per_gas->0@ == b.tx.max_priority_fee_per_gas->0@,
        a.tx.max_fee_per_gas->0@ == b.tx.max_fee_per_gas->0@,
        a.tx.gas@ == b.tx.gas@,
        a.tx.to is Some == b.tx.to is Some,
        a.tx.to is Some ==> a.tx.to->0@ == b.tx.to->0@,
        a.tx.value@ == b.tx.value@,
        a.tx.input@ == b.tx.input@,
        access_view(a.tx.access_list->0@) == access_view(b.tx.access_list->0@),
        a.signature.v == b.signature.v,
        a.signature.r@ == b.signature.r@,
        a.signature.s@ == b.signature.s@,
{
    law_dynamic_fee_encoding_is_read_back(a);
    law_dynamic_fee_encoding_is_read_back(b);
    let items = body(a.encoding().skip(1));
    lemma_same_word(items, 0, a.tx.chain_id->0@, b.tx.chain_id->0@);
    lemma_same_word(items, 1, a.tx.nonce@, b.tx.nonce@);
    lemma_same_word(
        items,
        2,
        a.tx.max_priority_fee_per_gas->0@,
        b.tx.max_priority_fee_per_gas->0@,
    );
    lemma_same_word(items, 3, a.tx.max_fee_per_gas->0@, b.tx.max_fee_per_gas->0@);
    lemma_same_word(items, 4, a.tx.gas@, b.tx.gas@);
    lemma_same_address(items, 5, a.tx.to, b.tx.to);
    lemma_same_word(items, 6, a.tx.value@, b.tx.value@);
    lemma_same_access_list(item(items, 8), a.tx.access_list->0@, b.tx.access_list->0@);
    lemma_same_word(items, 10, a.signature.r@, b.signature.r@);
    lemma_same_word(items, 11, a.signature.s@, b.signature.s@);
}

/// `bytes` is a list of the given items, and of nothing else.
pub open spec fn lists_items(bytes: Seq<u8>, items: Seq<Seq<u8>>) -> bool {
    &&& bytes.len() > 0
    &&& is_list(bytes)
    &&& item_size(bytes) == bytes.len()
    &&& forall|k: nat|
        k < items.len() ==> #[trigger] item(body(bytes), k) == items[k as int]
    &&& behind(body(bytes), items.len()).len() == 0
}

/// A list of whole items is read back.
pub proof fn lemma_lists_items(items: Seq<Seq<u8>>)
    requires
        forall|i: int| 0 <= i < items.len() ==> is_whole(#[trigger] items[i]),
        concat_all(items).len() <= u32::MAX,
    ensures
        lists_items(rlp_list(concat_all(items)), items),
{
    let bytes = rlp_list(concat_all(items));
    lemma_reads_list(concat_all(items));
    assert(bytes + Seq::<u8>::empty() =~= bytes);
    assert forall|k: nat| k < items.len() implies #[trigger] item(body(bytes), k)
        == items[k as int] by {
        lemma_reads_items(items, k);
    }
    lemma_reads_items(items, items.len());
}

/// The list of signed transactions gives back the encoding of each of them, in order.
pub proof fn law_transaction_list_is_read_back(txs: Seq<SignedTransaction>)
    requires
        forall|i: int| 0 <= i < txs.len() ==> (#[trigger] txs[i]).tx.gas_price is Some,
        rlp_list(concat_all(legacy_encodings(txs))).len() <= u32::MAX,
    ensures
        lists_items(
            rlp_list(concat_all(legacy_encodings(txs))),
            Seq::new(txs.len(), |i: int| txs[i].encoding()),
        ),
{
    let items = legacy_encodings(txs);
    assert(items =~= Seq::new(txs.len(), |i: int| txs[i].encoding()));
    assert forall|i: int| 0 <= i < items.len() implies is_whole(#[trigger] items[i]) by {
        lemma_part_is_shorter(items, i);
        let payload = concat_all(legacy_items(txs[i].tx@, txs[i].signature@));
        assert(payload.len() <= items[i].len());
        lemma_reads_list(payload);
    }
    lemma_lists_items(items);
}

/// The list that a block is encoded as gives back its transactions, in order: item `k` reads as
/// transaction `k` with the signature that it carries.
pub proof fn law_block_list_is_read_back(txs: Seq<Transaction>, k: nat)
    requires
        forall|i: int| 0 <= i < txs.len() ==> (#[trigger] txs[i]).gas_price is Some,
        rlp_list(concat_all(block_encodings(txs))).len() <= u32::MAX,
        k < txs.len(),
    ensures
        ({
            let bytes = rlp_list(concat_all(block_encodings(txs)));
            let tx = txs[k as int];
            &&& is_list(bytes)
            &&& item_size(bytes) == bytes.len()
            &&& reads_signed(
                item(body(bytes), k),
                (SignedTransaction {
                    tx,
                    signature: (Signature { v: tx.v, r: tx.r, s: tx.s }),
                }),
            )
            &&& behind(body(bytes), txs.len()).len() == 0
        }),
{
    let signed = Seq::new(
        txs.len(),
        |i: int|
            SignedTransaction {
                tx: txs[i],
                signature: Signature { v: txs[i].v, r: txs[i].r, s: txs[i].s },
            },
    );
    assert forall|i: int| 0 <= i < txs.len() implies (#[trigger] signed[i]).encoding()
        == block_encodings(txs)[i] by {}
    assert(legacy_encodings(signed) =~= block_encodings(txs));
    law_transaction_list_is_read_back(signed);
    let items = Seq::new(signed.len(), |i: int| signed[i].encoding());
    assert(item(body(rlp_list(concat_all(block_encodings(txs)))), k) == items[k as int]);
    lemma_part_is_shorter(block_encodings(txs), k as int);
    assert(concat_all(block_encodings(txs)).len() <= u32::MAX);
    law_legacy_encoding_is_read_back(signed[k as int]);
}

/// The list of byte strings gives back each of them, in order.
pub proof fn law_string_list_is_read_back(strings: Seq<Vec<u8>>)
    requires
        rlp_list(concat_all(string_encodings(strings))).len() <= u32::MAX,
    ensures
        ({
            let bytes = rlp_list(concat_all(string_encodings(strings)));
            &&& is_list(bytes)
            &&& item_size(bytes) == bytes.len()
            &&& forall|k: nat|
                k < strings.len() ==> #[trigger] string_at(body(bytes), k, strings[k as int]@)
            &&& behind(body(bytes), strings.len()).len() == 0
        }),
{
    let items = string_encodings(strings);
    assert forall|i: int| 0 <= i < items.len() implies is_whole(#[trigger] items[i]) by {
        lemma_part_is_shorter(items, i);
        assert(strings[i]@.len() <= items[i].len());
        lemma_reads_string(strings[i]@);
    }
    lemma_lists_items(items);
    lemma_reads_list(concat_all(items));
    let bytes = rlp_list(concat_all(items));
    assert forall|k: nat| k < strings.len() implies #[trigger] string_at(
        body(bytes),
        k,
        strings[k as int]@,
    ) by {
        lemma_reads_items(items, k);
        lemma_part_is_shorter(items, k as int);
        lemma_reads_string(strings[k as int]@);
    }
}

/// A word made from a number holds the number.
pub proof fn law_word_holds_the_number(v: u64)
    ensures
        word_of(v).len() == 32,
        be_value(word_of(v)) == v,
{
    lemma_word_front(v, 0);
    assert(word_of(v).take(32) =~= word_of(v));
}

/// The word without its last `n` bytes.
proof fn lemma_word_front(v: u64, n: nat)
    requires
        n <= 32,
    ensures
        be_value(word_of(v).take(32 - n)) == shifted(v as int, n),
    decreases 32 - n,
{
    let word = word_of(v);
    if n == 32 {
        lemma_shifted(v, 32);
    } else {
        lemma_word_front(v, n + 1);
        assert(word.take(32 - n).drop_last() =~= word.take(32 - (n + 1)));
        lemma_shifted(v, n);
        lemma_shifted_byte(v as int, n);
        assert(word.take(32 - n).last() == word[31 - n]);
    }
}

/// `v` without its last `n` bytes.
spec fn shifted(v: int, n: nat) -> int
    decreases n,
{
    if n == 0 {
        v
    } else {
        shifted(v / 256, (n - 1) as nat)
    }
}

proof fn lemma_shifted(v: u64, n: nat)
    ensures
        shifted(v as int, n) >= 0,
        n >= 8 ==> shifted(v as int, n) == 0,
{
    reveal_with_fuel(shifted, 9);
    lemma_shifted_zero(v as int, n);
    if n >= 8 {
        let w = v / 256 / 256 / 256 / 256 / 256 / 256 / 256 / 256;
        assert(w == 0);
        lemma_shifted_zero(0, (n - 8) as nat);
    }
}

proof fn lemma_shifted_zero(v: int, n: nat)
    requires
        v >= 0,
    ensures
        shifted(v, n) >= 0,
        v == 0 ==> shifted(v, n) == 0,
    decreases n,
{
    if n > 0 {
        lemma_shifted_zero(v / 256, (n - 1) as nat);
    }
}

/// What is left of a number, and its next byte.
proof fn lemma_shifted_byte(v: int, n: nat)
    requires
        v >= 0,
    ensures
        shifted(v, n) == shifted(v, n + 1) * 256 + le_byte(v, n),
        0 <= le_byte(v, n) < 256,
    decreases n,
{
    if n == 0 {
        reveal_with_fuel(shifted, 2);
    } else {
        lemma_shifted_byte(v / 256, (n - 1) as nat);
    }
}

/// The signature of a transaction is the one that its fields hold, and signatures with one view are
/// the same.
pub proof fn law_signature_is_carried_over(tx: Transaction, signature: Signature)
    requires
        signature@ == signature_of(tx@),
    ensures
        signature.r@ == tx.r@,
        signature.s@ == tx.s@,
        signature.v == tx.v,
{
}

/// Transactions with one view are the same in every field.
pub proof fn law_view_tells_transactions_apart(a: Transaction, b: Transaction)
    requires
        a@ == b@,
    ensures
        a.hash@ == b.hash@,
        a.nonce@ == b.nonce@,
        a.to is Some == b.to is Some,
        a.to is Some ==> a.to->0@ == b.to->0@,
        a.value@ == b.value@,
        a.gas_price is Some == b.gas_price is Some,
        a.gas_price is Some ==> a.gas_price->0@ == b.gas_price->0@,
        a.gas@ == b.gas@,
        a.input@ == b.input@,
        a.v == b.v,
        a.r@ == b.r@,
        a.s@ == b.s@,
        a.access_list is Some == b.access_list is Some,
        a.access_list is Some ==> access_view(a.access_list->0@) == access_view(
            b.access_list->0@,
        ),
        a.max_priority_fee_per_gas is Some == b.max_priority_fee_per_gas is Some,
        a.max_priority_fee_per_gas is Some ==> a.max_priority_fee_per_gas->0@
            == b.max_priority_fee_per_gas->0@,
        a.max_fee_per_gas is Some == b.max_fee_per_gas is Some,
        a.max_fee_per_gas is Some ==> a.max_fee_per_gas->0@ == b.max_fee_per_gas->0@,
        a.chain_id is Some == b.chain_id is Some,
        a.chain_id is Some ==> a.chain_id->0@ == b.chain_id->0@,
{
}

} // verus!

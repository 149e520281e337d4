//! Signed transactions and their encodings.

use crate::field::le_byte;
use crate::reading::{
    behind, body, is_list, item_size, law_dynamic_fee_encoding_is_read_back,
    law_legacy_encoding_is_read_back, law_string_list_is_read_back,
    law_transaction_list_is_read_back, lists_items, reads_signed, reads_signed_dynamic_fee,
    string_at,
};
use crate::rlp_stream::{
    appended, can_append, concat_all, expects_item, holds, lemma_append_within, lemma_noted_grows,
    minimal_be, noted, rlp_list, rlp_string, stream_append_address, stream_append_bytes,
    stream_append_empty, stream_append_u64, stream_append_u8, stream_append_word,
    stream_begin_list, stream_bytes, stream_lists, stream_new, stream_out, within_list,
    without_leading_zeros,
};
use crate::row::copy_range;
use vstd::prelude::*;

verus! {

/// A number of 256 bits, in its big endian form.
pub type Word = [u8; 32];

/// The bytes of an address.
pub type Address = [u8; 20];

/// An address with the storage keys that a transaction accesses there.
#[derive(Debug, Clone)]
pub struct AccessListItem {
    pub address: Address,
    pub storage_keys: Vec<Word>,
}

/// An item of an access list, as bytes.
#[verifier::ext_equal]
pub struct AccessView {
    pub address: Seq<u8>,
    pub storage_keys: Seq<Seq<u8>>,
}

impl View for AccessListItem {
    type V = AccessView;

    open spec fn view(&self) -> AccessView {
        AccessView {
            address: self.address@,
            storage_keys: Seq::new(self.storage_keys@.len(), |i: int| self.storage_keys@[i]@),
        }
    }
}

/// The items of an access list, as bytes.
pub open spec fn access_view(list: Seq<AccessListItem>) -> Seq<AccessView> {
    Seq::new(list.len(), |i: int| list[i]@)
}

/// The encoding of an item of an access list.
pub open spec fn access_item_rlp(item: AccessView) -> Seq<u8> {
    let keys = Seq::new(item.storage_keys.len(), |i: int| rlp_string(item.storage_keys[i]));
    rlp_list(rlp_string(item.address) + rlp_list(concat_all(keys)))
}

/// The encoding of an access list.
pub open spec fn access_list_rlp(list: Seq<AccessView>) -> Seq<u8> {
    rlp_list(concat_all(Seq::new(list.len(), |i: int| access_item_rlp(list[i]))))
}

/// Calls `rlp::RlpStream::append` with an `ethers_core::types::transaction::eip2930::AccessList`:
/// the list of its items, each of them a list of the address and of the list of the keys.
#[verifier::external_body]
pub(crate) fn stream_append_access_list(stream: &mut rlp::RlpStream, list: &Vec<AccessListItem>)
    requires
        can_append(*old(stream), access_list_rlp(access_view(list@))),
    ensures
        holds(*final(stream), appended(*old(stream), access_list_rlp(access_view(list@)))),
{
    let items = list.iter().map(|item| ethers_core::types::transaction::eip2930::AccessListItem {
        address: ethers_core::types::H160::from(item.address),
        storage_keys: item.storage_keys.iter().map(|k| ethers_core::types::H256(*k)).collect(),
    });
    stream.append(&ethers_core::types::transaction::eip2930::AccessList(items.collect()));
}

/// Details of a transaction, with its signature.
#[derive(Debug, Clone)]
pub struct Transaction {
    pub hash: Word,
    pub nonce: Word,
    /// Recipient (None when contract creation)
    pub to: Option<Address>,
    pub value: Word,
    pub gas_price: Option<Word>,
    pub gas: Word,
    pub input: Vec<u8>,
    pub v: u64,
    pub r: Word,
    pub s: Word,
    pub access_list: Option<Vec<AccessListItem>>,
    pub max_priority_fee_per_gas: Option<Word>,
    pub max_fee_per_gas: Option<Word>,
    pub chain_id: Option<Word>,
}

/// A transaction, as bytes.
#[verifier::ext_equal]
pub struct TransactionView {
    pub hash: Seq<u8>,
    pub nonce: Seq<u8>,
    pub to: Option<Seq<u8>>,
    pub value: Seq<u8>,
    pub gas_price: Option<Seq<u8>>,
    pub gas: Seq<u8>,
    pub input: Seq<u8>,
    pub v: u64,
    pub r: Seq<u8>,
    pub s: Seq<u8>,
    pub access_list: Option<Seq<AccessView>>,
    pub max_priority_fee_per_gas: Option<Seq<u8>>,
    pub max_fee_per_gas: Option<Seq<u8>>,
    pub chain_id: Option<Seq<u8>>,
}

/// The bytes of a word, where there is one.
pub open spec fn word_view(word: Option<Word>) -> Option<Seq<u8>> {
    match word {
        Some(w) => Some(w@),
        None => None,
    }
}

impl View for Transaction {
    type V = TransactionView;

    open spec fn view(&self) -> TransactionView {
        TransactionView {
            hash: self.hash@,
            nonce: self.nonce@,
            to: match self.to {
                Some(a) => Some(a@),
                None => None,
            },
            value: self.value@,
            gas_price: word_view(self.gas_price),
            gas: self.gas@,
            input: self.input@,
            v: self.v,
            r: self.r@,
            s: self.s@,
            access_list: match self.access_list {
                Some(list) => Some(access_view(list@)),
                None => None,
            },
            max_priority_fee_per_gas: word_view(self.max_priority_fee_per_gas),
            max_fee_per_gas: word_view(self.max_fee_per_gas),
            chain_id: word_view(self.chain_id),
        }
    }
}

/// A copy of `words`.
pub fn copy_words(words: &Vec<Word>) -> (r: Vec<Word>)
    ensures
        r@ == words@,
{
    let mut out: Vec<Word> = Vec::new();
    let mut i: usize = 0;
    while i < words.len()
        invariant
            i <= words@.len(),
            out@ =~= words@.take(i as int),
        decreases words@.len() - i,
    {
        out.push(words[i]);
        i = i + 1;
    }
    out
}

fn copy_access_list(list: &Vec<AccessListItem>) -> (r: Vec<AccessListItem>)
    ensures
        access_view(r@) == access_view(list@),
{
    let mut out: Vec<AccessListItem> = Vec::new();
    let mut i: usize = 0;
    while i < list.len()
        invariant
            i <= list@.len(),
            out@.len() == i,
            forall|j: int| 0 <= j < i ==> (#[trigger] out@[j])@ == list@[j]@,
        decreases list@.len() - i,
    {
        let item = AccessListItem {
            address: list[i].address,
            storage_keys: copy_words(&list[i].storage_keys),
        };
        assert(item@ =~= list@[i as int]@);
        out.push(item);
        i = i + 1;
    }
    assert(access_view(out@) =~= access_view(list@));
    out
}

impl Transaction {
    /// A copy of the transaction.
    pub fn duplicate(&self) -> (r: Self)
        ensures
            r@ == self@,
    {
        let r = Transaction {
            hash: self.hash,
            nonce: self.nonce,
            to: self.to,
            value: self.value,
            gas_price: self.gas_price,
            gas: self.gas,
            input: copy_range(self.input.as_slice(), 0, self.input.len()),
            v: self.v,
            r: self.r,
            s: self.s,
            access_list: match &self.access_list {
                Some(list) => Some(copy_access_list(list)),
                None => None,
            },
            max_priority_fee_per_gas: self.max_priority_fee_per_gas,
            max_fee_per_gas: self.max_fee_per_gas,
            chain_id: self.chain_id,
        };
        assert(r.input@ =~= self.input@);
        assert(r@ =~= self@);
        r
    }
}

/// ECDSA signature on a transaction.
#[derive(Debug, Clone, Copy)]
pub struct Signature {
    pub r: Word,
    pub s: Word,
    pub v: u64,
}

/// A signature, as bytes.
#[verifier::ext_equal]
pub struct SignatureView {
    pub r: Seq<u8>,
    pub s: Seq<u8>,
    pub v: u64,
}

impl View for Signature {
    type V = SignatureView;

    open spec fn view(&self) -> SignatureView {
        SignatureView { r: self.r@, s: self.s@, v: self.v }
    }
}

/// The signature that a transaction carries.
pub open spec fn signature_of(tx: TransactionView) -> SignatureView {
    SignatureView { r: tx.r, s: tx.s, v: tx.v }
}

/// The encoding of a number.
pub open spec fn word_rlp(word: Seq<u8>) -> Seq<u8> {
    rlp_string(without_leading_zeros(word))
}

/// The encoding of a recipient. It is the empty string where there is none.
pub open spec fn to_rlp(to: Option<Seq<u8>>) -> Seq<u8> {
    match to {
        Some(address) => rlp_string(address),
        None => rlp_string(seq![]),
    }
}

/// The encodings of the fields of a transaction with a gas price.
pub open spec fn legacy_items(tx: TransactionView, signature: SignatureView) -> Seq<Seq<u8>> {
    seq![
        word_rlp(tx.nonce),
        word_rlp(tx.gas_price->0),
        word_rlp(tx.gas),
        to_rlp(tx.to),
        word_rlp(tx.value),
        rlp_string(tx.input),
        rlp_string(minimal_be(signature.v as nat)),
        word_rlp(signature.r),
        word_rlp(signature.s),
    ]
}

/// The encoding of a signed transaction with a gas price.
pub open spec fn legacy_rlp(tx: TransactionView, signature: SignatureView) -> Seq<u8> {
    rlp_list(concat_all(legacy_items(tx, signature)))
}

/// The encodings of the fields of a dynamic fee transaction.
pub open spec fn dynamic_fee_items(tx: TransactionView, signature: SignatureView) -> Seq<Seq<u8>> {
    seq![
        word_rlp(tx.chain_id->0),
        word_rlp(tx.nonce),
        word_rlp(tx.max_priority_fee_per_gas->0),
        word_rlp(tx.max_fee_per_gas->0),
        word_rlp(tx.gas),
        to_rlp(tx.to),
        word_rlp(tx.value),
        rlp_string(tx.input),
        access_list_rlp(tx.access_list->0),
        rlp_string(minimal_be(signature.v as nat)),
        word_rlp(signature.r),
        word_rlp(signature.s),
    ]
}

/// The encoding of the list of a signed dynamic fee transaction.
pub open spec fn dynamic_fee_list(tx: TransactionView, signature: SignatureView) -> Seq<u8> {
    rlp_list(concat_all(dynamic_fee_items(tx, signature)))
}

/// The encoding of a signed dynamic fee transaction: its type, and the list of its fields.
pub open spec fn dynamic_fee_rlp(tx: TransactionView, signature: SignatureView) -> Seq<u8> {
    rlp_string(minimal_be(2)) + dynamic_fee_list(tx, signature)
}

/// The parts up to one of them are no longer than all.
proof fn lemma_concat_prefix(parts: Seq<Seq<u8>>, k: int)
    requires
        0 <= k <= parts.len(),
    ensures
        concat_all(parts.take(k)).len() <= concat_all(parts).len(),
    decreases parts.len(),
{
    if k == parts.len() {
        assert(parts.take(k) =~= parts);
    } else {
        lemma_concat_prefix(parts.drop_last(), k);
        assert(parts.drop_last().take(k) =~= parts.take(k));
    }
}

/// The state of a stream in a list of `items`, of which `k` were appended.
pub open spec fn progress(
    bytes: Seq<u8>,
    lists: Seq<(int, int)>,
    items: Seq<Seq<u8>>,
    k: int,
) -> (Seq<u8>, Seq<(int, int)>) {
    if k < items.len() {
        within_list(bytes, lists, concat_all(items.take(k)), items.len() - k)
    } else {
        noted(bytes + rlp_list(concat_all(items)), lists, 1)
    }
}

/// The next item of a list can be appended, if the whole list can.
pub proof fn lemma_progress(
    bytes: Seq<u8>,
    lists: Seq<(int, int)>,
    items: Seq<Seq<u8>>,
    k: int,
)
    requires
        expects_item(bytes, lists),
        noted(bytes + rlp_list(concat_all(items)), lists, 1).0.len() <= u32::MAX,
        0 <= k < items.len(),
    ensures
        ({
            let (b, l) = progress(bytes, lists, items, k);
            &&& expects_item(b, l)
            &&& noted(b + items[k], l, 1) == progress(bytes, lists, items, k + 1)
            &&& noted(b + items[k], l, 1).0.len() <= u32::MAX
        }),
{
    let done = concat_all(items.take(k));
    let left = items.len() - k;
    lemma_append_within(bytes, lists, done, left, items[k]);
    assert(items.take(k + 1).drop_last() =~= items.take(k));
    assert(concat_all(items.take(k + 1)) == done + items[k]);
    if left == 1 {
        assert(items.take(k + 1) =~= items);
    } else {
        let whole = bytes + rlp_list(concat_all(items));
        lemma_concat_prefix(items, k + 1);
        assert forall|i: int| 0 <= i < lists.len() implies 1 <= (#[trigger] lists[i]).0
            <= whole.len() && lists[i].1 > 0 by {}
        lemma_noted_grows(whole, lists, 1);
    }
}

/// A list was begun in a stream.
proof fn lemma_list_begun(bytes: Seq<u8>, lists: Seq<(int, int)>, items: Seq<Seq<u8>>)
    requires
        items.len() > 0,
    ensures
        progress(bytes, lists, items, 0) == (
            bytes.push(0),
            lists.push(((bytes.len() + 1) as int, items.len() as int)),
        ),
{
    assert(items.take(0) =~= seq![]);
    assert(bytes.push(0) + concat_all(items.take(0)) =~= bytes.push(0));
}

/// Signed transaction in a witness block
#[derive(Debug, Clone)]
pub struct SignedTransaction {
    /// Transaction data.
    pub tx: Transaction,
    /// ECDSA signature on the transaction.
    pub signature: Signature,
}

/// Signed dynamic fee transaction in a witness block
#[derive(Debug, Clone)]
pub struct SignedDynamicFeeTransaction {
    /// Transaction data.
    pub tx: Transaction,
    /// ECDSA signature on the transaction.
    pub signature: Signature,
}

impl SignedTransaction {
    /// The encoding of the transaction.
    pub open spec fn encoding(&self) -> Seq<u8> {
        legacy_rlp(self.tx@, self.signature@)
    }

    /// Appends the transaction to a stream.
    pub fn rlp_append(&self, s: &mut rlp::RlpStream)
        requires
            self.tx.gas_price is Some,
            can_append(*old(s), self.encoding()),
        ensures
            holds(*final(s), appended(*old(s), self.encoding())),
    {
        let ghost items = legacy_items(self.tx@, self.signature@);
        let ghost (bytes, lists) = (stream_bytes(*s), stream_lists(*s));
        stream_begin_list(s, 9);
        proof {
            lemma_list_begun(bytes, lists, items);
        }
        proof {
            lemma_progress(bytes, lists, items, 0);
        }
        stream_append_word(s, &self.tx.nonce);
        proof {
            lemma_progress(bytes, lists, items, 1);
        }
        stream_append_word(s, &self.tx.gas_price.unwrap());
        proof {
            lemma_progress(bytes, lists, items, 2);
        }
        stream_append_word(s, &self.tx.gas);
        proof {
            lemma_progress(bytes, lists, items, 3);
        }
        if let Some(addr) = self.tx.to {
            stream_append_address(s, &addr);
        } else {
            stream_append_empty(s);
        }
        proof {
            lemma_progress(bytes, lists, items, 4);
        }
        stream_append_word(s, &self.tx.value);
        proof {
            lemma_progress(bytes, lists, items, 5);
        }
        stream_append_bytes(s, &self.tx.input);
        proof {
            lemma_progress(bytes, lists, items, 6);
        }
        stream_append_u64(s, self.signature.v);
        proof {
            lemma_progress(bytes, lists, items, 7);
        }
        stream_append_word(s, &self.signature.r);
        proof {
            lemma_progress(bytes, lists, items, 8);
        }
        stream_append_word(s, &self.signature.s);
    }

    /// The transaction in the recursive length prefix format.
    pub fn encode(&self) -> (r: Vec<u8>)
        requires
            self.tx.gas_price is Some,
            self.encoding().len() <= u32::MAX,
        ensures
            r@ == self.encoding(),
            reads_signed(r@, *self),
    {
        let mut stream = stream_new();
        proof {
            law_legacy_encoding_is_read_back(*self);
            assert(Seq::<u8>::empty() + self.encoding() =~= self.encoding());
        }
        self.rlp_append(&mut stream);
        stream_out(stream)
    }
}

impl SignedDynamicFeeTransaction {
    /// The encoding of the transaction.
    pub open spec fn encoding(&self) -> Seq<u8> {
        dynamic_fee_rlp(self.tx@, self.signature@)
    }

    /// The fields that an encoding needs are there.
    pub open spec fn has_fees(&self) -> bool {
        &&& self.tx.chain_id is Some
        &&& self.tx.max_priority_fee_per_gas is Some
        &&& self.tx.max_fee_per_gas is Some
        &&& self.tx.access_list is Some
    }

    /// Appends the type of the transaction and the list of its fields to a stream, as two items.
    pub fn rlp_append(&self, s: &mut rlp::RlpStream)
        requires
            self.has_fees(),
            can_append(*old(s), rlp_string(minimal_be(2))),
            ({
                let (bytes, lists) = appended(*old(s), rlp_string(minimal_be(2)));
                noted(bytes + dynamic_fee_list(self.tx@, self.signature@), lists, 1).0.len()
                    <= u32::MAX
            }),
        ensures
            ({
                let (bytes, lists) = appended(*old(s), rlp_string(minimal_be(2)));
                holds(
                    *final(s),
                    noted(bytes + dynamic_fee_list(self.tx@, self.signature@), lists, 1),
                )
            }),
    {
        proof {
            let before = stream_bytes(*s) + rlp_string(minimal_be(2));
            let open = stream_lists(*s);
            assert forall|i: int| 0 <= i < open.len() implies 1 <= (#[trigger] open[i]).0
                <= before.len() && open[i].1 > 0 by {}
            lemma_noted_grows(before, open, 1);
        }
        stream_append_u8(s, 2);
        let ghost items = dynamic_fee_items(self.tx@, self.signature@);
        let ghost (bytes, lists) = (stream_bytes(*s), stream_lists(*s));
        stream_begin_list(s, 12);
        proof {
            lemma_list_begun(bytes, lists, items);
        }
        proof {
            lemma_progress(bytes, lists, items, 0);
        }
        stream_append_word(s, &self.tx.chain_id.unwrap());
        proof {
            lemma_progress(bytes, lists, items, 1);
        }
        stream_append_word(s, &self.tx.nonce);
        proof {
            lemma_progress(bytes, lists, items, 2);
        }
        stream_append_word(s, &self.tx.max_priority_fee_per_gas.unwrap());
        proof {
            lemma_progress(bytes, lists, items, 3);
        }
        stream_append_word(s, &self.tx.max_fee_per_gas.unwrap());
        proof {
            lemma_progress(bytes, lists, items, 4);
        }
        stream_append_word(s, &self.tx.gas);
        proof {
            lemma_progress(bytes, lists, items, 5);
        }
        if let Some(addr) = self.tx.to {
            stream_append_address(s, &addr);
        } else {
            stream_append_empty(s);
        }
        proof {
            lemma_progress(bytes, lists, items, 6);
        }
        stream_append_word(s, &self.tx.value);
        proof {
            lemma_progress(bytes, lists, items, 7);
        }
        stream_append_bytes(s, &self.tx.input);
        proof {
            lemma_progress(bytes, lists, items, 8);
        }
        stream_append_access_list(s, self.tx.access_list.as_ref().unwrap());
        proof {
            lemma_progress(bytes, lists, items, 9);
        }
        stream_append_u64(s, self.signature.v);
        proof {
            lemma_progress(bytes, lists, items, 10);
        }
        stream_append_word(s, &self.signature.r);
        proof {
            lemma_progress(bytes, lists, items, 11);
        }
        stream_append_word(s, &self.signature.s);
    }

    /// The transaction in the recursive length prefix format, behind its type.
    pub fn encode(&self) -> (r: Vec<u8>)
        requires
            self.has_fees(),
            self.encoding().len() <= u32::MAX,
        ensures
            r@ == self.encoding(),
            reads_signed_dynamic_fee(r@, *self),
    {
        let mut stream = stream_new();
        let ghost list = dynamic_fee_list(self.tx@, self.signature@);
        proof {
            law_dynamic_fee_encoding_is_read_back(*self);
            let tag = rlp_string(minimal_be(2));
            assert(Seq::<u8>::empty() + tag =~= tag);
        }
        self.rlp_append(&mut stream);
        stream_out(stream)
    }
}

/// The encodings of signed transactions.
pub open spec fn legacy_encodings(txs: Seq<SignedTransaction>) -> Seq<Seq<u8>> {
    Seq::new(txs.len(), |i: int| txs[i].encoding())
}

/// The list of signed transactions in the recursive length prefix format.
pub fn encode_tx_list(txs: &Vec<SignedTransaction>) -> (r: Vec<u8>)
    requires
        forall|i: int| 0 <= i < txs@.len() ==> (#[trigger] txs@[i]).tx.gas_price is Some,
        rlp_list(concat_all(legacy_encodings(txs@))).len() <= u32::MAX,
    ensures
        r@ == rlp_list(concat_all(legacy_encodings(txs@))),
        lists_items(r@, Seq::new(txs@.len(), |i: int| txs@[i].encoding())),
{
    proof {
        law_transaction_list_is_read_back(txs@);
    }
    let mut stream = stream_new();
    let ghost items = legacy_encodings(txs@);
    let ghost (bytes, lists) = (Seq::<u8>::empty(), Seq::<(int, int)>::empty());
    let ghost whole = rlp_list(concat_all(items));
    proof {
        assert(bytes + whole =~= whole);
        assert(bytes + rlp_list(seq![]) =~= rlp_list(seq![]));
        if items.len() > 0 {
            lemma_list_begun(bytes, lists, items);
        } else {
            assert(concat_all(items) =~= seq![]);
        }
    }
    stream_begin_list(&mut stream, txs.len());
    let mut i: usize = 0;
    while i < txs.len()
        invariant
            i <= txs@.len(),
            items == legacy_encodings(txs@),
            bytes == Seq::<u8>::empty(),
            lists == Seq::<(int, int)>::empty(),
            whole == rlp_list(concat_all(items)),
            bytes + whole == whole,
            whole.len() <= u32::MAX,
            forall|j: int| 0 <= j < txs@.len() ==> (#[trigger] txs@[j]).tx.gas_price is Some,
            holds(stream, progress(bytes, lists, items, i as int)),
        decreases txs@.len() - i,
    {
        proof {
            lemma_progress(bytes, lists, items, i as int);
        }
        txs[i].rlp_append(&mut stream);
        i = i + 1;
    }
    stream_out(stream)
}

/// The encodings of byte strings.
pub open spec fn string_encodings(strings: Seq<Vec<u8>>) -> Seq<Seq<u8>> {
    Seq::new(strings.len(), |i: int| rlp_string(strings[i]@))
}

/// The list of byte strings in the recursive length prefix format.
pub fn encode_byte_strings(strings: &Vec<Vec<u8>>) -> (r: Vec<u8>)
    requires
        rlp_list(concat_all(string_encodings(strings@))).len() <= u32::MAX,
    ensures
        r@ == rlp_list(concat_all(string_encodings(strings@))),
        is_list(r@),
        item_size(r@) == r@.len(),
        forall|k: nat|
            k < strings@.len() ==> #[trigger] string_at(body(r@), k, strings@[k as int]@),
        behind(body(r@), strings@.len()).len() == 0,
{
    proof {
        law_string_list_is_read_back(strings@);
    }
    let mut stream = stream_new();
    let ghost items = string_encodings(strings@);
    let ghost (bytes, lists) = (Seq::<u8>::empty(), Seq::<(int, int)>::empty());
    let ghost whole = rlp_list(concat_all(items));
    proof {
        assert(bytes + whole =~= whole);
        assert(bytes + rlp_list(seq![]) =~= rlp_list(seq![]));
        if items.len() > 0 {
            lemma_list_begun(bytes, lists, items);
        } else {
            assert(concat_all(items) =~= seq![]);
        }
    }
    stream_begin_list(&mut stream, strings.len());
    let mut i: usize = 0;
    while i < strings.len()
        invariant
            i <= strings@.len(),
            items == string_encodings(strings@),
            bytes == Seq::<u8>::empty(),
            lists == Seq::<(int, int)>::empty(),
            whole == rlp_list(concat_all(items)),
            bytes + whole == whole,
            whole.len() <= u32::MAX,
            holds(stream, progress(bytes, lists, items, i as int)),
        decreases strings@.len() - i,
    {
        proof {
            lemma_progress(bytes, lists, items, i as int);
        }
        stream_append_bytes(&mut stream, &strings[i]);
        i = i + 1;
    }
    stream_out(stream)
}

impl From<&Transaction> for SignedTransaction {
    fn from(tx: &Transaction) -> (r: Self)
        ensures
            r.tx@ == tx@,
            r.signature@ == signature_of(tx@),
    {
        SignedTransaction {
            tx: tx.duplicate(),
            signature: Signature { v: tx.v, r: tx.r, s: tx.s },
        }
    }
}

impl vstd::std_specs::convert::FromSpecImpl<&Transaction> for SignedTransaction {
    open spec fn obeys_from_spec() -> bool {
        false
    }

    open spec fn from_spec(v: &Transaction) -> Self {
        arbitrary()
    }
}

impl From<&Transaction> for SignedDynamicFeeTransaction {
    fn from(tx: &Transaction) -> (r: Self)
        ensures
            r.tx@ == tx@,
            r.signature@ == signature_of(tx@),
    {
        SignedDynamicFeeTransaction {
            tx: tx.duplicate(),
            signature: Signature { v: tx.v, r: tx.r, s: tx.s },
        }
    }
}

impl vstd::std_specs::convert::FromSpecImpl<&Transaction> for SignedDynamicFeeTransaction {
    open spec fn obeys_from_spec() -> bool {
        false
    }

    open spec fn from_spec(v: &Transaction) -> Self {
        arbitrary()
    }
}

/// A transaction made up for a test, with what signing it fills in.
#[derive(Debug, Clone)]
pub struct MockTransaction {
    pub hash: Option<Word>,
    pub nonce: u64,
    pub gas_price: Word,
    pub gas: Word,
    pub to: Option<Address>,
    pub value: Word,
    pub input: Vec<u8>,
    pub v: Option<u64>,
    pub r: Option<Word>,
    pub s: Option<Word>,
    pub chain_id: Word,
    pub max_fee_per_gas: Word,
    pub max_priority_fee_per_gas: Word,
}

impl MockTransaction {
    /// The transaction was signed.
    pub open spec fn is_signed(&self) -> bool {
        self.hash is Some && self.v is Some && self.r is Some && self.s is Some
    }
}

/// The big endian form of `v`.
pub open spec fn word_of(v: u64) -> Seq<u8> {
    Seq::new(
        32,
        |i: int|
            if i < 24 {
                0u8
            } else {
                le_byte(v as int, (31 - i) as nat) as u8
            },
    )
}

/// `v` as a word.
pub fn word_from_u64(v: u64) -> (r: Word)
    ensures
        r@ == word_of(v),
{
    let mut word: Word = [0u8; 32];
    let mut rest: u64 = v;
    let mut i: usize = 0;
    while i < 8
        invariant
            i <= 8,
            0 <= rest <= v,
            forall|k: nat| k < 8 - i ==> #[trigger] le_byte(rest as int, k)
                == le_byte(v as int, k + i as nat),
            forall|j: int| 0 <= j < 32 - i ==> #[trigger] word@[j] == 0,
            forall|j: int|
                32 - i <= j < 32 ==> #[trigger] word@[j] == le_byte(
                    v as int,
                    (31 - j) as nat,
                ) as u8,
        decreases 8 - i,
    {
        let ghost before = rest;
        proof {
            assert(le_byte(rest as int, 0) == le_byte(
                v as int,
                0 + i as nat,
            ));
        }
        word[31 - i] = (rest % 256) as u8;
        rest = rest / 256;
        proof {
            assert forall|k: nat| k < 8 - (i + 1) implies #[trigger] le_byte(
                rest as int,
                k,
            ) == le_byte(v as int, k + (i + 1) as nat) by {
                assert(le_byte(before as int, k + 1) == le_byte(
                    rest as int,
                    k,
                ));
                assert(le_byte(before as int, k + 1) == le_byte(
                    v as int,
                    (k + 1) + i as nat,
                ));
            }
        }
        i = i + 1;
    }
    assert(word@ =~= word_of(v));
    word
}

impl SignedTransaction {
    /// The transaction with a gas price that a mock transaction stands for.
    pub fn from_mock(mock_tx: MockTransaction) -> (r: Self)
        requires
            mock_tx.is_signed(),
        ensures
            r.tx@ == (TransactionView {
                hash: mock_tx.hash->0@,
                nonce: word_of(mock_tx.nonce),
                to: match mock_tx.to {
                    Some(a) => Some(a@),
                    None => None,
                },
                value: mock_tx.value@,
                gas_price: Some(mock_tx.gas_price@),
                gas: mock_tx.gas@,
                input: mock_tx.input@,
                v: mock_tx.v->0,
                r: mock_tx.r->0@,
                s: mock_tx.s->0@,
                access_list: None,
                max_priority_fee_per_gas: None,
                max_fee_per_gas: None,
                chain_id: None,
            }),
            r.signature@ == signature_of(r.tx@),
    {
        let tx = Transaction {
            hash: mock_tx.hash.unwrap(),
            nonce: word_from_u64(mock_tx.nonce),
            to: mock_tx.to,
            value: mock_tx.value,
            gas_price: Some(mock_tx.gas_price),
            gas: mock_tx.gas,
            input: mock_tx.input,
            v: mock_tx.v.unwrap(),
            r: mock_tx.r.unwrap(),
            s: mock_tx.s.unwrap(),
            access_list: None,
            max_priority_fee_per_gas: None,
            max_fee_per_gas: None,
            chain_id: None,
        };
        SignedTransaction::from(&tx)
    }
}

impl SignedDynamicFeeTransaction {
    /// The dynamic fee transaction that a mock transaction stands for, without an access list.
    pub fn from_mock(mock_tx: MockTransaction) -> (r: Self)
        requires
            mock_tx.is_signed(),
        ensures
            r.tx@ == (TransactionView {
                hash: mock_tx.hash->0@,
                nonce: word_of(mock_tx.nonce),
                to: match mock_tx.to {
                    Some(a) => Some(a@),
                    None => None,
                },
                value: mock_tx.value@,
                gas_price: None,
                gas: mock_tx.gas@,
                input: mock_tx.input@,
                v: mock_tx.v->0,
                r: mock_tx.r->0@,
                s: mock_tx.s->0@,
                access_list: Some(seq![]),
                max_priority_fee_per_gas: Some(mock_tx.max_priority_fee_per_gas@),
                max_fee_per_gas: Some(mock_tx.max_fee_per_gas@),
                chain_id: Some(mock_tx.chain_id@),
            }),
            r.signature@ == signature_of(r.tx@),
            r.has_fees(),
    {
        let no_access: Vec<AccessListItem> = Vec::new();
        let tx = Transaction {
            hash: mock_tx.hash.unwrap(),
            nonce: word_from_u64(mock_tx.nonce),
            to: mock_tx.to,
            value: mock_tx.value,
            gas_price: None,
            gas: mock_tx.gas,
            input: mock_tx.input,
            v: mock_tx.v.unwrap(),
            r: mock_tx.r.unwrap(),
            s: mock_tx.s.unwrap(),
            access_list: Some(no_access),
            max_priority_fee_per_gas: Some(mock_tx.max_priority_fee_per_gas),
            max_fee_per_gas: Some(mock_tx.max_fee_per_gas),
            chain_id: Some(mock_tx.chain_id),
        };
        assert(access_view(no_access@) =~= seq![]);
        let r = SignedDynamicFeeTransaction::from(&tx);
        assert(r.tx@ == tx@);
        r
    }
}

} // verus!

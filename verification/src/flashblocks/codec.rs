//! The wire form of a flashblock.
//!
//! A flashblock is an RLP list of its payload id, its index, its delta, its metadata as JSON text
//! in a byte string, and its base, for which an empty byte string stands in where there is none.
//! The library frames the JSON text; what the text says is the caller's concern.
use crate::flashblocks::primitives::{
    self, BaseView, Bytes, DeltaView, ExecutionPayloadBaseV1, ExecutionPayloadFlashblockDeltaV1,
    PayloadView, Withdrawal,
};
use crate::num::U256;
use crate::rlp::{self, Item, RlpError};
use vstd::prelude::*;

verus! {

/// The items of byte strings.
pub open spec fn string_items(strings: Seq<Seq<u8>>) -> Seq<Item> {
    strings.map_values(|s: Seq<u8>| Item::Str(s))
}

/// The items of withdrawals.
pub open spec fn withdrawal_items(withdrawals: Seq<Withdrawal>) -> Seq<Item> {
    withdrawals.map_values(|w: Withdrawal| w.item())
}

impl Withdrawal {
    /// The items of the withdrawal's fields.
    pub open spec fn fields(self) -> Seq<Item> {
        seq![
            rlp::number(self.index as nat),
            rlp::number(self.validator_index as nat),
            Item::Str(self.address@),
            rlp::number(self.amount as nat),
        ]
    }

    /// The item that stands for the withdrawal.
    pub open spec fn item(self) -> Item {
        Item::List(self.fields())
    }
}

impl DeltaView {
    /// The items of the delta's fields.
    pub open spec fn fields(self) -> Seq<Item> {
        seq![
            Item::Str(self.state_root@),
            Item::Str(self.receipts_root@),
            Item::Str(self.logs_bloom@),
            rlp::number(self.gas_used as nat),
            Item::Str(self.block_hash@),
            Item::List(string_items(self.transactions)),
            Item::List(withdrawal_items(self.withdrawals)),
            Item::Str(self.withdrawals_root@),
        ]
    }

    /// The item that stands for the delta.
    pub open spec fn item(self) -> Item {
        Item::List(self.fields())
    }
}

impl BaseView {
    /// The items of the base's fields.
    pub open spec fn fields(self) -> Seq<Item> {
        seq![
            Item::Str(self.parent_beacon_block_root@),
            Item::Str(self.parent_hash@),
            Item::Str(self.fee_recipient@),
            Item::Str(self.prev_randao@),
            rlp::number(self.block_number as nat),
            rlp::number(self.gas_limit as nat),
            rlp::number(self.timestamp as nat),
            Item::Str(self.extra_data),
            rlp::number(self.base_fee_per_gas.value()),
        ]
    }

    /// The item that stands for the base.
    pub open spec fn item(self) -> Item {
        Item::List(self.fields())
    }
}

/// The item that stands for an optional base: an empty byte string where there is none.
pub open spec fn base_item(base: Option<BaseView>) -> Item {
    match base {
        Some(b) => b.item(),
        None => Item::Str(Seq::empty()),
    }
}

impl<M> PayloadView<M> {
    /// The items of the flashblock's fields, with `json` as the text of its metadata.
    pub open spec fn fields(self, json: Seq<u8>) -> Seq<Item> {
        seq![
            Item::Str(self.payload_id@),
            rlp::number(self.index as nat),
            self.diff.item(),
            Item::Str(json),
            base_item(self.base),
        ]
    }

    /// The item that stands for the flashblock, with `json` as the text of its metadata.
    pub open spec fn item(self, json: Seq<u8>) -> Item {
        Item::List(self.fields(json))
    }
}

/// The bytes of the first items of a sequence, and the next item's.
proof fn lemma_advance(items: Seq<Item>, k: int)
    requires
        0 <= k < items.len(),
    ensures
        rlp::enc_all(items.take(k + 1)) == rlp::enc_all(items.take(k)) + rlp::enc(items[k]),
        rlp::enc_all(items.take(k + 1)).len() <= rlp::enc_all(items).len(),
{
    assert(items.take(k + 1) =~= items.take(k).push(items[k]));
    rlp::lemma_enc_all_push(items.take(k), items[k]);
    assert(items =~= items.take(k + 1) + items.skip(k + 1));
    rlp::lemma_enc_all_append(items.take(k + 1), items.skip(k + 1));
}

/// The bytes of every beginning of a sequence of items.
pub proof fn lemma_beginnings(items: Seq<Item>)
    ensures
        rlp::enc_all(items.take(0)) == Seq::<u8>::empty(),
        items.take(items.len() as int) == items,
        forall|k: int|
            #![trigger items[k]]
            0 <= k < items.len() ==> rlp::enc_all(items.take(k + 1)) == rlp::enc_all(items.take(k)) + rlp::enc(
                items[k],
            ) && rlp::enc_all(items.take(k + 1)).len() <= rlp::enc_all(items).len(),
{
    assert(items.take(items.len() as int) =~= items);
    assert forall|k: int| #![trigger items[k]] 0 <= k < items.len() implies rlp::enc_all(
        items.take(k + 1),
    ) == rlp::enc_all(items.take(k)) + rlp::enc(items[k]) && rlp::enc_all(items.take(k + 1)).len() <= rlp::enc_all(
        items,
    ).len() by {
        lemma_advance(items, k);
    }
}

/// Keeps track of the items of a list as they are appended to some bytes.
pub(crate) struct ListWriter {
    /// The bytes that the list's items stand behind.
    start: Ghost<Seq<u8>>,
    /// The items that have been appended.
    done: Ghost<Seq<Item>>,
}

impl ListWriter {
    /// The items that have been appended.
    pub closed spec fn items(self) -> Seq<Item> {
        self.done@
    }

    /// The bytes that the list's items stand behind.
    pub closed spec fn base(self) -> Seq<u8> {
        self.start@
    }

    /// Whether `out` is what has been written.
    pub open spec fn is_at(self, out: Seq<u8>) -> bool {
        out == self.base() + rlp::enc_all(self.items())
    }

    /// Whether `self` is `before` with `item` appended as well, which gives `out`.
    pub open spec fn has_put(self, before: ListWriter, item: Item, out: Seq<u8>) -> bool {
        &&& self.is_at(out)
        &&& self.base() == before.base()
        &&& self.items() == before.items().push(item)
    }

    /// Appends the header of a list whose items take `n` bytes.
    pub fn open(n: usize, out: &mut Vec<u8>) -> (r: ListWriter)
        ensures
            r.is_at(final(out)@),
            r.base() == old(out)@ + rlp::header(true, n as nat),
            r.items().len() == 0,
    {
        rlp::put_header(true, n, out);
        assert(out@ + rlp::enc_all(Seq::empty()) =~= out@);
        ListWriter { start: Ghost(out@), done: Ghost(Seq::empty()) }
    }

    /// Notes that `item` has been appended to what was written.
    pub fn note(&mut self, item: Ghost<Item>, out: &Vec<u8>)
        requires
            exists|before: Seq<u8>| #[trigger] old(self).is_at(before) && out@ == before + rlp::enc(item@),
        ensures
            final(self).has_put(*old(self), item@, out@),
    {
        proof {
            rlp::lemma_enc_all_push(self.done@, item@);
            self.done@ = self.done@.push(item@);
            assert(out@ =~= self.start@ + rlp::enc_all(self.done@));
        }
    }

    /// Appends a byte string.
    pub fn put_bytes(&mut self, bytes: &[u8], out: &mut Vec<u8>)
        requires
            old(self).is_at(old(out)@),
        ensures
            final(self).has_put(*old(self), Item::Str(bytes@), final(out)@),
    {
        rlp::put_bytes(bytes, out);
        self.note(Ghost(Item::Str(bytes@)), out);
    }

    /// Appends a 64-bit number.
    pub fn put_u64(&mut self, n: u64, out: &mut Vec<u8>)
        requires
            old(self).is_at(old(out)@),
        ensures
            final(self).has_put(*old(self), rlp::number(n as nat), final(out)@),
    {
        rlp::put_u64(n, out);
        self.note(Ghost(rlp::number(n as nat)), out);
    }

    /// Appends a 256-bit word.
    fn put_u256(&mut self, n: U256, out: &mut Vec<u8>)
        requires
            old(self).is_at(old(out)@),
        ensures
            final(self).has_put(*old(self), rlp::number(n.value()), final(out)@),
    {
        rlp::put_u256(n, out);
        self.note(Ghost(rlp::number(n.value())), out);
    }
}

impl Withdrawal {
    /// Number of bytes of the withdrawal's fields.
    fn payload_length(&self) -> (r: usize)
        requires
            rlp::enc_all(self.fields()).len() <= usize::MAX,
        ensures
            r == rlp::enc_all(self.fields()).len(),
    {
        proof {
            let items = self.fields();
            lemma_beginnings(items);
            assert(items[0] == rlp::number(self.index as nat));
            assert(items[1] == rlp::number(self.validator_index as nat));
            assert(items[2] == Item::Str(self.address@));
            assert(items[3] == rlp::number(self.amount as nat));
        }
        rlp::u64_length(self.index) + rlp::u64_length(self.validator_index) + rlp::bytes_length(
            self.address.as_slice(),
        ) + rlp::u64_length(self.amount)
    }

    /// Number of bytes of the withdrawal's wire form.
    pub fn length(&self) -> (r: usize)
        requires
            rlp::enc(self.item()).len() <= usize::MAX,
        ensures
            r == rlp::enc(self.item()).len(),
    {
        let n = self.payload_length();
        rlp::header_length(true, n) + n
    }

    /// Appends the withdrawal's wire form.
    pub fn encode(&self, out: &mut Vec<u8>)
        requires
            rlp::enc(self.item()).len() <= usize::MAX,
        ensures
            final(out)@ == old(out)@ + rlp::enc(self.item()),
    {
        let n = self.payload_length();
        let mut list = ListWriter::open(n, out);
        list.put_u64(self.index, out);
        list.put_u64(self.validator_index, out);
        list.put_bytes(self.address.as_slice(), out);
        list.put_u64(self.amount, out);
        assert(list.items() =~= self.fields());
        assert(out@ =~= old(out)@ + rlp::enc(self.item()));
    }
}

/// What a list's header, read off the front of `s`, says of a list that `s` begins with.
proof fn lemma_list_header(s: Seq<u8>, list: bool, n: nat, body: Seq<u8>, items: Seq<Item>, rest: Seq<u8>)
    requires
        rlp::addressable(s),
        n <= body.len(),
        s == rlp::framed(list, body.take(n as int)) + body.skip(n as int),
        s == rlp::enc(Item::List(items)) + rest,
    ensures
        list,
        body == rlp::enc_all(items) + rest,
        n == rlp::enc_all(items).len(),
{
    assert(s.len() == rlp::framed(list, body.take(n as int)).len() + body.skip(n as int).len());
    assert(s.len() == rlp::enc(Item::List(items)).len() + rest.len());
    rlp::lemma_framed_unique(
        list,
        body.take(n as int),
        body.skip(n as int),
        true,
        rlp::enc_all(items),
        rest,
    );
    assert(body =~= body.take(n as int) + body.skip(n as int));
}

/// Where `s` begins with a list, and its first items have been read, what is left begins with the
/// next item.
proof fn lemma_list_step(
    s: Seq<u8>,
    list: bool,
    n: nat,
    done: Seq<Item>,
    left: Seq<u8>,
    items: Seq<Item>,
    rest: Seq<u8>,
)
    requires
        rlp::addressable(s),
        n <= (rlp::enc_all(done) + left).len(),
        s == rlp::framed(list, (rlp::enc_all(done) + left).take(n as int)) + (rlp::enc_all(done)
            + left).skip(n as int),
        s == rlp::enc(Item::List(items)) + rest,
        done.len() < items.len(),
    ensures
        done == items.take(done.len() as int),
        left == rlp::enc(items[done.len() as int]) + (rlp::enc_all(
            items.skip(done.len() as int + 1),
        ) + rest),
{
    let body = rlp::enc_all(done) + left;
    lemma_list_header(s, list, n, body, items, rest);
    rlp::lemma_next_item(body, done, left, items, rest);
}

/// Where `s` begins with a list, and as many items have been read as it has, these are its items.
proof fn lemma_list_end(
    s: Seq<u8>,
    list: bool,
    n: nat,
    done: Seq<Item>,
    left: Seq<u8>,
    items: Seq<Item>,
    rest: Seq<u8>,
)
    requires
        rlp::addressable(s),
        n <= (rlp::enc_all(done) + left).len(),
        s == rlp::framed(list, (rlp::enc_all(done) + left).take(n as int)) + (rlp::enc_all(done)
            + left).skip(n as int),
        s == rlp::enc(Item::List(items)) + rest,
        done.len() == items.len(),
    ensures
        done == items,
        n == rlp::enc_all(done).len(),
{
    let body = rlp::enc_all(done) + left;
    lemma_list_header(s, list, n, body, items, rest);
    rlp::lemma_items_read(done, left, items, rest);
    assert(items.take(done.len() as int) =~= items);
}

/// One more item has been read off the front of `left`.
pub proof fn lemma_item_read(done: Seq<Item>, left: Seq<u8>, item: Item, rest: Seq<u8>)
    requires
        left == rlp::enc(item) + rest,
    ensures
        rlp::enc_all(done) + left == rlp::enc_all(done.push(item)) + rest,
{
    rlp::lemma_enc_all_push(done, item);
    assert(rlp::enc_all(done) + left =~= rlp::enc_all(done.push(item)) + rest);
}

/// A list that is read item by item off the front of some bytes.
struct ListReader<'a> {
    /// What has not been read.
    buf: &'a [u8],
    /// Payload length that the list's header gives.
    payload_length: usize,
    /// Number of bytes behind the header.
    started: usize,
    /// The bytes that the list was found at.
    source: Ghost<Seq<u8>>,
    /// The items that have been read.
    done: Ghost<Seq<Item>>,
}

/// Whether `s` begins with a list of `items`.
spec fn begins_with_list(s: Seq<u8>, items: Seq<Item>) -> bool {
    exists|rest: Seq<u8>| s == #[trigger] (rlp::enc(Item::List(items)) + rest)
}

impl<'a> ListReader<'a> {
    spec fn body(self) -> Seq<u8> {
        rlp::enc_all(self.done@) + self.buf@
    }

    spec fn wf(self) -> bool {
        &&& rlp::addressable(self.source@)
        &&& self.payload_length <= self.started
        &&& self.body().len() == self.started
        &&& self.source@ == rlp::framed(true, self.body().take(self.payload_length as int))
            + self.body().skip(self.payload_length as int)
        &&& rlp::is_tail(self.buf@, self.source@)
    }

    /// Whether `self` is `before` with `item` read as well.
    spec fn has_read(self, before: ListReader<'a>, item: Item) -> bool {
        &&& self.wf()
        &&& self.source == before.source
        &&& self.done@ == before.done@.push(item)
    }

    fn open(buf: &'a [u8]) -> (r: Result<ListReader<'a>, RlpError>)
        ensures
            match r {
                Ok(l) => l.wf() && l.source@ == buf@ && l.done@.len() == 0,
                Err(_) => forall|items: Seq<Item>| !begins_with_list(buf@, items),
            },
    {
        let mut rest: &'a [u8] = buf;
        let ghost s = buf@;
        assert(rlp::addressable(s)) by {
            assert(buf.len() == s.len());
        }
        match rlp::take_header(&mut rest) {
            Ok((list, n)) => {
                if !list {
                    proof {
                        assert forall|items: Seq<Item>| !begins_with_list(s, items) by {
                            if begins_with_list(s, items) {
                                let t = choose|t: Seq<u8>| s == #[trigger] (rlp::enc(Item::List(items)) + t);
                                lemma_list_header(s, list, n as nat, rest@, items, t);
                            }
                        }
                    }
                    return Err(RlpError::UnexpectedString);
                }
                let started = rest.len();
                let ghost done: Seq<Item> = Seq::empty();
                assert(rlp::enc_all(done) + rest@ =~= rest@);
                Ok(ListReader { buf: rest, payload_length: n, started, source: Ghost(s), done: Ghost(done) })
            },
            Err(e) => {
                assert forall|items: Seq<Item>| !begins_with_list(s, items) by {
                    if begins_with_list(s, items) {
                        let t = choose|t: Seq<u8>| s == #[trigger] (rlp::enc(Item::List(items)) + t);
                        assert(s == rlp::framed(true, rlp::enc_all(items)) + t);
                    }
                }
                Err(RlpError::Item(e))
            },
        }
    }

    proof fn lemma_step(self, items: Seq<Item>)
        requires
            self.wf(),
            begins_with_list(self.source@, items),
            self.done@.len() < items.len(),
        ensures
            self.done@ == items.take(self.done@.len() as int),
            exists|rest: Seq<u8>| self.buf@ == #[trigger] (rlp::enc(items[self.done@.len() as int]) + rest),
    {
        let t = choose|t: Seq<u8>| self.source@ == #[trigger] (rlp::enc(Item::List(items)) + t);
        lemma_list_step(self.source@, true, self.payload_length as nat, self.done@, self.buf@, items, t);
    }

    proof fn lemma_read(self, after: ListReader<'a>, item: Item)
        requires
            self.wf(),
            self.buf@ == rlp::enc(item) + after.buf@,
            rlp::is_tail(after.buf@, self.buf@),
            after.source == self.source,
            after.payload_length == self.payload_length,
            after.started == self.started,
            after.done@ == self.done@.push(item),
        ensures
            after.wf(),
    {
        lemma_item_read(self.done@, self.buf@, item, after.buf@);
        rlp::lemma_tail_of_tail(after.buf@, self.buf@, self.source@);
    }

    fn take_u64(&mut self) -> (r: Result<u64, RlpError>)
        requires
            old(self).wf(),
        ensures
            match r {
                Ok(v) => final(self).has_read(*old(self), rlp::number(v as nat)),
                Err(_) => forall|items: Seq<Item>, v: u64|
                    #![trigger begins_with_list(old(self).source@, items), rlp::number(v as nat)]
                    begins_with_list(old(self).source@, items) && items.len() > old(self).done@.len()
                        ==> items[old(self).done@.len() as int] != rlp::number(v as nat),
            },
    {
        let ghost before = *self;
        match rlp::take_u64(&mut self.buf) {
            Ok(v) => {
                self.done = Ghost(before.done@.push(rlp::number(v as nat)));
                proof {
                    before.lemma_read(*self, rlp::number(v as nat));
                }
                Ok(v)
            },
            Err(e) => {
                proof {
                    assert forall|items: Seq<Item>, v: u64|
                        #![trigger begins_with_list(before.source@, items), rlp::number(v as nat)]
                        begins_with_list(before.source@, items) && items.len() > before.done@.len()
                            implies items[before.done@.len() as int] != rlp::number(v as nat) by {
                        before.lemma_step(items);
                    }
                }
                Err(RlpError::Item(e))
            },
        }
    }

    fn take_array<const N: usize>(&mut self) -> (r: Result<[u8; N], RlpError>)
        requires
            old(self).wf(),
        ensures
            match r {
                Ok(v) => final(self).has_read(*old(self), Item::Str(v@)),
                Err(_) => forall|items: Seq<Item>|
                    #![trigger begins_with_list(old(self).source@, items)]
                    begins_with_list(old(self).source@, items) && items.len() > old(self).done@.len()
                        ==> !(items[old(self).done@.len() as int] is Str && items[old(self).done@.len() as int]->Str_0.len() == N),
            },
    {
        let ghost before = *self;
        match rlp::take_array::<N>(&mut self.buf) {
            Ok(v) => {
                self.done = Ghost(before.done@.push(Item::Str(v@)));
                proof {
                    before.lemma_read(*self, Item::Str(v@));
                }
                Ok(v)
            },
            Err(e) => {
                proof {
                    assert forall|items: Seq<Item>|
                        #![trigger begins_with_list(before.source@, items)]
                        begins_with_list(before.source@, items) && items.len() > before.done@.len()
                            implies !(items[before.done@.len() as int] is Str && items[before.done@.len() as int]->Str_0.len() == N) by {
                        before.lemma_step(items);
                    }
                }
                Err(RlpError::Item(e))
            },
        }
    }

    fn take_u256(&mut self) -> (r: Result<U256, RlpError>)
        requires
            old(self).wf(),
        ensures
            match r {
                Ok(v) => final(self).has_read(*old(self), rlp::number(v.value())),
                Err(_) => forall|items: Seq<Item>, v: U256|
                    #![trigger begins_with_list(old(self).source@, items), rlp::number(v.value())]
                    begins_with_list(old(self).source@, items) && items.len() > old(self).done@.len()
                        ==> items[old(self).done@.len() as int] != rlp::number(v.value()),
            },
    {
        let ghost before = *self;
        match rlp::take_u256(&mut self.buf) {
            Ok(v) => {
                self.done = Ghost(before.done@.push(rlp::number(v.value())));
                proof {
                    before.lemma_read(*self, rlp::number(v.value()));
                }
                Ok(v)
            },
            Err(e) => {
                proof {
                    assert forall|items: Seq<Item>, v: U256|
                        #![trigger begins_with_list(before.source@, items), rlp::number(v.value())]
                        begins_with_list(before.source@, items) && items.len() > before.done@.len()
                            implies items[before.done@.len() as int] != rlp::number(v.value()) by {
                        before.lemma_step(items);
                    }
                }
                Err(RlpError::Item(e))
            },
        }
    }

    fn take_bytes(&mut self) -> (r: Result<Bytes, RlpError>)
        requires
            old(self).wf(),
        ensures
            match r {
                Ok(v) => final(self).has_read(*old(self), Item::Str(v@)),
                Err(_) => forall|items: Seq<Item>|
                    #![trigger begins_with_list(old(self).source@, items)]
                    begins_with_list(old(self).source@, items) && items.len() > old(self).done@.len()
                        ==> !(items[old(self).done@.len() as int] is Str),
            },
    {
        let ghost before = *self;
        match take_string(&mut self.buf) {
            Ok(v) => {
                self.done = Ghost(before.done@.push(Item::Str(v@)));
                proof {
                    before.lemma_read(*self, Item::Str(v@));
                }
                Ok(v)
            },
            Err(e) => {
                proof {
                    assert forall|items: Seq<Item>|
                        #![trigger begins_with_list(before.source@, items)]
                        begins_with_list(before.source@, items) && items.len() > before.done@.len()
                            implies !(items[before.done@.len() as int] is Str) by {
                        before.lemma_step(items);
                    }
                }
                Err(e)
            },
        }
    }

    fn take_strings(&mut self) -> (r: Result<Vec<Bytes>, RlpError>)
        requires
            old(self).wf(),
        ensures
            match r {
                Ok(v) => final(self).has_read(*old(self), Item::List(string_items(primitives::contents(v@)))),
                Err(_) => forall|items: Seq<Item>, v: Seq<Seq<u8>>|
                    #![trigger begins_with_list(old(self).source@, items), string_items(v)]
                    begins_with_list(old(self).source@, items) && items.len() > old(self).done@.len()
                        ==> items[old(self).done@.len() as int] != Item::List(string_items(v)),
            },
    {
        let ghost before = *self;
        match take_strings(&mut self.buf) {
            Ok(v) => {
                self.done = Ghost(before.done@.push(Item::List(string_items(primitives::contents(v@)))));
                proof {
                    before.lemma_read(*self, Item::List(string_items(primitives::contents(v@))));
                }
                Ok(v)
            },
            Err(e) => {
                proof {
                    assert forall|items: Seq<Item>, v: Seq<Seq<u8>>|
                        #![trigger begins_with_list(before.source@, items), string_items(v)]
                        begins_with_list(before.source@, items) && items.len() > before.done@.len()
                            implies items[before.done@.len() as int] != Item::List(string_items(v)) by {
                        before.lemma_step(items);
                    }
                }
                Err(e)
            },
        }
    }

    fn take_withdrawals(&mut self) -> (r: Result<Vec<Withdrawal>, RlpError>)
        requires
            old(self).wf(),
        ensures
            match r {
                Ok(v) => final(self).has_read(*old(self), Item::List(withdrawal_items(v@))),
                Err(_) => forall|items: Seq<Item>, v: Seq<Withdrawal>|
                    #![trigger begins_with_list(old(self).source@, items), withdrawal_items(v)]
                    begins_with_list(old(self).source@, items) && items.len() > old(self).done@.len()
                        ==> items[old(self).done@.len() as int] != Item::List(withdrawal_items(v)),
            },
    {
        let ghost before = *self;
        match take_withdrawals(&mut self.buf) {
            Ok(v) => {
                self.done = Ghost(before.done@.push(Item::List(withdrawal_items(v@))));
                proof {
                    before.lemma_read(*self, Item::List(withdrawal_items(v@)));
                }
                Ok(v)
            },
            Err(e) => {
                proof {
                    assert forall|items: Seq<Item>, v: Seq<Withdrawal>|
                        #![trigger begins_with_list(before.source@, items), withdrawal_items(v)]
                        begins_with_list(before.source@, items) && items.len() > before.done@.len()
                            implies items[before.done@.len() as int] != Item::List(withdrawal_items(v)) by {
                        before.lemma_step(items);
                    }
                }
                Err(e)
            },
        }
    }

    fn close(self) -> (r: Result<&'a [u8], RlpError>)
        requires
            self.wf(),
        ensures
            match r {
                Ok(rest) => self.source@ == rlp::enc(Item::List(self.done@)) + rest@ && rlp::is_tail(
                    rest@,
                    self.source@,
                ),
                Err(_) => forall|items: Seq<Item>|
                    items.len() == self.done@.len() ==> !begins_with_list(self.source@, items),
            },
    {
        let consumed = self.started - self.buf.len();
        if consumed != self.payload_length {
            proof {
                assert forall|items: Seq<Item>| items.len() == self.done@.len() implies !begins_with_list(
                    self.source@,
                    items,
                ) by {
                    if begins_with_list(self.source@, items) {
                        let t = choose|t: Seq<u8>|
                            self.source@ == #[trigger] (rlp::enc(Item::List(items)) + t);
                        lemma_list_end(
                            self.source@,
                            true,
                            self.payload_length as nat,
                            self.done@,
                            self.buf@,
                            items,
                            t,
                        );
                    }
                }
            }
            return Err(
                RlpError::ListLengthMismatch { expected: self.payload_length, got: consumed },
            );
        }
        assert(self.body().take(consumed as int) =~= rlp::enc_all(self.done@));
        assert(self.body().skip(consumed as int) =~= self.buf@);
        Ok(self.buf)
    }
}

/// Reads a byte string off the front of `buf`.
fn take_string(buf: &mut &[u8]) -> (r: Result<Bytes, RlpError>)
    ensures
        rlp::is_tail(final(buf)@, old(buf)@),
        match r {
            Ok(p) => old(buf)@ == rlp::enc(Item::Str(p@)) + final(buf)@,
            Err(_) => forall|p: Seq<u8>, rest: Seq<u8>|
                old(buf)@ != #[trigger] (rlp::enc(Item::Str(p)) + rest),
        },
{
    let ghost s = buf@;
    match rlp::take_payload(buf, false) {
        Ok(p) => Ok(vstd::slice::slice_to_vec(p)),
        Err(e) => {
            proof {
                assert forall|p: Seq<u8>, rest: Seq<u8>| s != #[trigger] (rlp::enc(Item::Str(p)) + rest) by {
                    assert(rlp::enc(Item::Str(p)) == rlp::framed(false, p));
                }
            }
            Err(RlpError::Item(e))
        },
    }
}

/// Where the payload of a list begins with the items in `done`, and not all of it has been read,
/// the list has more items.
proof fn lemma_more_items(payload: Seq<u8>, done: Seq<Item>, left: Seq<u8>, items: Seq<Item>)
    requires
        rlp::addressable(payload),
        payload == rlp::enc_all(done) + left,
        left.len() > 0,
        payload == rlp::enc_all(items),
    ensures
        done.len() < items.len(),
        exists|rest: Seq<u8>| left == #[trigger] (rlp::enc(items[done.len() as int]) + rest),
{
    let none = Seq::<u8>::empty();
    assert(rlp::enc_all(items) + none =~= payload);
    if items.len() <= done.len() {
        rlp::lemma_items_read(items, none, done, left);
        assert(none.len() == rlp::enc_all(done.skip(items.len() as int)).len() + left.len());
    } else {
        rlp::lemma_next_item(payload, done, left, items, none);
    }
}

/// Reads a list of byte strings off the front of `buf`.
fn take_strings(buf: &mut &[u8]) -> (r: Result<Vec<Bytes>, RlpError>)
    ensures
        rlp::is_tail(final(buf)@, old(buf)@),
        match r {
            Ok(v) => old(buf)@ == rlp::enc(Item::List(string_items(primitives::contents(v@))))
                + final(buf)@,
            Err(_) => forall|v: Seq<Seq<u8>>, rest: Seq<u8>|
                old(buf)@ != #[trigger] (rlp::enc(Item::List(string_items(v))) + rest),
        },
{
    let ghost s = buf@;
    assert(rlp::addressable(s)) by {
        assert(buf.len() == s.len());
    }
    let payload = match rlp::take_payload(buf, true) {
        Ok(p) => p,
        Err(e) => {
            proof {
                assert forall|v: Seq<Seq<u8>>, rest: Seq<u8>|
                    s != #[trigger] (rlp::enc(Item::List(string_items(v))) + rest) by {
                    assert(rlp::enc(Item::List(string_items(v))) == rlp::framed(
                        true,
                        rlp::enc_all(string_items(v)),
                    ));
                }
            }
            return Err(RlpError::Item(e));
        },
    };
    let mut view: &[u8] = payload;
    let mut r: Vec<Bytes> = Vec::new();
    let ghost mut done: Seq<Item> = Seq::empty();
    assert(done =~= string_items(primitives::contents(r@)));
    assert(payload@ =~= rlp::enc_all(done) + view@);
    while view.len() > 0
        invariant
            s == rlp::framed(true, payload@) + buf@,
            rlp::addressable(s),
            rlp::is_tail(buf@, s),
            s == old(buf)@,
            done == string_items(primitives::contents(r@)),
            payload@ == rlp::enc_all(done) + view@,
        decreases view.len(),
    {
        let ghost left = view@;
        match take_string(&mut view) {
            Ok(b) => {
                proof {
                    lemma_item_read(done, left, Item::Str(b@), view@);
                    rlp::lemma_enc_not_empty(Item::Str(b@));
                    assert(left.len() == rlp::enc(Item::Str(b@)).len() + view@.len());
                    assert(string_items(primitives::contents(r@.push(b))) =~= done.push(Item::Str(b@)));
                    done = done.push(Item::Str(b@));
                }
                r.push(b);
            },
            Err(e) => {
                proof {
                    assert forall|v: Seq<Seq<u8>>, rest: Seq<u8>|
                        s != #[trigger] (rlp::enc(Item::List(string_items(v))) + rest) by {
                        if s == rlp::enc(Item::List(string_items(v))) + rest {
                            let items = string_items(v);
                            assert(s.len() == rlp::framed(true, rlp::enc_all(items)).len() + rest.len());
                            assert(s.len() == rlp::framed(true, payload@).len() + buf@.len());
                            rlp::lemma_framed_unique(
                                true,
                                payload@,
                                buf@,
                                true,
                                rlp::enc_all(items),
                                rest,
                            );
                            lemma_more_items(payload@, done, left, items);
                            assert(items[done.len() as int] is Str);
                        }
                    }
                }
                return Err(e);
            },
        }
    }
    assert(payload@ =~= rlp::enc_all(done));
    Ok(r)
}

/// Reads a list of withdrawals off the front of `buf`.
fn take_withdrawals(buf: &mut &[u8]) -> (r: Result<Vec<Withdrawal>, RlpError>)
    ensures
        rlp::is_tail(final(buf)@, old(buf)@),
        match r {
            Ok(v) => old(buf)@ == rlp::enc(Item::List(withdrawal_items(v@))) + final(buf)@,
            Err(_) => forall|v: Seq<Withdrawal>, rest: Seq<u8>|
                old(buf)@ != #[trigger] (rlp::enc(Item::List(withdrawal_items(v))) + rest),
        },
{
    let ghost s = buf@;
    assert(rlp::addressable(s)) by {
        assert(buf.len() == s.len());
    }
    let payload = match rlp::take_payload(buf, true) {
        Ok(p) => p,
        Err(e) => {
            proof {
                assert forall|v: Seq<Withdrawal>, rest: Seq<u8>|
                    s != #[trigger] (rlp::enc(Item::List(withdrawal_items(v))) + rest) by {
                    assert(rlp::enc(Item::List(withdrawal_items(v))) == rlp::framed(
                        true,
                        rlp::enc_all(withdrawal_items(v)),
                    ));
                }
            }
            return Err(RlpError::Item(e));
        },
    };
    let mut view: &[u8] = payload;
    let mut r: Vec<Withdrawal> = Vec::new();
    let ghost mut done: Seq<Item> = Seq::empty();
    assert(done =~= withdrawal_items(r@));
    assert(payload@ =~= rlp::enc_all(done) + view@);
    while view.len() > 0
        invariant
            s == rlp::framed(true, payload@) + buf@,
            rlp::addressable(s),
            rlp::is_tail(buf@, s),
            s == old(buf)@,
            done == withdrawal_items(r@),
            payload@ == rlp::enc_all(done) + view@,
        decreases view.len(),
    {
        let ghost left = view@;
        match Withdrawal::decode(&mut view) {
            Ok(w) => {
                proof {
                    lemma_item_read(done, left, w.item(), view@);
                    rlp::lemma_enc_not_empty(w.item());
                    assert(left.len() == rlp::enc(w.item()).len() + view@.len());
                    assert(withdrawal_items(r@.push(w)) =~= done.push(w.item()));
                    done = done.push(w.item());
                }
                r.push(w);
            },
            Err(e) => {
                proof {
                    assert forall|v: Seq<Withdrawal>, rest: Seq<u8>|
                        s != #[trigger] (rlp::enc(Item::List(withdrawal_items(v))) + rest) by {
                        if s == rlp::enc(Item::List(withdrawal_items(v))) + rest {
                            let items = withdrawal_items(v);
                            assert(s.len() == rlp::framed(true, rlp::enc_all(items)).len() + rest.len());
                            assert(s.len() == rlp::framed(true, payload@).len() + buf@.len());
                            rlp::lemma_framed_unique(
                                true,
                                payload@,
                                buf@,
                                true,
                                rlp::enc_all(items),
                                rest,
                            );
                            lemma_more_items(payload@, done, left, items);
                            assert(items[done.len() as int] == v[done.len() as int].item());
                        }
                    }
                }
                return Err(e);
            },
        }
    }
    assert(payload@ =~= rlp::enc_all(done));
    Ok(r)
}

impl Withdrawal {
    /// Reads a withdrawal off the front of `buf`.
    pub fn decode(buf: &mut &[u8]) -> (r: Result<Withdrawal, RlpError>)
        ensures
            rlp::is_tail(final(buf)@, old(buf)@),
            match r {
                Ok(w) => old(buf)@ == rlp::enc(w.item()) + final(buf)@,
                Err(_) => forall|w: Withdrawal, rest: Seq<u8>|
                    old(buf)@ != #[trigger] (rlp::enc(w.item()) + rest),
            },
    {
        let ghost s = buf@;
        assert(s =~= s.skip(0));
        assert(forall|w: Withdrawal, rest: Seq<u8>|
            s == #[trigger] (rlp::enc(w.item()) + rest) ==> begins_with_list(s, w.fields()));
        let mut list = ListReader::open(*buf)?;
        let index = list.take_u64()?;
        let validator_index = list.take_u64()?;
        let address = list.take_array::<20>()?;
        let amount = list.take_u64()?;
        let w = Withdrawal { index, validator_index, address, amount };
        assert(list.done@ =~= w.fields());
        *buf = list.close()?;
        Ok(w)
    }
}

/// Number of bytes of byte strings with their headers.
fn strings_payload_length(strings: &Vec<Bytes>) -> (r: usize)
    requires
        rlp::enc_all(string_items(primitives::contents(strings@))).len() <= usize::MAX,
    ensures
        r == rlp::enc_all(string_items(primitives::contents(strings@))).len(),
{
    let ghost items = string_items(primitives::contents(strings@));
    proof {
        lemma_beginnings(items);
    }
    let mut n: usize = 0;
    let mut i: usize = 0;
    while i < strings.len()
        invariant
            i <= strings.len(),
            items == string_items(primitives::contents(strings@)),
            items.len() == strings.len(),
            rlp::enc_all(items).len() <= usize::MAX,
            n == rlp::enc_all(items.take(i as int)).len(),
        decreases strings.len() - i,
    {
        proof {
            lemma_advance(items, i as int);
            assert(items[i as int] == Item::Str(strings@[i as int]@));
        }
        n = n + rlp::bytes_length(strings[i].as_slice());
        i += 1;
    }
    n
}

/// Appends byte strings as a list.
fn put_strings(strings: &Vec<Bytes>, out: &mut Vec<u8>)
    requires
        rlp::enc(Item::List(string_items(primitives::contents(strings@)))).len() <= usize::MAX,
    ensures
        final(out)@ == old(out)@ + rlp::enc(Item::List(string_items(primitives::contents(strings@)))),
{
    let ghost items = string_items(primitives::contents(strings@));
    let n = strings_payload_length(strings);
    rlp::put_header(true, n, out);
    let ghost start = out@;
    proof {
        lemma_beginnings(items);
        assert(out@ =~= start + rlp::enc_all(items.take(0)));
    }
    let mut i: usize = 0;
    while i < strings.len()
        invariant
            i <= strings.len(),
            items == string_items(primitives::contents(strings@)),
            items.len() == strings.len(),
            out@ == start + rlp::enc_all(items.take(i as int)),
        decreases strings.len() - i,
    {
        proof {
            lemma_advance(items, i as int);
            assert(items[i as int] == Item::Str(strings@[i as int]@));
        }
        rlp::put_bytes(strings[i].as_slice(), out);
        assert(out@ =~= start + rlp::enc_all(items.take(i as int + 1)));
        i += 1;
    }
    assert(out@ =~= old(out)@ + rlp::enc(Item::List(items)));
}

/// Number of bytes of withdrawals.
fn withdrawals_payload_length(withdrawals: &Vec<Withdrawal>) -> (r: usize)
    requires
        rlp::enc_all(withdrawal_items(withdrawals@)).len() <= usize::MAX,
    ensures
        r == rlp::enc_all(withdrawal_items(withdrawals@)).len(),
{
    let ghost items = withdrawal_items(withdrawals@);
    proof {
        lemma_beginnings(items);
    }
    let mut n: usize = 0;
    let mut i: usize = 0;
    while i < withdrawals.len()
        invariant
            i <= withdrawals.len(),
            items == withdrawal_items(withdrawals@),
            items.len() == withdrawals.len(),
            rlp::enc_all(items).len() <= usize::MAX,
            n == rlp::enc_all(items.take(i as int)).len(),
        decreases withdrawals.len() - i,
    {
        proof {
            lemma_advance(items, i as int);
            assert(items[i as int] == withdrawals@[i as int].item());
        }
        n = n + withdrawals[i].length();
        i += 1;
    }
    n
}

/// Appends withdrawals as a list.
fn put_withdrawals(withdrawals: &Vec<Withdrawal>, out: &mut Vec<u8>)
    requires
        rlp::enc(Item::List(withdrawal_items(withdrawals@))).len() <= usize::MAX,
    ensures
        final(out)@ == old(out)@ + rlp::enc(Item::List(withdrawal_items(withdrawals@))),
{
    let ghost items = withdrawal_items(withdrawals@);
    let n = withdrawals_payload_length(withdrawals);
    rlp::put_header(true, n, out);
    let ghost start = out@;
    proof {
        lemma_beginnings(items);
        assert(out@ =~= start + rlp::enc_all(items.take(0)));
    }
    let mut i: usize = 0;
    while i < withdrawals.len()
        invariant
            i <= withdrawals.len(),
            items == withdrawal_items(withdrawals@),
            items.len() == withdrawals.len(),
            rlp::enc_all(items).len() <= usize::MAX,
            out@ == start + rlp::enc_all(items.take(i as int)),
        decreases withdrawals.len() - i,
    {
        proof {
            lemma_advance(items, i as int);
            assert(items[i as int] == withdrawals@[i as int].item());
        }
        withdrawals[i].encode(out);
        assert(out@ =~= start + rlp::enc_all(items.take(i as int + 1)));
        i += 1;
    }
    assert(out@ =~= old(out)@ + rlp::enc(Item::List(items)));
}

impl ExecutionPayloadFlashblockDeltaV1 {
    /// Number of bytes of the delta's fields.
    fn payload_length(&self) -> (r: usize)
        requires
            rlp::enc_all(self@.fields()).len() <= usize::MAX,
        ensures
            r == rlp::enc_all(self@.fields()).len(),
    {
        proof {
            let items = self@.fields();
            lemma_beginnings(items);
            assert(items[0] == Item::Str(self@.state_root@));
            assert(items[1] == Item::Str(self@.receipts_root@));
            assert(items[2] == Item::Str(self@.logs_bloom@));
            assert(items[3] == rlp::number(self@.gas_used as nat));
            assert(items[4] == Item::Str(self@.block_hash@));
            assert(items[5] == Item::List(string_items(self@.transactions)));
            assert(items[6] == Item::List(withdrawal_items(self@.withdrawals)));
            assert(items[7] == Item::Str(self@.withdrawals_root@));
        }
        let transactions_payload = strings_payload_length(&self.transactions);
        let transactions_length = rlp::header_length(true, transactions_payload) + transactions_payload;
        let withdrawals_payload = withdrawals_payload_length(&self.withdrawals);
        let withdrawals_length = rlp::header_length(true, withdrawals_payload) + withdrawals_payload;
        rlp::bytes_length(self.state_root.as_slice())
            + rlp::bytes_length(self.receipts_root.as_slice())
            + rlp::bytes_length(self.logs_bloom.as_slice())
            + rlp::u64_length(self.gas_used)
            + rlp::bytes_length(self.block_hash.as_slice())
            + transactions_length
            + withdrawals_length
            + rlp::bytes_length(self.withdrawals_root.as_slice())
    }

    /// Number of bytes of the delta's wire form.
    pub fn length(&self) -> (r: usize)
        requires
            rlp::enc(self@.item()).len() <= usize::MAX,
        ensures
            r == rlp::enc(self@.item()).len(),
    {
        let n = self.payload_length();
        rlp::header_length(true, n) + n
    }

    /// Appends the delta's wire form.
    pub fn encode(&self, out: &mut Vec<u8>)
        requires
            rlp::enc(self@.item()).len() <= usize::MAX,
        ensures
            final(out)@ == old(out)@ + rlp::enc(self@.item()),
    {
        let n = self.payload_length();
        proof {
            let items = self@.fields();
            lemma_advance(items, 5);
            lemma_advance(items, 6);
        }
        let mut list = ListWriter::open(n, out);
        list.put_bytes(self.state_root.as_slice(), out);
        list.put_bytes(self.receipts_root.as_slice(), out);
        list.put_bytes(self.logs_bloom.as_slice(), out);
        list.put_u64(self.gas_used, out);
        list.put_bytes(self.block_hash.as_slice(), out);
        put_strings(&self.transactions, out);
        list.note(Ghost(Item::List(string_items(self@.transactions))), out);
        put_withdrawals(&self.withdrawals, out);
        list.note(Ghost(Item::List(withdrawal_items(self@.withdrawals))), out);
        list.put_bytes(self.withdrawals_root.as_slice(), out);
        assert(list.items() =~= self@.fields());
        assert(out@ =~= old(out)@ + rlp::enc(self@.item()));
    }

    /// Reads a delta off the front of `buf`.
    pub fn decode(buf: &mut &[u8]) -> (r: Result<ExecutionPayloadFlashblockDeltaV1, RlpError>)
        ensures
            rlp::is_tail(final(buf)@, old(buf)@),
            match r {
                Ok(v) => old(buf)@ == rlp::enc(v@.item()) + final(buf)@,
                Err(_) => forall|v: DeltaView, rest: Seq<u8>|
                    old(buf)@ != #[trigger] (rlp::enc(v.item()) + rest),
            },
    {
        let ghost s = buf@;
        assert(s =~= s.skip(0));
        assert(forall|v: DeltaView, rest: Seq<u8>|
            s == #[trigger] (rlp::enc(v.item()) + rest) ==> begins_with_list(s, v.fields()));
        let mut list = ListReader::open(*buf)?;
        let state_root = list.take_array::<32>()?;
        let receipts_root = list.take_array::<32>()?;
        let logs_bloom = list.take_array::<256>()?;
        let gas_used = list.take_u64()?;
        let block_hash = list.take_array::<32>()?;
        let transactions = list.take_strings()?;
        let withdrawals = list.take_withdrawals()?;
        let withdrawals_root = list.take_array::<32>()?;
        let v = ExecutionPayloadFlashblockDeltaV1 {
            state_root,
            receipts_root,
            logs_bloom,
            gas_used,
            block_hash,
            transactions,
            withdrawals,
            withdrawals_root,
        };
        assert(list.done@ =~= v@.fields());
        *buf = list.close()?;
        Ok(v)
    }
}

impl ExecutionPayloadBaseV1 {
    /// Number of bytes of the base's fields.
    fn payload_length(&self) -> (r: usize)
        requires
            rlp::enc_all(self@.fields()).len() <= usize::MAX,
        ensures
            r == rlp::enc_all(self@.fields()).len(),
    {
        proof {
            let items = self@.fields();
            lemma_beginnings(items);
            assert(items[0] == Item::Str(self@.parent_beacon_block_root@));
            assert(items[1] == Item::Str(self@.parent_hash@));
            assert(items[2] == Item::Str(self@.fee_recipient@));
            assert(items[3] == Item::Str(self@.prev_randao@));
            assert(items[4] == rlp::number(self@.block_number as nat));
            assert(items[5] == rlp::number(self@.gas_limit as nat));
            assert(items[6] == rlp::number(self@.timestamp as nat));
            assert(items[7] == Item::Str(self@.extra_data));
            assert(items[8] == rlp::number(self@.base_fee_per_gas.value()));
        }
        rlp::bytes_length(self.parent_beacon_block_root.as_slice())
            + rlp::bytes_length(self.parent_hash.as_slice())
            + rlp::bytes_length(self.fee_recipient.as_slice())
            + rlp::bytes_length(self.prev_randao.as_slice())
            + rlp::u64_length(self.block_number)
            + rlp::u64_length(self.gas_limit)
            + rlp::u64_length(self.timestamp)
            + rlp::bytes_length(self.extra_data.as_slice())
            + rlp::u256_length(self.base_fee_per_gas)
    }

    /// Number of bytes of the base's wire form.
    pub fn length(&self) -> (r: usize)
        requires
            rlp::enc(self@.item()).len() <= usize::MAX,
        ensures
            r == rlp::enc(self@.item()).len(),
    {
        let n = self.payload_length();
        rlp::header_length(true, n) + n
    }

    /// Appends the base's wire form.
    pub fn encode(&self, out: &mut Vec<u8>)
        requires
            rlp::enc(self@.item()).len() <= usize::MAX,
        ensures
            final(out)@ == old(out)@ + rlp::enc(self@.item()),
    {
        let n = self.payload_length();
        let mut list = ListWriter::open(n, out);
        list.put_bytes(self.parent_beacon_block_root.as_slice(), out);
        list.put_bytes(self.parent_hash.as_slice(), out);
        list.put_bytes(self.fee_recipient.as_slice(), out);
        list.put_bytes(self.prev_randao.as_slice(), out);
        list.put_u64(self.block_number, out);
        list.put_u64(self.gas_limit, out);
        list.put_u64(self.timestamp, out);
        list.put_bytes(self.extra_data.as_slice(), out);
        list.put_u256(self.base_fee_per_gas, out);
        assert(list.items() =~= self@.fields());
        assert(out@ =~= old(out)@ + rlp::enc(self@.item()));
    }

    /// Reads a base off the front of `buf`.
    pub fn decode(buf: &mut &[u8]) -> (r: Result<ExecutionPayloadBaseV1, RlpError>)
        ensures
            rlp::is_tail(final(buf)@, old(buf)@),
            match r {
                Ok(v) => old(buf)@ == rlp::enc(v@.item()) + final(buf)@,
                Err(_) => forall|v: BaseView, rest: Seq<u8>|
                    old(buf)@ != #[trigger] (rlp::enc(v.item()) + rest),
            },
    {
        let ghost s = buf@;
        assert(s =~= s.skip(0));
        assert(forall|v: BaseView, rest: Seq<u8>|
            s == #[trigger] (rlp::enc(v.item()) + rest) ==> begins_with_list(s, v.fields()));
        let mut list = ListReader::open(*buf)?;
        let parent_beacon_block_root = list.take_array::<32>()?;
        let parent_hash = list.take_array::<32>()?;
        let fee_recipient = list.take_array::<20>()?;
        let prev_randao = list.take_array::<32>()?;
        let block_number = list.take_u64()?;
        let gas_limit = list.take_u64()?;
        let timestamp = list.take_u64()?;
        let extra_data = list.take_bytes()?;
        let base_fee_per_gas = list.take_u256()?;
        let v = ExecutionPayloadBaseV1 {
            parent_beacon_block_root,
            parent_hash,
            fee_recipient,
            prev_randao,
            block_number,
            gas_limit,
            timestamp,
            extra_data,
            base_fee_per_gas,
        };
        assert(list.done@ =~= v@.fields());
        *buf = list.close()?;
        Ok(v)
    }
}

/// The bytes of byte strings and of withdrawals in a list are those of each, in order.
pub proof fn law_wire_of_lists(
    strings: Seq<Seq<u8>>,
    s: Seq<u8>,
    withdrawals: Seq<Withdrawal>,
    w: Withdrawal,
)
    ensures
        rlp::enc_all(string_items(Seq::empty())) == Seq::<u8>::empty(),
        rlp::enc_all(string_items(strings.push(s))) == rlp::enc_all(string_items(strings))
            + rlp::string(s),
        rlp::enc_all(withdrawal_items(Seq::empty())) == Seq::<u8>::empty(),
        rlp::enc_all(withdrawal_items(withdrawals.push(w))) == rlp::enc_all(
            withdrawal_items(withdrawals),
        ) + rlp::enc(w.item()),
{
    assert(string_items(strings.push(s)) =~= string_items(strings).push(Item::Str(s)));
    rlp::lemma_enc_all_push(string_items(strings), Item::Str(s));
    assert(withdrawal_items(withdrawals.push(w)) =~= withdrawal_items(withdrawals).push(w.item()));
    rlp::lemma_enc_all_push(withdrawal_items(withdrawals), w.item());
}

/// The wire form of a withdrawal is one list of its index, the validator's index, the address and the
/// amount.
pub proof fn law_wire_of_withdrawal(w: Withdrawal)
    ensures
        rlp::enc(w.item()) == rlp::framed(
            true,
            rlp::string(rlp::be(w.index as nat)) + rlp::string(rlp::be(w.validator_index as nat))
                + rlp::string(w.address@) + rlp::string(rlp::be(w.amount as nat)),
        ),
{
    reveal_with_fuel(rlp::enc_all, 5);
    assert(rlp::enc_all(w.fields()) =~= rlp::string(rlp::be(w.index as nat)) + rlp::string(
        rlp::be(w.validator_index as nat),
    ) + rlp::string(w.address@) + rlp::string(rlp::be(w.amount as nat)));
}

/// The wire form of a diff is one list of the state root, the receipts root, the logs bloom, the gas
/// used, the block hash, the transactions, the withdrawals and the withdrawals root.
pub proof fn law_wire_of_diff(d: DeltaView)
    ensures
        rlp::enc(d.item()) == rlp::framed(
            true,
            rlp::string(d.state_root@) + rlp::string(d.receipts_root@) + rlp::string(d.logs_bloom@)
                + rlp::string(rlp::be(d.gas_used as nat)) + rlp::string(d.block_hash@)
                + rlp::framed(true, rlp::enc_all(string_items(d.transactions))) + rlp::framed(
                true,
                rlp::enc_all(withdrawal_items(d.withdrawals)),
            ) + rlp::string(d.withdrawals_root@),
        ),
{
    let items = d.fields();
    lemma_beginnings(items);
    assert(items.len() == 8);
    assert(items[0] == Item::Str(d.state_root@));
    assert(rlp::enc_all(items.take(1)) =~= rlp::string(d.state_root@));
    assert(items[1] == Item::Str(d.receipts_root@));
    assert(items[2] == Item::Str(d.logs_bloom@));
    assert(items[3] == rlp::number(d.gas_used as nat));
    assert(items[4] == Item::Str(d.block_hash@));
    assert(items[5] == Item::List(string_items(d.transactions)));
    assert(items[6] == Item::List(withdrawal_items(d.withdrawals)));
    assert(items[7] == Item::Str(d.withdrawals_root@));
}

/// The wire form of a base is one list of the root of the parent beacon block, the parent's hash, the
/// fee recipient, the randomness, the number of the block, its gas limit, its timestamp, its extra data
/// and its base fee.
pub proof fn law_wire_of_base(b: BaseView)
    ensures
        rlp::enc(b.item()) == rlp::framed(
            true,
            rlp::string(b.parent_beacon_block_root@) + rlp::string(b.parent_hash@) + rlp::string(
                b.fee_recipient@,
            ) + rlp::string(b.prev_randao@) + rlp::string(rlp::be(b.block_number as nat))
                + rlp::string(rlp::be(b.gas_limit as nat)) + rlp::string(
                rlp::be(b.timestamp as nat),
            ) + rlp::string(b.extra_data) + rlp::string(rlp::be(b.base_fee_per_gas.value())),
        ),
{
    let items = b.fields();
    lemma_beginnings(items);
    assert(items.len() == 9);
    assert(items[0] == Item::Str(b.parent_beacon_block_root@));
    assert(rlp::enc_all(items.take(1)) =~= rlp::string(b.parent_beacon_block_root@));
    assert(items[1] == Item::Str(b.parent_hash@));
    assert(items[2] == Item::Str(b.fee_recipient@));
    assert(items[3] == Item::Str(b.prev_randao@));
    assert(items[4] == rlp::number(b.block_number as nat));
    assert(items[5] == rlp::number(b.gas_limit as nat));
    assert(items[6] == rlp::number(b.timestamp as nat));
    assert(items[7] == Item::Str(b.extra_data));
    assert(items[8] == rlp::number(b.base_fee_per_gas.value()));
}

}

//! Encoding and decoding of whole flashblocks.
use crate::flashblocks::codec::{self, ListWriter};
use crate::flashblocks::primitives::{
    self, B64, BaseView, DeltaView, ExecutionPayloadBaseV1, ExecutionPayloadFlashblockDeltaV1,
    FlashblocksPayloadV1, PayloadView, Withdrawal,
};
use crate::num;
use crate::rlp::{self, Item, RlpError};
use vstd::prelude::*;

verus! {

/// Why bytes are not the wire form of a flashblock.
pub enum DecodeError {
    /// A byte string was found in place of the flashblock's list.
    UnexpectedString,
    /// The text of the metadata was refused.
    BadJson,
    /// Bytes in the flashblock's list are not what is due there.
    Rlp(RlpError),
}

/// Whether `parse` can answer `m` to the text `json`.
pub open spec fn parses_to<M, F: Fn(&[u8]) -> Option<M>>(
    parse: F,
    json: Seq<u8>,
    m: Option<M>,
) -> bool {
    exists|b: &[u8]| #![trigger b@] b@ == json && parse.ensures((b,), m)
}

/// The items of a flashblock's fields up to its metadata.
pub open spec fn head(id: B64, index: u64, diff: DeltaView, json: Seq<u8>) -> Seq<Item> {
    seq![Item::Str(id@), rlp::number(index as nat), diff.item(), Item::Str(json)]
}

/// A list that begins with `items`, and holds the bytes `extra` behind them.
pub open spec fn list_from(items: Seq<Item>, extra: Seq<u8>) -> Seq<u8> {
    rlp::framed(true, rlp::enc_all(items) + extra)
}

/// Whether `s` begins with a list whose first items are `items`.
pub open spec fn begins(s: Seq<u8>, items: Seq<Item>) -> bool {
    exists|extra: Seq<u8>, rest: Seq<u8>| s == #[trigger] (list_from(items, extra) + rest)
}

/// Whether `s` begins with a byte string.
pub open spec fn begins_with_string(s: Seq<u8>) -> bool {
    exists|p: Seq<u8>, rest: Seq<u8>| s == #[trigger] (rlp::string(p) + rest)
}

impl<M> FlashblocksPayloadV1<M> {
    /// Number of bytes of the flashblock's fields, with `json` as the text of its metadata.
    fn compute_payload_length(&self, json: &[u8]) -> (r: usize)
        requires
            rlp::enc_all(self@.fields(json@)).len() <= usize::MAX,
        ensures
            r == rlp::enc_all(self@.fields(json@)).len(),
    {
        proof {
            let items = self@.fields(json@);
            codec::lemma_beginnings(items);
            assert(items[0] == Item::Str(self.payload_id@));
            assert(items[1] == rlp::number(self.index as nat));
            assert(items[2] == self.diff@.item());
            assert(items[3] == Item::Str(json@));
            assert(items[4] == codec::base_item(self@.base));
        }
        let base_length = match &self.base {
            Some(base) => base.length(),
            None => 1,
        };
        rlp::bytes_length(self.payload_id.as_slice()) + rlp::u64_length(self.index)
            + self.diff.length() + rlp::bytes_length(json) + base_length
    }

    /// Number of bytes of the flashblock's wire form, with `json` as the text of its metadata.
    pub fn length(&self, json: &[u8]) -> (r: usize)
        requires
            rlp::enc(self@.item(json@)).len() <= usize::MAX,
        ensures
            r == rlp::enc(self@.item(json@)).len(),
    {
        let n = self.compute_payload_length(json);
        rlp::header_length(true, n) + n
    }

    /// Appends the flashblock's wire form, with `json` as the text of its metadata.
    pub fn encode(&self, json: &[u8], out: &mut Vec<u8>)
        requires
            rlp::enc(self@.item(json@)).len() <= usize::MAX,
        ensures
            final(out)@ == old(out)@ + rlp::enc(self@.item(json@)),
    {
        let n = self.compute_payload_length(json);
        proof {
            let items = self@.fields(json@);
            codec::lemma_beginnings(items);
            assert(items[2] == self.diff@.item());
            assert(items[4] == codec::base_item(self@.base));
            assert(rlp::enc(codec::base_item(None)) =~= seq![0x80u8]);
        }
        let mut list = ListWriter::open(n, out);
        list.put_bytes(self.payload_id.as_slice(), out);
        list.put_u64(self.index, out);
        self.diff.encode(out);
        list.note(Ghost(self.diff@.item()), out);
        list.put_bytes(json, out);
        let ghost before = out@;
        match &self.base {
            Some(base) => {
                base.encode(out);
            },
            None => {
                out.push(0x80);
                assert(out@ =~= before + seq![0x80u8]);
            },
        }
        list.note(Ghost(codec::base_item(self@.base)), out);
        assert(list.items() =~= self@.fields(json@));
        assert(out@ =~= old(out)@ + rlp::enc(self@.item(json@)));
    }
}

/// The wire form of a flashblock is one list of its payload id, its index, its diff, the text of its
/// metadata, and its base, of which an empty byte string takes the place where there is none.
pub proof fn law_wire_form<M>(v: PayloadView<M>, json: Seq<u8>)
    ensures
        rlp::enc(v.item(json)) == rlp::framed(
            true,
            rlp::string(v.payload_id@) + rlp::enc(rlp::number(v.index as nat)) + rlp::enc(
                v.diff.item(),
            ) + rlp::string(json) + match v.base {
                Some(base) => rlp::enc(base.item()),
                None => seq![0x80u8],
            },
        ),
{
    let items = v.fields(json);
    assert(rlp::enc(codec::base_item(None)) =~= seq![0x80u8]);
    reveal_with_fuel(rlp::enc_all, 6);
    assert(rlp::enc_all(items) =~= rlp::string(v.payload_id@) + rlp::enc(
        rlp::number(v.index as nat),
    ) + rlp::enc(v.diff.item()) + rlp::string(json) + rlp::enc(codec::base_item(v.base)));
}

/// The payload of a list that begins with `items`.
proof fn lemma_payload(s: Seq<u8>, payload: Seq<u8>, after: Seq<u8>, items: Seq<Item>)
    requires
        rlp::addressable(s),
        s == rlp::framed(true, payload) + after,
        begins(s, items),
    ensures
        exists|extra: Seq<u8>| payload == #[trigger] (rlp::enc_all(items) + extra),
{
    let (extra, rest) = choose|extra: Seq<u8>, rest: Seq<u8>|
        s == #[trigger] (list_from(items, extra) + rest);
    let p = rlp::enc_all(items) + extra;
    assert(s.len() == rlp::framed(true, p).len() + rest.len());
    assert(s.len() == rlp::framed(true, payload).len() + after.len());
    rlp::lemma_framed_unique(true, payload, after, true, p, rest);
}

/// Bytes that begin with a list do not begin with a byte string.
pub proof fn lemma_not_string(s: Seq<u8>, payload: Seq<u8>, after: Seq<u8>)
    requires
        rlp::addressable(s),
        s == rlp::framed(true, payload) + after,
    ensures
        !begins_with_string(s),
{
    if begins_with_string(s) {
        let (p, rest) = choose|p: Seq<u8>, rest: Seq<u8>| s == #[trigger] (rlp::string(p) + rest);
        assert(s.len() == rlp::framed(true, payload).len() + after.len());
        assert(s.len() == rlp::framed(false, p).len() + rest.len());
        rlp::lemma_framed_unique(true, payload, after, false, p, rest);
    }
}

/// Whether no flashblock can be read off the front of `s`, for a reason other than that `s` begins
/// with a byte string, or that the text of the metadata is refused.
pub open spec fn malformed<M, F: Fn(&[u8]) -> Option<M>>(s: Seq<u8>, parse: F) -> bool {
    &&& !begins_with_string(s)
    &&& forall|v: PayloadView<M>, json: Seq<u8>| !#[trigger] begins(s, v.fields(json))
    &&& forall|id: B64, index: u64, diff: DeltaView, json: Seq<u8>| #[trigger]
        begins(s, head(id, index, diff, json)) ==> exists|m: M|
            #[trigger] parses_to(parse, json, Some(m))
}

/// Whether the list that `s` begins with has the head of a flashblock, with a metadata text that
/// `parse` refuses.
pub open spec fn refused<M, F: Fn(&[u8]) -> Option<M>>(s: Seq<u8>, parse: F) -> bool {
    exists|id: B64, index: u64, diff: DeltaView, json: Seq<u8>| #[trigger]
        begins(s, head(id, index, diff, json)) && parses_to(parse, json, None::<M>)
}

/// Whether reading a flashblock off the front of `s`, where `parse` reads the text of its metadata,
/// can end in `r` with `rest` left over.
pub open spec fn decodes<M, F: Fn(&[u8]) -> Option<M>>(
    s: Seq<u8>,
    parse: F,
    r: Result<FlashblocksPayloadV1<M>, DecodeError>,
    rest: Seq<u8>,
) -> bool {
    match r {
        Ok(v) => exists|json: Seq<u8>, extra: Seq<u8>|
            s == #[trigger] list_from(v@.fields(json), extra) + rest && parses_to(
                parse,
                json,
                Some(v.metadata),
            ),
        Err(DecodeError::UnexpectedString) => begins_with_string(s),
        Err(DecodeError::BadJson) => refused(s, parse),
        Err(DecodeError::Rlp(_)) => malformed(s, parse),
    }
}

/// Bytes whose first items are not those of any head, because of the item at `done`.
proof fn lemma_no_head(s: Seq<u8>, done: Seq<Item>, left: Seq<u8>)
    requires
        rlp::addressable(s),
        s == rlp::enc_all(done) + left,
        done.len() < 4,
        forall|id: B64, index: u64, diff: DeltaView, json: Seq<u8>, rest: Seq<u8>|
            left != #[trigger] (rlp::enc(head(id, index, diff, json)[done.len() as int]) + rest),
    ensures
        no_head(s),
{
    assert forall|id: B64, index: u64, diff: DeltaView, json: Seq<u8>, rest: Seq<u8>|
        s != #[trigger] (rlp::enc_all(head(id, index, diff, json)) + rest) by {
        if s == rlp::enc_all(head(id, index, diff, json)) + rest {
            rlp::lemma_next_item(s, done, left, head(id, index, diff, json), rest);
        }
    }
}

/// Whether `s` does not begin with the items of a flashblock's head.
spec fn no_head(s: Seq<u8>) -> bool {
    forall|id: B64, index: u64, diff: DeltaView, json: Seq<u8>, rest: Seq<u8>|
        s != #[trigger] (rlp::enc_all(head(id, index, diff, json)) + rest)
}

/// Reads the fields of a flashblock up to its metadata.
fn take_head<'a>(buf: &mut &'a [u8]) -> (r: Result<
    (B64, u64, ExecutionPayloadFlashblockDeltaV1, &'a [u8]),
    RlpError,
>)
    ensures
        match r {
            Ok((id, index, diff, json)) => old(buf)@ == rlp::enc_all(head(id, index, diff@, json@))
                + final(buf)@,
            Err(_) => no_head(old(buf)@),
        },
{
    let ghost s = buf@;
    assert(rlp::addressable(s)) by {
        assert(buf.len() == s.len());
    }
    let ghost done: Seq<Item> = Seq::empty();
    assert(s =~= rlp::enc_all(done) + buf@);

    let ghost left = buf@;
    let id = match rlp::take_array::<8>(buf) {
        Ok(v) => v,
        Err(e) => {
            proof {
                lemma_no_head(s, done, left);
            }
            return Err(RlpError::Item(e));
        },
    };
    let ghost one = seq![Item::Str(id@)];
    proof {
        codec::lemma_item_read(done, left, Item::Str(id@), buf@);
        assert(done.push(Item::Str(id@)) =~= one);
    }

    let ghost left = buf@;
    let index = match rlp::take_u64(buf) {
        Ok(v) => v,
        Err(e) => {
            proof {
                lemma_no_head(s, one, left);
            }
            return Err(RlpError::Item(e));
        },
    };
    let ghost two = one.push(rlp::number(index as nat));
    proof {
        codec::lemma_item_read(one, left, rlp::number(index as nat), buf@);
    }

    let ghost left = buf@;
    let diff = match ExecutionPayloadFlashblockDeltaV1::decode(buf) {
        Ok(v) => v,
        Err(e) => {
            proof {
                lemma_no_head(s, two, left);
            }
            return Err(e);
        },
    };
    let ghost three = two.push(diff@.item());
    proof {
        codec::lemma_item_read(two, left, diff@.item(), buf@);
    }

    let ghost left = buf@;
    let json = match rlp::take_payload(buf, false) {
        Ok(v) => v,
        Err(e) => {
            proof {
                assert forall|id: B64, index: u64, diff: DeltaView, json: Seq<u8>, rest: Seq<u8>|
                    left != #[trigger] (rlp::enc(head(id, index, diff, json)[three.len() as int]) + rest) by {
                    assert(left != rlp::framed(false, json) + rest);
                }
                lemma_no_head(s, three, left);
            }
            return Err(RlpError::Item(e));
        },
    };
    proof {
        codec::lemma_item_read(three, left, Item::Str(json@), buf@);
        assert(three.push(Item::Str(json@)) =~= head(id, index, diff@, json@));
    }
    Ok((id, index, diff, json))
}

/// Reads a flashblock's base, for which an empty byte string can stand in.
fn take_base(buf: &[u8]) -> (r: Result<Option<ExecutionPayloadBaseV1>, RlpError>)
    ensures
        match r {
            Ok(base) => exists|rest: Seq<u8>|
                buf@ == #[trigger] (rlp::enc(codec::base_item(primitives::optional_base(base))) + rest),
            Err(_) => forall|base: Option<BaseView>, rest: Seq<u8>|
                buf@ != #[trigger] (rlp::enc(codec::base_item(base)) + rest),
        },
{
    assert(rlp::enc(codec::base_item(None)) =~= seq![0x80u8]);
    if buf.len() > 0 && buf[0] == 0x80 {
        assert(buf@ =~= rlp::enc(codec::base_item(None)) + buf@.skip(1));
        return Ok(None);
    }
    let mut rest: &[u8] = buf;
    match ExecutionPayloadBaseV1::decode(&mut rest) {
        Ok(v) => {
            assert(buf@ == rlp::enc(codec::base_item(Some(v@))) + rest@);
            Ok(Some(v))
        },
        Err(e) => Err(e),
    }
}

/// What follows from a payload that does not begin with a head.
proof fn lemma_headless<M, F: Fn(&[u8]) -> Option<M>>(
    s: Seq<u8>,
    payload: Seq<u8>,
    after: Seq<u8>,
    parse: F,
)
    requires
        rlp::addressable(s),
        s == rlp::framed(true, payload) + after,
        no_head(payload),
    ensures
        malformed(s, parse),
{
    lemma_not_string(s, payload, after);
    assert forall|v: PayloadView<M>, json: Seq<u8>| !#[trigger] begins(s, v.fields(json)) by {
        if begins(s, v.fields(json)) {
            lemma_payload(s, payload, after, v.fields(json));
            let extra = choose|extra: Seq<u8>|
                payload == #[trigger] (rlp::enc_all(v.fields(json)) + extra);
            let h = head(v.payload_id, v.index, v.diff, json);
            assert(v.fields(json) =~= h.push(codec::base_item(v.base)));
            rlp::lemma_enc_all_push(h, codec::base_item(v.base));
            assert(payload =~= rlp::enc_all(h) + (rlp::enc(codec::base_item(v.base)) + extra));
        }
    }
    assert forall|id: B64, index: u64, diff: DeltaView, json: Seq<u8>|
        !#[trigger] begins(s, head(id, index, diff, json)) by {
        if begins(s, head(id, index, diff, json)) {
            lemma_payload(s, payload, after, head(id, index, diff, json));
        }
    }
}

/// What follows from a payload that begins with a head, and no base behind it.
proof fn lemma_baseless<M, F: Fn(&[u8]) -> Option<M>>(
    s: Seq<u8>,
    payload: Seq<u8>,
    after: Seq<u8>,
    items: Seq<Item>,
    left: Seq<u8>,
    parse: F,
    m: M,
)
    requires
        rlp::addressable(s),
        s == rlp::framed(true, payload) + after,
        payload == rlp::enc_all(items) + left,
        items.len() == 4,
        items[3] is Str,
        parses_to(parse, items[3]->Str_0, Some(m)),
        forall|base: Option<BaseView>, rest: Seq<u8>|
            left != #[trigger] (rlp::enc(codec::base_item(base)) + rest),
    ensures
        malformed(s, parse),
{
    lemma_not_string(s, payload, after);
    assert forall|v: PayloadView<M>, json: Seq<u8>| !#[trigger] begins(s, v.fields(json)) by {
        if begins(s, v.fields(json)) {
            lemma_payload(s, payload, after, v.fields(json));
            let extra = choose|extra: Seq<u8>|
                payload == #[trigger] (rlp::enc_all(v.fields(json)) + extra);
            rlp::lemma_next_item(payload, items, left, v.fields(json), extra);
            assert(v.fields(json)[4] == codec::base_item(v.base));
        }
    }
    assert forall|id: B64, index: u64, diff: DeltaView, json: Seq<u8>| #[trigger]
        begins(s, head(id, index, diff, json)) implies exists|m: M|
        #[trigger] parses_to(parse, json, Some(m)) by {
        let h = head(id, index, diff, json);
        lemma_payload(s, payload, after, h);
        let extra = choose|extra: Seq<u8>| payload == #[trigger] (rlp::enc_all(h) + extra);
        rlp::lemma_items_read(items, left, h, extra);
        assert(h.take(4) =~= h);
        assert(items[3] == Item::Str(json));
        assert(parses_to(parse, json, Some(m)));
    }
}

impl<M> FlashblocksPayloadV1<M> {
    /// Reads a flashblock off the front of `buf`. `parse` reads the text of the metadata.
    ///
    /// Bytes in the flashblock's list behind its last field are passed over.
    pub fn decode<F: Fn(&[u8]) -> Option<M>>(buf: &mut &[u8], parse: F) -> (r: Result<
        Self,
        DecodeError,
    >)
        requires
            forall|b: &[u8]| #[trigger] parse.requires((b,)),
        ensures
            rlp::is_tail(final(buf)@, old(buf)@),
            decodes(old(buf)@, parse, r, final(buf)@),
    {
        let ghost s = buf@;
        assert(rlp::addressable(s)) by {
            assert(buf.len() == s.len());
        }
        let (list, n) = match rlp::take_header(buf) {
            Ok(h) => h,
            Err(e) => {
                proof {
                    assert forall|p: Seq<u8>, rest: Seq<u8>| s != #[trigger] (rlp::string(p) + rest) by {
                        assert(rlp::string(p) == rlp::framed(false, p));
                    }
                    assert forall|items: Seq<Item>| !#[trigger] begins(s, items) by {
                        if begins(s, items) {
                            let (extra, rest) = choose|extra: Seq<u8>, rest: Seq<u8>|
                                s == #[trigger] (list_from(items, extra) + rest);
                            assert(s == rlp::framed(true, rlp::enc_all(items) + extra) + rest);
                        }
                    }
                }
                return Err(DecodeError::Rlp(RlpError::Item(e)));
            },
        };
        let whole: &[u8] = *buf;
        let ghost payload = whole@.take(n as int);
        let ghost after = whole@.skip(n as int);
        if !list {
            assert(s == rlp::string(payload) + after);
            return Err(DecodeError::UnexpectedString);
        }
        let mut body: &[u8] = vstd::slice::slice_subrange(whole, 0, n);
        assert(body@ =~= payload);
        let (payload_id, index, diff, json) = match take_head(&mut body) {
            Ok(h) => h,
            Err(e) => {
                proof {
                    lemma_headless(s, payload, after, parse);
                }
                return Err(DecodeError::Rlp(e));
            },
        };
        let ghost items = head(payload_id, index, diff@, json@);
        proof {
            assert(s == list_from(items, body@) + after);
            assert(begins(s, items));
        }
        let metadata = match parse(json) {
            Some(m) => m,
            None => {
                assert(parses_to(parse, json@, None::<M>));
                return Err(DecodeError::BadJson);
            },
        };
        assert(parses_to(parse, json@, Some(metadata)));
        let base = match take_base(body) {
            Ok(base) => base,
            Err(e) => {
                proof {
                    lemma_baseless(s, payload, after, items, body@, parse, metadata);
                }
                return Err(DecodeError::Rlp(e));
            },
        };
        let v = FlashblocksPayloadV1 { payload_id, index, diff, metadata, base };
        *buf = vstd::slice::slice_subrange(whole, n, whole.len());
        proof {
            assert(buf@ =~= after);
            let last = codec::base_item(v@.base);
            let extra = choose|rest: Seq<u8>| body@ == #[trigger] (rlp::enc(last) + rest);
            codec::lemma_item_read(items, body@, last, extra);
            assert(items.push(last) =~= v@.fields(json@));
            assert(s == list_from(v@.fields(json@), extra) + buf@);
            assert(buf@ =~= s.skip(s.len() - buf@.len()));
        }
        Ok(v)
    }
}

/// Numbers with the same item are the same.
proof fn lemma_same_number(m: nat, n: nat)
    requires
        rlp::number(m) == rlp::number(n),
    ensures
        m == n,
{
    rlp::lemma_be_injective(m, n);
}

/// Withdrawals with the same item are the same.
proof fn lemma_same_withdrawal(a: Withdrawal, b: Withdrawal)
    requires
        a.item() == b.item(),
    ensures
        a == b,
{
    let x = a.fields();
    let y = b.fields();
    assert(x[0] == y[0] && x[1] == y[1] && x[2] == y[2] && x[3] == y[3]);
    lemma_same_number(a.index as nat, b.index as nat);
    lemma_same_number(a.validator_index as nat, b.validator_index as nat);
    lemma_same_number(a.amount as nat, b.amount as nat);
    assert(a.address == b.address);
}

/// Deltas with the same item are the same.
pub proof fn lemma_same_delta(a: DeltaView, b: DeltaView)
    requires
        a.item() == b.item(),
    ensures
        a == b,
{
    let x = a.fields();
    let y = b.fields();
    assert(x[0] == y[0] && x[1] == y[1] && x[2] == y[2] && x[3] == y[3]);
    assert(x[4] == y[4] && x[5] == y[5] && x[6] == y[6] && x[7] == y[7]);
    lemma_same_number(a.gas_used as nat, b.gas_used as nat);
    assert(a.state_root == b.state_root);
    assert(a.receipts_root == b.receipts_root);
    assert(a.logs_bloom == b.logs_bloom);
    assert(a.block_hash == b.block_hash);
    assert(a.withdrawals_root == b.withdrawals_root);
    let s = codec::string_items(a.transactions);
    let t = codec::string_items(b.transactions);
    assert(s == t);
    assert(a.transactions.len() == s.len() && b.transactions.len() == t.len());
    assert forall|i: int| 0 <= i < a.transactions.len() implies a.transactions[i]
        == b.transactions[i] by {
        assert(s[i] == Item::Str(a.transactions[i]));
        assert(t[i] == Item::Str(b.transactions[i]));
    }
    assert(a.transactions =~= b.transactions);
    let v = codec::withdrawal_items(a.withdrawals);
    let w = codec::withdrawal_items(b.withdrawals);
    assert(v == w);
    assert(a.withdrawals.len() == v.len() && b.withdrawals.len() == w.len());
    assert forall|i: int| 0 <= i < a.withdrawals.len() implies a.withdrawals[i]
        == b.withdrawals[i] by {
        assert(v[i] == a.withdrawals[i].item());
        assert(w[i] == b.withdrawals[i].item());
        lemma_same_withdrawal(a.withdrawals[i], b.withdrawals[i]);
    }
    assert(a.withdrawals =~= b.withdrawals);
}

/// Bases with the same item are the same, and the item of a missing one stands for no base.
pub proof fn lemma_same_base(a: Option<BaseView>, b: Option<BaseView>)
    requires
        codec::base_item(a) == codec::base_item(b),
    ensures
        a == b,
{
    if a is Some && b is Some {
        let p = a->0;
        let q = b->0;
        let x = p.fields();
        let y = q.fields();
        assert(x[0] == y[0] && x[1] == y[1] && x[2] == y[2] && x[3] == y[3]);
        assert(x[4] == y[4] && x[5] == y[5] && x[6] == y[6] && x[7] == y[7] && x[8] == y[8]);
        lemma_same_number(p.block_number as nat, q.block_number as nat);
        lemma_same_number(p.gas_limit as nat, q.gas_limit as nat);
        lemma_same_number(p.timestamp as nat, q.timestamp as nat);
        lemma_same_number(p.base_fee_per_gas.value(), q.base_fee_per_gas.value());
        num::lemma_value_injective(p.base_fee_per_gas, q.base_fee_per_gas);
        assert(p.parent_beacon_block_root == q.parent_beacon_block_root);
        assert(p.parent_hash == q.parent_hash);
        assert(p.fee_recipient == q.fee_recipient);
        assert(p.prev_randao == q.prev_randao);
        assert(p == q);
    }
}

/// What is read back of a flashblock's list: the fields that were written, whatever stands behind
/// them in the list.
proof fn lemma_fields_read<M, N>(
    v: PayloadView<M>,
    json: Seq<u8>,
    more: Seq<u8>,
    rest: Seq<u8>,
    w: PayloadView<N>,
    text: Seq<u8>,
    extra: Seq<u8>,
    left: Seq<u8>,
)
    requires
        list_from(v.fields(json), more) + rest == list_from(w.fields(text), extra) + left,
        rlp::addressable(list_from(v.fields(json), more) + rest),
    ensures
        w.payload_id == v.payload_id,
        w.index == v.index,
        w.diff == v.diff,
        w.base == v.base,
        text == json,
        left == rest,
        extra == more,
{
    let x = v.fields(json);
    let y = w.fields(text);
    let s = list_from(x, more) + rest;
    assert(s.len() == list_from(x, more).len() + rest.len());
    assert(s.len() == list_from(y, extra).len() + left.len());
    rlp::lemma_framed_unique(
        true,
        rlp::enc_all(x) + more,
        rest,
        true,
        rlp::enc_all(y) + extra,
        left,
    );
    rlp::lemma_items_read(y, extra, x, more);
    assert(x.take(5) =~= x);
    assert(x == y);
    assert(x[0] == y[0] && x[1] == y[1] && x[2] == y[2] && x[3] == y[3] && x[4] == y[4]);
    assert(w.payload_id == v.payload_id);
    lemma_same_number(v.index as nat, w.index as nat);
    lemma_same_delta(v.diff, w.diff);
    lemma_same_base(v.base, w.base);
    assert(x.skip(5) =~= Seq::<Item>::empty());
    assert(extra =~= more);
}

/// Bytes that stand in a flashblock's list behind its last field are passed over: what is read is the
/// flashblock, and the bytes behind the list are left.
pub proof fn law_more_passed_over<M, F: Fn(&[u8]) -> Option<M>>(
    v: PayloadView<M>,
    json: Seq<u8>,
    more: Seq<u8>,
    after: Seq<u8>,
    parse: F,
    r: Result<FlashblocksPayloadV1<M>, DecodeError>,
    left: Seq<u8>,
)
    requires
        rlp::addressable(rlp::framed(true, rlp::enc_all(v.fields(json)) + more) + after),
        forall|m: Option<M>| #[trigger] parses_to(parse, json, m) ==> m == Some(v.metadata),
        decodes(rlp::framed(true, rlp::enc_all(v.fields(json)) + more) + after, parse, r, left),
    ensures
        r matches Ok(w) && w@ == v,
        left == after,
{
    let x = v.fields(json);
    let payload = rlp::enc_all(x) + more;
    let s = list_from(x, more) + after;
    assert(begins(s, x));
    lemma_not_string(s, payload, after);
    match r {
        Ok(w) => {
            let (text, extra) = choose|text: Seq<u8>, extra: Seq<u8>|
                s == #[trigger] list_from(w@.fields(text), extra) + left && parses_to(
                    parse,
                    text,
                    Some(w.metadata),
                );
            lemma_fields_read(v, json, more, after, w@, text, extra, left);
            assert(parses_to(parse, json, Some(w.metadata)));
            assert(w@ == v);
        },
        Err(DecodeError::BadJson) => {
            let (id, index, diff, text) = choose|id: B64, index: u64, diff: DeltaView, text: Seq<u8>|
                #[trigger] begins(s, head(id, index, diff, text)) && parses_to(parse, text, None::<M>);
            let h = head(id, index, diff, text);
            lemma_payload(s, payload, after, h);
            let extra = choose|extra: Seq<u8>| payload == #[trigger] (rlp::enc_all(h) + extra);
            assert(s.len() == rlp::framed(true, payload).len() + after.len());
            rlp::lemma_items_read(h, extra, x, more);
            assert(h[3] == x[3]);
            assert(parses_to(parse, json, None::<M>));
            assert(false);
        },
        _ => {},
    }
}

/// A flashblock's wire form is read back as that flashblock: reading it off the front of any bytes
/// succeeds, gives the flashblock that was written, and leaves the bytes behind it. `parse` has to
/// read the metadata back out of its text.
pub proof fn law_round_trip<M, F: Fn(&[u8]) -> Option<M>>(
    v: PayloadView<M>,
    json: Seq<u8>,
    after: Seq<u8>,
    parse: F,
    r: Result<FlashblocksPayloadV1<M>, DecodeError>,
    left: Seq<u8>,
)
    requires
        rlp::addressable(rlp::enc(v.item(json)) + after),
        forall|m: Option<M>| #[trigger] parses_to(parse, json, m) ==> m == Some(v.metadata),
        decodes(rlp::enc(v.item(json)) + after, parse, r, left),
    ensures
        r matches Ok(w) && w@ == v,
        left == after,
{
    let none = Seq::<u8>::empty();
    assert(rlp::enc_all(v.fields(json)) + none =~= rlp::enc_all(v.fields(json)));
    law_more_passed_over(v, json, none, after, parse, r, left);
}

/// Bytes that begin with a byte string are refused for that, and a flashblock whose metadata `parse` does
/// not take is refused for its metadata.
pub proof fn law_refusals<M, F: Fn(&[u8]) -> Option<M>>(
    v: PayloadView<M>,
    json: Seq<u8>,
    string: Seq<u8>,
    after: Seq<u8>,
    parse: F,
    r: Result<FlashblocksPayloadV1<M>, DecodeError>,
    left: Seq<u8>,
)
    requires
        rlp::addressable(rlp::enc(v.item(json)) + after),
        rlp::addressable(rlp::string(string) + after),
        forall|m: Option<M>| #[trigger] parses_to(parse, json, m) ==> m is None,
    ensures
        decodes(rlp::string(string) + after, parse, r, left) ==> r is Err && r->Err_0
            is UnexpectedString,
        decodes(rlp::enc(v.item(json)) + after, parse, r, left) ==> r is Err && r->Err_0 is BadJson,
{
    let s = rlp::string(string) + after;
    let none = Seq::<u8>::empty();
    assert(begins_with_string(s));
    if decodes(s, parse, r, left) {
        match r {
            Ok(w) => {
                let (text, extra) = choose|text: Seq<u8>, extra: Seq<u8>|
                    s == #[trigger] list_from(w@.fields(text), extra) + left && parses_to(
                        parse,
                        text,
                        Some(w.metadata),
                    );
                lemma_not_string(s, rlp::enc_all(w@.fields(text)) + extra, left);
            },
            Err(DecodeError::BadJson) => {
                let (id, index, diff, text) = choose|
                    id: B64,
                    index: u64,
                    diff: DeltaView,
                    text: Seq<u8>,
                |
                    #[trigger] begins(s, head(id, index, diff, text)) && parses_to(
                        parse,
                        text,
                        None::<M>,
                    );
                let h = head(id, index, diff, text);
                let (extra, rest) = choose|extra: Seq<u8>, rest: Seq<u8>|
                    s == #[trigger] (list_from(h, extra) + rest);
                lemma_not_string(s, rlp::enc_all(h) + extra, rest);
            },
            _ => {},
        }
    }
    let t = rlp::enc(v.item(json)) + after;
    assert(rlp::enc_all(v.fields(json)) + none =~= rlp::enc_all(v.fields(json)));
    assert(t == list_from(v.fields(json), none) + after);
    assert(begins(t, v.fields(json)));
    if decodes(t, parse, r, left) {
        lemma_not_string(t, rlp::enc_all(v.fields(json)), after);
        match r {
            Ok(w) => {
                let (text, extra) = choose|text: Seq<u8>, extra: Seq<u8>|
                    t == #[trigger] list_from(w@.fields(text), extra) + left && parses_to(
                        parse,
                        text,
                        Some(w.metadata),
                    );
                lemma_fields_read(v, json, none, after, w@, text, extra, left);
                assert(parses_to(parse, json, Some(w.metadata)));
            },
            _ => {},
        }
    }
}

/// A flashblock's wire form with bytes missing at its end is malformed.
pub proof fn law_truncated<M, F: Fn(&[u8]) -> Option<M>>(
    v: PayloadView<M>,
    json: Seq<u8>,
    n: int,
    parse: F,
    r: Result<FlashblocksPayloadV1<M>, DecodeError>,
    left: Seq<u8>,
)
    requires
        rlp::addressable(rlp::enc(v.item(json))),
        0 <= n < rlp::enc(v.item(json)).len(),
        decodes(rlp::enc(v.item(json)).take(n), parse, r, left),
    ensures
        r is Err && r->Err_0 is Rlp,
{
    let whole = rlp::enc(v.item(json));
    let s = whole.take(n);
    let none = Seq::<u8>::empty();
    assert forall|list: bool, p: Seq<u8>, rest: Seq<u8>| s != #[trigger] (rlp::framed(list, p)
        + rest) by {
        if s == rlp::framed(list, p) + rest {
            let more = rest + whole.skip(n);
            assert(whole =~= s + whole.skip(n));
            assert(whole =~= rlp::framed(list, p) + more);
            assert(whole =~= rlp::framed(true, rlp::enc_all(v.fields(json))) + none);
            assert(whole.len() == rlp::framed(list, p).len() + more.len());
            rlp::lemma_framed_unique(list, p, more, true, rlp::enc_all(v.fields(json)), none);
        }
    }
    assert forall|items: Seq<Item>| !#[trigger] begins(s, items) by {
        if begins(s, items) {
            let (extra, rest) = choose|extra: Seq<u8>, rest: Seq<u8>|
                s == #[trigger] (list_from(items, extra) + rest);
            assert(s == rlp::framed(true, rlp::enc_all(items) + extra) + rest);
        }
    }
    assert forall|p: Seq<u8>, rest: Seq<u8>| s != #[trigger] (rlp::string(p) + rest) by {
        assert(rlp::string(p) == rlp::framed(false, p));
    }
    if r is Ok {
        let w = r->Ok_0;
        let (text, extra) = choose|text: Seq<u8>, extra: Seq<u8>|
            s == #[trigger] list_from(w@.fields(text), extra) + left && parses_to(
                parse,
                text,
                Some(w.metadata),
            );
        assert(begins(s, w@.fields(text)));
    }
}

}

//! Recursive length prefix (RLP) items.
//!
//! The model is a tree of byte strings and lists. Reading and writing single items goes through
//! `alloy_rlp`; what is composed out of those items is proved on top of the contracts below.
use crate::num::U256;
use vstd::prelude::*;

verus! {

/// An RLP item: a byte string or a list of items.
pub enum Item {
    Str(Seq<u8>),
    List(Seq<Item>),
}

/// The shortest big-endian form of a number. Zero has no bytes.
pub open spec fn be(n: nat) -> Seq<u8>
    decreases n,
{
    if n == 0 {
        Seq::empty()
    } else {
        be(n / 256).push((n % 256) as u8)
    }
}

/// The header of a payload of `n` bytes.
pub open spec fn header(list: bool, n: nat) -> Seq<u8> {
    let short: nat = if list { 0xc0 } else { 0x80 };
    let long: nat = if list { 0xf7 } else { 0xb7 };
    if n < 56 {
        seq![(short + n) as u8]
    } else {
        seq![(long + be(n).len()) as u8] + be(n)
    }
}

/// A byte string with its header. A single byte below 0x80 stands for itself.
pub open spec fn string(p: Seq<u8>) -> Seq<u8> {
    if p.len() == 1 && p[0] < 0x80 {
        p
    } else {
        header(false, p.len()) + p
    }
}

/// A payload under the header of its kind.
pub open spec fn framed(list: bool, p: Seq<u8>) -> Seq<u8> {
    if list {
        header(true, p.len()) + p
    } else {
        string(p)
    }
}

/// The bytes of an item.
pub open spec fn enc(item: Item) -> Seq<u8>
    decreases item,
{
    match item {
        Item::Str(p) => string(p),
        Item::List(items) => framed(true, enc_all(items)),
    }
}

/// The bytes of a sequence of items, one after the other.
pub open spec fn enc_all(items: Seq<Item>) -> Seq<u8>
    decreases items,
{
    if items.len() == 0 {
        Seq::empty()
    } else {
        enc(items[0]) + enc_all(items.drop_first())
    }
}

/// Whether `tail` is what is left of `whole` once some bytes have been read off its front.
pub open spec fn is_tail(tail: Seq<u8>, whole: Seq<u8>) -> bool {
    tail.len() <= whole.len() && tail == whole.skip(whole.len() - tail.len())
}

/// The item of a number.
pub open spec fn number(n: nat) -> Item {
    Item::Str(be(n))
}

/// The error of `alloy_rlp`, carried through as it is.
#[verifier::external_type_specification]
#[verifier::external_body]
pub struct ExAlloyRlpError(alloy_rlp::Error);

/// Why bytes are not the RLP form of a value.
pub enum RlpError {
    /// An item could not be read.
    Item(alloy_rlp::Error),
    /// A list was due, and a byte string was found.
    UnexpectedString,
    /// The fields of a list take another number of bytes than its header says.
    ListLengthMismatch { expected: usize, got: usize },
}

/// Writes an item's header.
///
/// Calls `alloy_rlp::Header::encode`: the contract claims that it appends the header of a payload
/// of that length, in the short form below 56 bytes and in the long form from there.
#[verifier::external_body]
pub(crate) fn put_header(list: bool, payload_length: usize, out: &mut Vec<u8>)
    ensures
        final(out)@ == old(out)@ + header(list, payload_length as nat),
{
    alloy_rlp::Header { list, payload_length }.encode(out)
}

/// Length of an item's header.
///
/// Calls `alloy_rlp::Header::length`: the contract claims that it is the number of bytes that
/// `Header::encode` writes.
#[verifier::external_body]
pub(crate) fn header_length(list: bool, payload_length: usize) -> (r: usize)
    ensures
        r == header(list, payload_length as nat).len(),
{
    alloy_rlp::Header { list, payload_length }.length()
}

/// Writes a byte string.
///
/// Calls `alloy_rlp::Encodable::encode` of `[u8]`: the contract claims that it appends the string
/// with its header, and a single byte below 0x80 without one.
#[verifier::external_body]
pub(crate) fn put_bytes(bytes: &[u8], out: &mut Vec<u8>)
    ensures
        final(out)@ == old(out)@ + string(bytes@),
{
    alloy_rlp::Encodable::encode(bytes, out)
}

/// Length of a byte string with its header.
///
/// Calls `alloy_rlp::Encodable::length` of `[u8]`: the contract claims that it is the number of
/// bytes that `encode` writes.
#[verifier::external_body]
pub(crate) fn bytes_length(bytes: &[u8]) -> (r: usize)
    ensures
        r == string(bytes@).len(),
{
    alloy_rlp::Encodable::length(bytes)
}

/// Writes a 64-bit number.
///
/// Calls `alloy_rlp::Encodable::encode` of `u64`: the contract claims that it appends the string
/// of the number's shortest big-endian form.
#[verifier::external_body]
pub(crate) fn put_u64(n: u64, out: &mut Vec<u8>)
    ensures
        final(out)@ == old(out)@ + enc(number(n as nat)),
{
    alloy_rlp::Encodable::encode(&n, out)
}

/// Length of a 64-bit number with its header.
///
/// Calls `alloy_rlp::Encodable::length` of `u64`: the contract claims that it is the number of
/// bytes that `encode` writes.
#[verifier::external_body]
pub(crate) fn u64_length(n: u64) -> (r: usize)
    ensures
        r == enc(number(n as nat)).len(),
{
    alloy_rlp::Encodable::length(&n)
}

/// Writes a 256-bit word.
///
/// Calls `alloy_rlp::Encodable::encode` of `alloy_primitives::U256`: the contract claims that it
/// appends the string of the word's shortest big-endian form.
#[verifier::external_body]
pub(crate) fn put_u256(n: U256, out: &mut Vec<u8>)
    ensures
        final(out)@ == old(out)@ + enc(number(n.value())),
{
    alloy_rlp::Encodable::encode(&alloy_primitives::U256::from_limbs(n.limbs), out)
}

/// Length of a 256-bit word with its header.
///
/// Calls `alloy_rlp::Encodable::length` of `alloy_primitives::U256`: the contract claims that it
/// is the number of bytes that `encode` writes.
#[verifier::external_body]
pub(crate) fn u256_length(n: U256) -> (r: usize)
    ensures
        r == enc(number(n.value())).len(),
{
    alloy_rlp::Encodable::length(&alloy_primitives::U256::from_limbs(n.limbs))
}

/// Reads an item's header off the front of `buf`.
///
/// Calls `alloy_rlp::Header::decode`: the contract claims that it succeeds exactly where `buf`
/// begins with an item in its one canonical form, all of whose payload is there, and then gives the
/// item's kind and payload length and leaves `buf` at the payload.
#[verifier::external_body]
pub(crate) fn take_header(buf: &mut &[u8]) -> (r: Result<(bool, usize), alloy_rlp::Error>)
    ensures
        is_tail(final(buf)@, old(buf)@),
        match r {
            Ok((list, n)) => n <= final(buf)@.len() && old(buf)@ == framed(
                list,
                final(buf)@.take(n as int),
            ) + final(buf)@.skip(n as int),
            Err(_) => forall|list: bool, p: Seq<u8>, rest: Seq<u8>|
                old(buf)@ != #[trigger] (framed(list, p) + rest),
        },
{
    alloy_rlp::Header::decode(buf).map(|header| (header.list, header.payload_length))
}

/// Reads a whole item of the given kind off the front of `buf`, and gives its payload.
///
/// Calls `alloy_rlp::Header::decode_bytes`: the contract claims that it succeeds exactly where
/// `buf` begins with an item of that kind in its one canonical form, and leaves `buf` behind it.
#[verifier::external_body]
pub(crate) fn take_payload<'a>(buf: &mut &'a [u8], list: bool) -> (r: Result<
    &'a [u8],
    alloy_rlp::Error,
>)
    ensures
        is_tail(final(buf)@, old(buf)@),
        match r {
            Ok(p) => old(buf)@ == framed(list, p@) + final(buf)@,
            Err(_) => forall|p: Seq<u8>, rest: Seq<u8>|
                old(buf)@ != #[trigger] (framed(list, p) + rest),
        },
{
    alloy_rlp::Header::decode_bytes(buf, list)
}

/// Reads a byte string of a fixed length off the front of `buf`.
///
/// Calls `alloy_rlp::Decodable::decode` of `[u8; N]`: the contract claims that it succeeds exactly
/// where `buf` begins with a canonical byte string of `N` bytes, and leaves `buf` behind it.
#[verifier::external_body]
pub(crate) fn take_array<const N: usize>(buf: &mut &[u8]) -> (r: Result<[u8; N], alloy_rlp::Error>)
    ensures
        is_tail(final(buf)@, old(buf)@),
        match r {
            Ok(a) => old(buf)@ == string(a@) + final(buf)@,
            Err(_) => forall|p: Seq<u8>, rest: Seq<u8>|
                p.len() == N ==> old(buf)@ != #[trigger] (string(p) + rest),
        },
{
    alloy_rlp::Decodable::decode(buf)
}

/// Reads a 64-bit number off the front of `buf`.
///
/// Calls `alloy_rlp::Decodable::decode` of `u64`: the contract claims that it succeeds exactly
/// where `buf` begins with the string of the shortest big-endian form of such a number, and leaves
/// `buf` behind it.
#[verifier::external_body]
pub(crate) fn take_u64(buf: &mut &[u8]) -> (r: Result<u64, alloy_rlp::Error>)
    ensures
        is_tail(final(buf)@, old(buf)@),
        match r {
            Ok(n) => old(buf)@ == enc(number(n as nat)) + final(buf)@,
            Err(_) => forall|n: u64, rest: Seq<u8>|
                old(buf)@ != #[trigger] (enc(number(n as nat)) + rest),
        },
{
    alloy_rlp::Decodable::decode(buf)
}

/// Reads an 8-bit number off the front of `buf`.
///
/// Calls `alloy_rlp::Decodable::decode` of `u8`: the contract claims of it what it claims of
/// [`take_u64`], for numbers of 8 bits.
#[verifier::external_body]
pub(crate) fn take_u8(buf: &mut &[u8]) -> (r: Result<u8, alloy_rlp::Error>)
    ensures
        is_tail(final(buf)@, old(buf)@),
        match r {
            Ok(n) => old(buf)@ == enc(number(n as nat)) + final(buf)@,
            Err(_) => forall|n: u8, rest: Seq<u8>|
                old(buf)@ != #[trigger] (enc(number(n as nat)) + rest),
        },
{
    alloy_rlp::Decodable::decode(buf)
}

/// Reads a 256-bit word off the front of `buf`.
///
/// Calls `alloy_rlp::Decodable::decode` of `alloy_primitives::U256`: the contract claims of it
/// what it claims of [`take_u64`], for numbers of 256 bits.
#[verifier::external_body]
pub(crate) fn take_u256(buf: &mut &[u8]) -> (r: Result<U256, alloy_rlp::Error>)
    ensures
        is_tail(final(buf)@, old(buf)@),
        match r {
            Ok(n) => old(buf)@ == enc(number(n.value())) + final(buf)@,
            Err(_) => forall|n: U256, rest: Seq<u8>|
                old(buf)@ != #[trigger] (enc(number(n.value())) + rest),
        },
{
    let word: Result<alloy_primitives::U256, alloy_rlp::Error> = alloy_rlp::Decodable::decode(buf);
    word.map(|n| U256 { limbs: n.into_limbs() })
}

/// The number that big-endian bytes stand for.
pub open spec fn from_be(bytes: Seq<u8>) -> nat
    decreases bytes.len(),
{
    if bytes.len() == 0 {
        0
    } else {
        from_be(bytes.drop_last()) * 256 + bytes.last() as nat
    }
}

proof fn lemma_from_be(n: nat)
    ensures
        from_be(be(n)) == n,
    decreases n,
{
    if n != 0 {
        lemma_from_be(n / 256);
        assert(be(n).drop_last() =~= be(n / 256));
    }
}

/// Different numbers have different big-endian forms.
pub proof fn lemma_be_injective(m: nat, n: nat)
    requires
        be(m) == be(n),
    ensures
        m == n,
{
    lemma_from_be(m);
    lemma_from_be(n);
}

/// A number below 256 to the power of `k` takes at most `k` bytes.
proof fn lemma_be_length(n: nat, k: nat)
    requires
        n < vstd::arithmetic::power::pow(256, k),
    ensures
        be(n).len() <= k,
        n > 0 ==> be(n).len() > 0,
    decreases k,
{
    if n != 0 {
        if k == 0 {
            vstd::arithmetic::power::lemma_pow0(256);
        } else {
            vstd::arithmetic::power::lemma_pow_adds(256, (k - 1) as nat, 1);
            vstd::arithmetic::power::lemma_pow1(256);
            let half = vstd::arithmetic::power::pow(256, (k - 1) as nat);
            assert(n / 256 < half) by (nonlinear_arith)
                requires
                    n < half * 256,
            ;
            lemma_be_length(n / 256, (k - 1) as nat);
        }
    }
}

proof fn lemma_length_bytes(n: nat)
    requires
        n < 0x1_0000_0000_0000_0000,
    ensures
        be(n).len() <= 8,
        n > 0 ==> be(n).len() > 0,
{
    assert(vstd::arithmetic::power::pow(256, 8) == 0x1_0000_0000_0000_0000) by {
        reveal_with_fuel(vstd::arithmetic::power::pow, 9);
    }
    lemma_be_length(n, 8);
}

/// No framed payload is the beginning of another one: kind, payload and rest of a sequence of bytes
/// that begins with one are determined.
pub proof fn lemma_framed_unique(l1: bool, p1: Seq<u8>, t1: Seq<u8>, l2: bool, p2: Seq<u8>, t2: Seq<u8>)
    requires
        framed(l1, p1) + t1 == framed(l2, p2) + t2,
        p1.len() < 0x1_0000_0000_0000_0000,
        p2.len() < 0x1_0000_0000_0000_0000,
    ensures
        l1 == l2,
        p1 == p2,
        t1 == t2,
{
    let s = framed(l1, p1) + t1;
    lemma_length_bytes(p1.len());
    lemma_length_bytes(p2.len());
    lemma_framed_parts(l1, p1, t1);
    lemma_framed_parts(l2, p2, t2);
    let h1 = head_length(l1, p1);
    let h2 = head_length(l2, p2);
    assert(s[0] == s[0]);
    assert(l1 == l2);
    assert(h1 == h2);
    if h1 > 1 {
        assert(be(p1.len()) =~= s.subrange(1, h1 as int));
        assert(be(p2.len()) =~= s.subrange(1, h1 as int));
        lemma_be_injective(p1.len(), p2.len());
    }
    assert(p1.len() == p2.len());
    assert(p1 =~= p2);
    assert(t1 =~= t2);
}

/// Length of the header that goes before a payload.
spec fn head_length(list: bool, p: Seq<u8>) -> nat {
    if !list && p.len() == 1 && p[0] < 0x80 {
        0
    } else {
        header(list, p.len()).len()
    }
}

proof fn lemma_framed_parts(list: bool, p: Seq<u8>, t: Seq<u8>)
    requires
        be(p.len()).len() <= 8,
        p.len() > 0 ==> be(p.len()).len() > 0,
    ensures
        ({
            let s = framed(list, p) + t;
            let h = head_length(list, p);
            &&& s.len() == h + p.len() + t.len()
            &&& s.subrange(h as int, (h + p.len()) as int) == p
            &&& s.skip((h + p.len()) as int) == t
            &&& h == 0 ==> !list && p.len() == 1 && s[0] < 0x80
            &&& h == 1 ==> p.len() < 56 && s[0] == (if list { 0xc0int } else { 0x80int }) + p.len()
            &&& h > 1 ==> p.len() >= 56 && h == 1 + be(p.len()).len() && s[0] == (if list {
                0xf7int
            } else {
                0xb7int
            }) + be(p.len()).len() && s.subrange(1, h as int) == be(p.len())
        }),
{
    let s = framed(list, p) + t;
    let h = head_length(list, p);
    assert(s.subrange(h as int, (h + p.len()) as int) =~= p);
    assert(s.skip((h + p.len()) as int) =~= t);
    if h > 1 {
        assert(s.subrange(1, h as int) =~= be(p.len()));
    }
}

/// Largest number of bytes that these lemmas speak of, which is what memory can hold.
pub open spec fn addressable(s: Seq<u8>) -> bool {
    s.len() < 0x1_0000_0000_0000_0000
}

/// Every item takes at least one byte.
pub proof fn lemma_enc_not_empty(item: Item)
    ensures
        enc(item).len() > 0,
{
}

/// No item is the beginning of another one: a sequence of bytes begins with at most one item.
pub proof fn lemma_enc_unique(a: Item, ta: Seq<u8>, b: Item, tb: Seq<u8>)
    requires
        enc(a) + ta == enc(b) + tb,
        addressable(enc(a) + ta),
    ensures
        a == b,
        ta == tb,
    decreases a,
{
    let pa = match a {
        Item::Str(p) => p,
        Item::List(items) => enc_all(items),
    };
    let pb = match b {
        Item::Str(p) => p,
        Item::List(items) => enc_all(items),
    };
    assert(enc(a) == framed(a is List, pa));
    assert(enc(b) == framed(b is List, pb));
    assert(enc(a).len() + ta.len() == (enc(a) + ta).len());
    assert(enc(b).len() + tb.len() == (enc(b) + tb).len());
    lemma_framed_unique(a is List, pa, ta, b is List, pb, tb);
    if a is List {
        lemma_enc_all_unique(a->List_0, b->List_0);
    }
}

/// Different sequences of items have different bytes.
pub proof fn lemma_enc_all_unique(x: Seq<Item>, y: Seq<Item>)
    requires
        enc_all(x) == enc_all(y),
        addressable(enc_all(x)),
    ensures
        x == y,
    decreases x,
{
    if x.len() == 0 {
        if y.len() > 0 {
            lemma_enc_not_empty(y[0]);
        }
        assert(x =~= y);
    } else {
        lemma_enc_not_empty(x[0]);
        assert(y.len() > 0);
        lemma_enc_unique(x[0], enc_all(x.drop_first()), y[0], enc_all(y.drop_first()));
        lemma_enc_all_unique(x.drop_first(), y.drop_first());
        assert(x =~= seq![x[0]] + x.drop_first());
        assert(y =~= seq![y[0]] + y.drop_first());
    }
}

/// The bytes of a sequence of items, split behind its first items.
pub proof fn lemma_enc_all_append(x: Seq<Item>, y: Seq<Item>)
    ensures
        enc_all(x + y) == enc_all(x) + enc_all(y),
    decreases x.len(),
{
    if x.len() == 0 {
        assert(x + y =~= y);
    } else {
        assert((x + y).drop_first() =~= x.drop_first() + y);
        lemma_enc_all_append(x.drop_first(), y);
        assert(enc_all(x + y) =~= enc_all(x) + enc_all(y));
    }
}

/// The bytes of a sequence of items with one more item behind it.
pub proof fn lemma_enc_all_push(x: Seq<Item>, item: Item)
    ensures
        enc_all(x.push(item)) == enc_all(x) + enc(item),
{
    lemma_enc_all_append(x, seq![item]);
    assert(x + seq![item] =~= x.push(item));
    assert(seq![item].drop_first() =~= Seq::<Item>::empty());
    assert(enc_all(Seq::<Item>::empty()) == Seq::<u8>::empty());
    assert(enc_all(seq![item]) =~= enc(item));
}

/// Items that were read off the front of bytes that begin with `items` are the first of these, and
/// what is left begins with the others.
pub proof fn lemma_items_read(done: Seq<Item>, left: Seq<u8>, items: Seq<Item>, rest: Seq<u8>)
    requires
        enc_all(done) + left == enc_all(items) + rest,
        addressable(enc_all(done) + left),
        done.len() <= items.len(),
    ensures
        done == items.take(done.len() as int),
        left == enc_all(items.skip(done.len() as int)) + rest,
    decreases done.len(),
{
    if done.len() == 0 {
        assert(done =~= items.take(0));
        assert(items.skip(0) =~= items);
        assert(enc_all(done) + left =~= left);
    } else {
        let d = done.drop_first();
        let i = items.drop_first();
        assert(enc_all(done) + left =~= enc(done[0]) + (enc_all(d) + left));
        assert(enc_all(items) + rest =~= enc(items[0]) + (enc_all(i) + rest));
        lemma_enc_unique(done[0], enc_all(d) + left, items[0], enc_all(i) + rest);
        lemma_items_read(d, left, i, rest);
        assert(done =~= seq![done[0]] + d);
        assert(items.take(done.len() as int) =~= seq![items[0]] + i.take(d.len() as int));
        assert(items.skip(done.len() as int) =~= i.skip(d.len() as int));
    }
}

/// Where bytes begin with a list, and some of its items have been read, what is left begins with
/// the next item.
pub proof fn lemma_next_item(
    body: Seq<u8>,
    done: Seq<Item>,
    left: Seq<u8>,
    items: Seq<Item>,
    rest: Seq<u8>,
)
    requires
        body == enc_all(done) + left,
        body == enc_all(items) + rest,
        addressable(body),
        done.len() < items.len(),
    ensures
        done == items.take(done.len() as int),
        left == enc(items[done.len() as int]) + (enc_all(items.skip(done.len() as int + 1)) + rest),
{
    lemma_items_read(done, left, items, rest);
    let k = done.len() as int;
    assert(items.skip(k)[0] == items[k]);
    assert(items.skip(k).drop_first() =~= items.skip(k + 1));
    assert(left =~= enc(items[k]) + (enc_all(items.skip(k + 1)) + rest));
}

/// What is left of a tail is left of the whole.
pub proof fn lemma_tail_of_tail(c: Seq<u8>, b: Seq<u8>, a: Seq<u8>)
    requires
        is_tail(c, b),
        is_tail(b, a),
    ensures
        is_tail(c, a),
{
    assert(c =~= a.skip(a.len() - c.len()));
}

}

//! Transactions, as far as the library looks into them.
use crate::flashblocks::primitives::{Address, B256, Bytes};
use alloy_consensus::Transaction as _;
use alloy_consensus::transaction::SignerRecoverable as _;
use alloy_eips::Typed2718 as _;
use alloy_eips::eip2718::{Decodable2718 as _, Encodable2718 as _};
use op_alloy_consensus::OpTxEnvelope;
use vstd::prelude::*;

verus! {

/// The type of a transaction.
#[derive(Clone, Copy, Debug, PartialEq, Eq, Structural)]
pub enum OpTxType {
    Legacy,
    Eip2930,
    Eip1559,
    Eip7702,
    Deposit,
}

/// The transaction type that a type byte stands for.
pub open spec fn type_of(ty: u8) -> Option<OpTxType> {
    if ty == 0 {
        Some(OpTxType::Legacy)
    } else if ty == 1 {
        Some(OpTxType::Eip2930)
    } else if ty == 2 {
        Some(OpTxType::Eip1559)
    } else if ty == 4 {
        Some(OpTxType::Eip7702)
    } else if ty == 0x7e {
        Some(OpTxType::Deposit)
    } else {
        None
    }
}

/// The error of `alloy_eips` for bytes that are no transaction, carried through as it is.
#[verifier::external_type_specification]
#[verifier::external_body]
pub struct ExEip2718Error(alloy_eips::eip2718::Eip2718Error);

/// Why bytes are not a transaction.
pub enum TransactionError {
    /// They cannot be decoded.
    Decode(alloy_eips::eip2718::Eip2718Error),
    /// Their type byte stands for no transaction type.
    UnknownType(u8),
    /// There are bytes behind the transaction.
    TrailingBytes(usize),
}

/// A decoded transaction with its type byte.
#[derive(Debug, PartialEq, Eq)]
pub struct RawTransaction {
    pub ty: u8,
    pub hash: B256,
    pub encoded: Bytes,
    pub max_fee_per_gas: u128,
    pub max_priority_fee_per_gas: Option<u128>,
}

/// What a decoded transaction holds.
#[verifier::ext_equal]
pub struct RawTransactionView {
    pub ty: u8,
    pub hash: B256,
    pub encoded: Seq<u8>,
    pub max_fee_per_gas: u128,
    pub max_priority_fee_per_gas: Option<u128>,
}

impl View for RawTransaction {
    type V = RawTransactionView;

    open spec fn view(&self) -> RawTransactionView {
        RawTransactionView {
            ty: self.ty,
            hash: self.hash,
            encoded: self.encoded@,
            max_fee_per_gas: self.max_fee_per_gas,
            max_priority_fee_per_gas: self.max_priority_fee_per_gas,
        }
    }
}

/// A transaction.
#[derive(Debug, PartialEq, Eq)]
pub struct Transaction {
    /// Type of the transaction.
    pub tx_type: OpTxType,
    /// Hash of the transaction.
    pub hash: B256,
    /// The transaction's bytes, led by its type byte.
    pub encoded: Bytes,
    /// The most that the transaction pays per gas.
    pub max_fee_per_gas: u128,
    /// The most that the transaction pays the proposer per gas, where it sets a limit of its own.
    pub max_priority_fee_per_gas: Option<u128>,
}

/// What a transaction holds.
#[verifier::ext_equal]
pub struct TxView {
    pub tx_type: OpTxType,
    pub hash: B256,
    pub encoded: Seq<u8>,
    pub max_fee_per_gas: u128,
    pub max_priority_fee_per_gas: Option<u128>,
}

impl View for Transaction {
    type V = TxView;

    open spec fn view(&self) -> TxView {
        TxView {
            tx_type: self.tx_type,
            hash: self.hash,
            encoded: self.encoded@,
            max_fee_per_gas: self.max_fee_per_gas,
            max_priority_fee_per_gas: self.max_priority_fee_per_gas,
        }
    }
}

impl Clone for Transaction {
    fn clone(&self) -> (r: Self)
        ensures
            r@ == self@,
    {
        let encoded = self.encoded.clone();
        assert(encoded@ =~= self.encoded@);
        Transaction {
            tx_type: self.tx_type,
            hash: self.hash,
            encoded,
            max_fee_per_gas: self.max_fee_per_gas,
            max_priority_fee_per_gas: self.max_priority_fee_per_gas,
        }
    }
}

/// What `OpTxEnvelope::decode_2718` reads off the front of bytes, and how many bytes it leaves.
pub uninterp spec fn decoded_2718(bytes: Seq<u8>) -> Option<(RawTransactionView, nat)>;

/// What `OpTxEnvelope::recover_signer` gives for the transaction that the bytes stand for.
pub uninterp spec fn recovered_signer(encoded: Seq<u8>) -> Option<Address>;

/// Reads a transaction off the front of `bytes`, and gives the number of bytes behind it.
///
/// Calls `OpTxEnvelope::decode_2718` of `op_alloy_consensus`: the contract claims that what it
/// gives, and whether it succeeds, depends on the bytes alone, and that it leaves no more bytes than
/// there were.
#[verifier::external_body]
fn raw_decode_2718(bytes: &[u8]) -> (r: Result<
    (RawTransaction, usize),
    alloy_eips::eip2718::Eip2718Error,
>)
    ensures
        match r {
            Ok((tx, left)) => decoded_2718(bytes@) == Some((tx@, left as nat)) && left <= bytes@.len(),
            Err(_) => decoded_2718(bytes@) is None,
        },
{
    let mut rest = bytes;
    let tx = OpTxEnvelope::decode_2718(&mut rest)?;
    let raw = RawTransaction {
        ty: tx.ty(),
        hash: tx.tx_hash().0,
        encoded: tx.encoded_2718(),
        max_fee_per_gas: tx.max_fee_per_gas(),
        max_priority_fee_per_gas: tx.max_priority_fee_per_gas(),
    };
    Ok((raw, rest.len()))
}

/// Recovers the signer of the transaction that `encoded` stands for.
///
/// Calls `OpTxEnvelope::recover_signer` of `op_alloy_consensus`: the contract claims that what it
/// gives, and whether it succeeds, depends on the transaction's bytes alone.
#[verifier::external_body]
fn raw_recover_signer(encoded: &[u8]) -> (r: Option<Address>)
    ensures
        r == recovered_signer(encoded@),
{
    let tx = OpTxEnvelope::decode_2718(&mut &encoded[..]).ok()?;
    tx.recover_signer().ok().map(|signer| signer.into_array())
}

/// The transaction that a decoded one with a known type byte stands for.
pub open spec fn transaction_of(raw: RawTransactionView) -> TxView {
    TxView {
        tx_type: type_of(raw.ty)->0,
        hash: raw.hash,
        encoded: raw.encoded,
        max_fee_per_gas: raw.max_fee_per_gas,
        max_priority_fee_per_gas: raw.max_priority_fee_per_gas,
    }
}

/// The transaction that bytes begin with, and the number of bytes behind it.
pub open spec fn leading_transaction(bytes: Seq<u8>) -> Option<(TxView, nat)> {
    match decoded_2718(bytes) {
        Some((raw, left)) => if type_of(raw.ty) is Some {
            Some((transaction_of(raw), left))
        } else {
            None
        },
        None => None,
    }
}

/// The transaction that bytes are the form of, with nothing behind it.
pub open spec fn exact_transaction(bytes: Seq<u8>) -> Option<TxView> {
    match leading_transaction(bytes) {
        Some((tx, left)) => if left == 0 {
            Some(tx)
        } else {
            None
        },
        None => None,
    }
}

impl TxView {
    /// Whether the transaction is a deposit.
    pub open spec fn is_deposit(self) -> bool {
        self.tx_type == OpTxType::Deposit
    }

    /// What the proposer gets per gas where the base fee is `base_fee`: what the transaction pays
    /// beyond the base fee, up to the limit that it sets.
    pub open spec fn effective_tip_per_gas(self, base_fee: u64) -> Option<u128> {
        if self.max_fee_per_gas < base_fee {
            None
        } else {
            let fee = (self.max_fee_per_gas - base_fee) as u128;
            match self.max_priority_fee_per_gas {
                Some(limit) => if limit < fee {
                    Some(limit)
                } else {
                    Some(fee)
                },
                None => Some(fee),
            }
        }
    }
}

impl Transaction {
    /// The transaction that a decoded one stands for, where its type byte is known.
    pub fn from_raw(raw: RawTransaction) -> (r: Result<Transaction, TransactionError>)
        ensures
            match r {
                Ok(tx) => type_of(raw.ty) is Some && tx@ == transaction_of(raw@),
                Err(e) => type_of(raw.ty) is None && e == TransactionError::UnknownType(raw.ty),
            },
            r matches Ok(tx) ==> {
                &&& tx.hash == raw.hash
                &&& tx.encoded == raw.encoded
                &&& tx.max_fee_per_gas == raw.max_fee_per_gas
                &&& tx.max_priority_fee_per_gas == raw.max_priority_fee_per_gas
                &&& tx.tx_type == OpTxType::Legacy <==> raw.ty == 0
                &&& tx.tx_type == OpTxType::Eip2930 <==> raw.ty == 1
                &&& tx.tx_type == OpTxType::Eip1559 <==> raw.ty == 2
                &&& tx.tx_type == OpTxType::Eip7702 <==> raw.ty == 4
                &&& tx.tx_type == OpTxType::Deposit <==> raw.ty == 0x7e
            },
            r is Err <==> raw.ty != 0 && raw.ty != 1 && raw.ty != 2 && raw.ty != 4 && raw.ty != 0x7e,
    {
        let tx_type = match raw.ty {
            0 => OpTxType::Legacy,
            1 => OpTxType::Eip2930,
            2 => OpTxType::Eip1559,
            4 => OpTxType::Eip7702,
            0x7e => OpTxType::Deposit,
            ty => {
                return Err(TransactionError::UnknownType(ty));
            },
        };
        Ok(
            Transaction {
                tx_type,
                hash: raw.hash,
                encoded: raw.encoded,
                max_fee_per_gas: raw.max_fee_per_gas,
                max_priority_fee_per_gas: raw.max_priority_fee_per_gas,
            },
        )
    }

    /// Reads a transaction off the front of `bytes`, and gives the number of bytes behind it.
    pub fn decode_2718(bytes: &[u8]) -> (r: Result<(Transaction, usize), TransactionError>)
        ensures
            match r {
                Ok((tx, left)) => leading_transaction(bytes@) == Some((tx@, left as nat)),
                Err(TransactionError::Decode(_)) => decoded_2718(bytes@) is None,
                Err(TransactionError::UnknownType(ty)) => decoded_2718(bytes@) matches Some((raw, _))
                    && raw.ty == ty && type_of(ty) is None,
                Err(TransactionError::TrailingBytes(_)) => false,
            },
    {
        match raw_decode_2718(bytes) {
            Ok((raw, left)) => match Transaction::from_raw(raw) {
                Ok(tx) => Ok((tx, left)),
                Err(e) => Err(e),
            },
            Err(e) => Err(TransactionError::Decode(e)),
        }
    }

    /// The transaction that `bytes` are the form of, with nothing behind it.
    pub fn decode_2718_exact(bytes: &[u8]) -> (r: Result<Transaction, TransactionError>)
        ensures
            match r {
                Ok(tx) => exact_transaction(bytes@) == Some(tx@),
                Err(TransactionError::Decode(_)) => decoded_2718(bytes@) is None,
                Err(TransactionError::UnknownType(ty)) => decoded_2718(bytes@) matches Some((raw, _))
                    && raw.ty == ty && type_of(ty) is None,
                Err(TransactionError::TrailingBytes(left)) => left > 0 && (leading_transaction(
                    bytes@,
                ) matches Some((_, n)) && n == left),
            },
    {
        match Transaction::decode_2718(bytes) {
            Ok((tx, left)) => if left == 0 {
                Ok(tx)
            } else {
                Err(TransactionError::TrailingBytes(left))
            },
            Err(e) => Err(e),
        }
    }

    /// Whether the transaction is a deposit.
    pub fn is_deposit(&self) -> (r: bool)
        ensures
            r == self@.is_deposit(),
            r <==> self.tx_type == OpTxType::Deposit,
    {
        self.tx_type == OpTxType::Deposit
    }

    /// What the proposer gets per gas where the base fee is `base_fee`, if the transaction can pay
    /// that.
    pub fn effective_tip_per_gas(&self, base_fee: u64) -> (r: Option<u128>)
        ensures
            r == self@.effective_tip_per_gas(base_fee),
            r is None <==> self.max_fee_per_gas < base_fee,
            r matches Some(tip) ==> {
                &&& tip <= self.max_fee_per_gas - base_fee
                &&& self.max_priority_fee_per_gas is None ==> tip == self.max_fee_per_gas - base_fee
                &&& self.max_priority_fee_per_gas matches Some(most) ==> tip <= most && (tip == most
                    || tip == self.max_fee_per_gas - base_fee)
            },
    {
        if self.max_fee_per_gas < base_fee as u128 {
            return None;
        }
        let fee = self.max_fee_per_gas - base_fee as u128;
        match self.max_priority_fee_per_gas {
            Some(limit) => if limit < fee {
                Some(limit)
            } else {
                Some(fee)
            },
            None => Some(fee),
        }
    }

    /// The transaction with its signer, if that can be recovered.
    pub fn try_into_recovered(self) -> (r: Option<Recovered>)
        ensures
            match r {
                Some(tx) => recovered_signer(self@.encoded) == Some(tx.signer) && tx.tx == self,
                None => recovered_signer(self@.encoded) is None,
            },
    {
        match raw_recover_signer(self.encoded.as_slice()) {
            Some(signer) => Some(Recovered { tx: self, signer }),
            None => None,
        }
    }
}

/// A transaction with its signer.
#[derive(Debug, PartialEq, Eq)]
pub struct Recovered {
    pub tx: Transaction,
    pub signer: Address,
}

/// What a transaction with its signer holds.
#[verifier::ext_equal]
pub struct RecoveredView {
    pub tx: TxView,
    pub signer: Address,
}

impl View for Recovered {
    type V = RecoveredView;

    open spec fn view(&self) -> RecoveredView {
        RecoveredView { tx: self.tx@, signer: self.signer }
    }
}

impl Clone for Recovered {
    fn clone(&self) -> (r: Self)
        ensures
            r@ == self@,
    {
        Recovered { tx: self.tx.clone(), signer: self.signer }
    }
}

/// A transaction that is read is the one that was decoded, where its type is known: its hash, its bytes
/// and its fees are those, and its type goes by the type byte. Nothing stands behind it where it is
/// exact.
pub proof fn law_read_transaction(bytes: Seq<u8>)
    ensures
        leading_transaction(bytes) is Some <==> {
            &&& decoded_2718(bytes) matches Some((raw, _))
            &&& raw.ty == 0 || raw.ty == 1 || raw.ty == 2 || raw.ty == 4 || raw.ty == 0x7e
        },
        leading_transaction(bytes) matches Some((tx, left)) ==> {
            let raw = (decoded_2718(bytes)->0).0;
            &&& left == (decoded_2718(bytes)->0).1
            &&& tx.hash == raw.hash
            &&& tx.encoded == raw.encoded
            &&& tx.max_fee_per_gas == raw.max_fee_per_gas
            &&& tx.max_priority_fee_per_gas == raw.max_priority_fee_per_gas
            &&& tx.tx_type == OpTxType::Legacy <==> raw.ty == 0
            &&& tx.tx_type == OpTxType::Eip2930 <==> raw.ty == 1
            &&& tx.tx_type == OpTxType::Eip1559 <==> raw.ty == 2
            &&& tx.tx_type == OpTxType::Eip7702 <==> raw.ty == 4
            &&& tx.tx_type == OpTxType::Deposit <==> raw.ty == 0x7e
        },
        exact_transaction(bytes) matches Some(tx) ==> leading_transaction(bytes) == Some((tx, 0nat)),
        exact_transaction(bytes) is None ==> leading_transaction(bytes) is None || (
        leading_transaction(bytes)->0).1 > 0,
{
}

/// What a transaction holds is what its fields hold.
pub proof fn law_views(tx: Transaction, r: Recovered)
    ensures
        tx@.tx_type == tx.tx_type,
        tx@.hash == tx.hash,
        tx@.encoded == tx.encoded@,
        tx@.max_fee_per_gas == tx.max_fee_per_gas,
        tx@.max_priority_fee_per_gas == tx.max_priority_fee_per_gas,
        r@.tx == r.tx@,
        r@.signer == r.signer,
{
}

/// The proposer gets the less of what a transaction pays beyond the base fee and of what it offers at
/// most, and nothing where it does not pay the base fee.
pub proof fn law_tip(tx: TxView, base_fee: u64)
    ensures
        tx.effective_tip_per_gas(base_fee) is None <==> tx.max_fee_per_gas < base_fee,
        tx.effective_tip_per_gas(base_fee) matches Some(tip) ==> {
            &&& base_fee + tip <= tx.max_fee_per_gas
            &&& tx.max_priority_fee_per_gas matches Some(most) ==> tip <= most
            &&& base_fee + tip == tx.max_fee_per_gas || tx.max_priority_fee_per_gas == Some(tip)
        },
{
}

}

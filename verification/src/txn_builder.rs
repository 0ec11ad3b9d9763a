//! Transaction requests, and how they become signed transactions.
use alloy::consensus::Transaction;
use alloy::network::{TransactionBuilder, TxSignerSync};
use alloy::primitives::{Address as Address160, U256 as Uint256};
use alloy::rpc::types::{AccessList, AccessListItem, TransactionRequest as RpcRequest};
use alloy::signers::local::PrivateKeySigner as LocalSigner;
use alloy::signers::Error::TransactionChainIdMismatch;
use alloy::signers::Signer;
use alloy::sol_types::SolValue;
use vstd::arithmetic::div_mod::{lemma_div_denominator, lemma_fundamental_div_mod};
use vstd::arithmetic::power::{lemma_pow_positive, pow};
use vstd::prelude::*;

use crate::gas::{max_fee_per_gas, max_priority_fee_per_gas, GasConfigCell};
use crate::primitives::{be_value, halves, u256_modulus, Address, U256};

verus! {

/// First four bytes of the Keccak-256 hash of
/// `swapExactETHForTokens(uint256,address[],address,uint256)`.
pub const SWAP_EXACT_ETH_FOR_TOKENS_SELECTOR: [u8; 4] = [0x7f, 0xf3, 0x6a, 0xb5];

/// Gas limit of a swap.
pub const SWAP_GAS_LIMIT: u64 = 300_000;

/// Gas limit of a transfer of ETH.
pub const TRANSFER_GAS_LIMIT: u64 = 100_000;

/// An entry of an access list: `AccessListItem` of alloy.
#[verifier::external_type_specification]
#[verifier::external_body]
pub struct ExAccessListItem(AccessListItem);

/// A list of accounts and of places in their storage: `AccessList` of alloy.
#[verifier::external_type_specification]
#[verifier::external_body]
pub struct ExAccessList(AccessList);

/// What an access list holds: for each entry the address of the account, and the keys of its
/// storage.
pub uninterp spec fn access_list_entries(list: AccessList) -> Seq<(Seq<u8>, Seq<Seq<u8>>)>;

/// What an access list holds, where there is one.
pub open spec fn entries_of(list: Option<AccessList>) -> Option<Seq<(Seq<u8>, Seq<Seq<u8>>)>> {
    match list {
        Some(list) => Some(access_list_entries(list)),
        None => None,
    }
}

/// Whom a transaction goes to: the account that is called or paid, or none where a contract is
/// created.
pub type TxKind = Option<Address>;

/// The kind of a transaction to the address with these bytes, or to none.
pub open spec fn kind_of(bytes: Option<[u8; 20]>) -> TxKind {
    match bytes {
        Some(bytes) => Some(Address { bytes }),
        None => None,
    }
}

/// The address of the account that a transaction goes to, where there is one.
pub open spec fn recipient(kind: TxKind) -> Option<Seq<u8>> {
    match kind {
        Some(address) => Some(address@),
        None => None,
    }
}

/// A transaction to be built. What is not set is `None`. With a gas price it has the fee rules from
/// before EIP-1559, and without one those of EIP-1559.
#[derive(Debug, PartialEq, Eq)]
pub struct TransactionRequest {
    pub from: Option<Address>,
    pub to: Option<TxKind>,
    pub gas_price: Option<u128>,
    pub max_fee_per_gas: Option<u128>,
    pub max_priority_fee_per_gas: Option<u128>,
    pub gas: Option<u64>,
    /// Wei to transfer.
    pub value: Option<U256>,
    /// Data of the call.
    pub input: Option<Vec<u8>>,
    pub nonce: Option<u64>,
    pub chain_id: Option<u64>,
    pub access_list: Option<AccessList>,
}

impl TransactionRequest {
    /// Whether everything is set that a transaction cannot do without.
    pub open spec fn is_complete(self) -> bool {
        &&& self.to is Some
        &&& self.gas is Some
        &&& self.nonce is Some
        &&& self.gas_price is Some || self.max_fee_per_gas is Some
            && self.max_priority_fee_per_gas is Some
    }

    /// Whether this asks for a legacy transaction: one with a gas price and no access list.
    pub open spec fn is_legacy(self) -> bool {
        self.gas_price is Some && self.access_list is None
    }

    /// The chain: the first one where none is set, except that a legacy transaction can do without.
    pub open spec fn chain(self) -> Option<u64> {
        if self.chain_id is None && !self.is_legacy() {
            Some(1)
        } else {
            self.chain_id
        }
    }

    /// The most that a unit of gas may cost: the gas price, where there is one.
    pub open spec fn fee_cap(self) -> u128 {
        match self.gas_price {
            Some(price) => price,
            None => self.max_fee_per_gas->0,
        }
    }

    /// The tip for a unit of gas, which there is none of beside a gas price.
    pub open spec fn tip(self) -> Option<u128> {
        match self.gas_price {
            Some(_) => None,
            None => self.max_priority_fee_per_gas,
        }
    }

    /// The wei to transfer: none where no value is set.
    pub open spec fn wei(self) -> nat {
        match self.value {
            Some(value) => value@,
            None => 0,
        }
    }

    /// The data of the call: empty where none is set.
    pub open spec fn data(self) -> Seq<u8> {
        match self.input {
            Some(input) => input@,
            None => seq![],
        }
    }

    /// What the access list of the transaction holds: nothing where none is set. A legacy
    /// transaction has none.
    pub open spec fn accesses(self) -> Option<Seq<(Seq<u8>, Seq<Seq<u8>>)>> {
        if self.access_list is None && !self.is_legacy() {
            Some(seq![])
        } else {
            entries_of(self.access_list)
        }
    }
}

/// A transaction without a signature: a legacy one, one with a gas price and an access list, or one
/// with the fee rules of EIP-1559.
#[derive(Debug, PartialEq, Eq)]
pub struct UnsignedTx {
    pub chain_id: Option<u64>,
    pub nonce: u64,
    pub gas_limit: u64,
    /// The price of a unit of gas, except with the fee rules of EIP-1559.
    pub gas_price: Option<u128>,
    /// The most that a unit of gas may cost: the gas price, where there is one.
    pub max_fee_per_gas: u128,
    /// The tip for a unit of gas, with the fee rules of EIP-1559.
    pub max_priority_fee_per_gas: Option<u128>,
    pub to: TxKind,
    pub value: U256,
    pub input: Vec<u8>,
    /// A legacy transaction has none.
    pub access_list: Option<AccessList>,
}

impl UnsignedTx {
    /// Whether this is the transaction that `request` asks for.
    pub open spec fn is_built_from(self, request: TransactionRequest) -> bool {
        self.is_built_for(request, request.chain())
    }

    /// Whether this is the transaction that `request` asks for, but for the chain given.
    pub open spec fn is_built_for(self, request: TransactionRequest, chain: Option<u64>) -> bool {
        &&& self.chain_id == chain
        &&& request.nonce == Some(self.nonce)
        &&& request.gas == Some(self.gas_limit)
        &&& self.gas_price == request.gas_price
        &&& self.max_fee_per_gas == request.fee_cap()
        &&& self.max_priority_fee_per_gas == request.tip()
        &&& request.to is Some
        &&& recipient(self.to) == recipient(request.to->0)
        &&& self.value@ == request.wei()
        &&& self.input@ == request.data()
        &&& entries_of(self.access_list) == request.accesses()
    }

    /// Whether this is a transaction of one of the three kinds.
    pub open spec fn is_well_formed(self) -> bool {
        &&& self.gas_price is Some <==> self.max_priority_fee_per_gas is None
        &&& self.gas_price matches Some(price) ==> self.max_fee_per_gas == price
        &&& self.access_list is None ==> self.gas_price is Some
        &&& self.chain_id is None ==> self.access_list is None
    }

    /// The transaction with its signature.
    pub fn into_signed(self, signature: Signature) -> (envelope: TxEnvelope)
        ensures
            envelope == (TxEnvelope { tx: self, signature }),
    {
        TxEnvelope { tx: self, signature }
    }

    /// The transaction signed. Where it has no chain, it is signed for that of the signer.
    pub fn sign(self, signer: &PrivateKeySigner) -> (r: Result<TxEnvelope, TxnError>)
        requires
            self.is_well_formed(),
        ensures
            (match r {
                Ok(envelope) => Ok((envelope.signature@, envelope.tx.chain_id)),
                Err(error) => Err(error),
            }) == signing_outcome(
                signer.chain_id(),
                self.chain_id,
                transaction_signature(
                    signed_chain(signer.chain_id(), self.chain_id),
                    self.nonce,
                    self.gas_limit,
                    self.gas_price,
                    self.max_fee_per_gas,
                    self.max_priority_fee_per_gas,
                    recipient(self.to),
                    self.value@,
                    self.input@,
                    entries_of(self.access_list),
                    signer.secret(),
                ),
            ),
            r matches Ok(envelope) ==> envelope.tx == (UnsignedTx {
                chain_id: signed_chain(signer.chain_id(), self.chain_id),
                ..self
            }),
    {
        proof {
            use_type_invariant(signer);
        }
        let outcome = sign_transaction_sync(
            self.chain_id,
            Some(self.nonce),
            Some(self.gas_limit),
            self.gas_price,
            Some(self.max_fee_per_gas),
            self.max_priority_fee_per_gas,
            address_bytes(self.to),
            Some(self.value.limbs),
            self.input.clone(),
            match &self.access_list {
                Some(list) => Some(copy_access_list(list)),
                None => None,
            },
            signer.secret,
            signer.chain_id,
        );
        match outcome {
            Ok((signature, chain_id)) => {
                let tx = UnsignedTx { chain_id, ..self };
                Ok(tx.into_signed(signature))
            },
            Err(error) => Err(error),
        }
    }
}

/// An ECDSA signature on the curve secp256k1.
#[derive(Clone, Copy, Debug, PartialEq, Eq)]
pub struct Signature {
    pub r: U256,
    pub s: U256,
    pub y_parity: bool,
}

impl View for Signature {
    type V = (nat, nat, bool);

    open spec fn view(&self) -> (nat, nat, bool) {
        (self.r@, self.s@, self.y_parity)
    }
}

/// A signed transaction.
#[derive(Debug, PartialEq, Eq)]
pub struct TxEnvelope {
    pub tx: UnsignedTx,
    pub signature: Signature,
}

/// Why a transaction could not be signed.
#[derive(Clone, Copy, Debug, PartialEq, Eq, Structural)]
pub enum TxnError {
    /// The signer signs for another chain than that of the transaction.
    ChainIdMismatch { signer: u64, tx: u64 },
    /// The key gave no signature.
    SigningFailed,
}

/// The upper half of the order of the group of the curve secp256k1.
pub const SECP256K1_ORDER_HIGH: u128 = 0xFFFFFFFF_FFFFFFFF_FFFFFFFF_FFFFFFFE;

/// The lower half of the order of the group of the curve secp256k1.
pub const SECP256K1_ORDER_LOW: u128 = 0xBAAEDCE6_AF48A03B_BFD25E8C_D0364141;

/// The order of the group of the curve secp256k1.
pub open spec fn secp256k1_order() -> nat {
    0xFFFFFFFF_FFFFFFFF_FFFFFFFF_FFFFFFFE_BAAEDCE6_AF48A03B_BFD25E8C_D0364141nat
}

/// Signs with a private key, for one chain or for any.
pub struct PrivateKeySigner {
    /// The private key, most significant byte first.
    secret: [u8; 32],
    chain_id: Option<u64>,
}

impl PrivateKeySigner {
    /// The private key.
    pub closed spec fn secret(self) -> nat {
        be_value(self.secret@)
    }

    /// The chain that it signs for, if it is one only.
    pub closed spec fn chain_id(self) -> Option<u64> {
        self.chain_id
    }

    /// The key is one of the curve's.
    #[verifier::type_invariant]
    spec fn has_valid_secret(self) -> bool {
        0 < be_value(self.secret@) < secp256k1_order()
    }

    /// A signer with the key whose bytes are given, most significant first, if it is one: from one
    /// up to the order of the group, exclusive.
    pub fn new(secret: [u8; 32], chain_id: Option<u64>) -> (signer: Option<Self>)
        ensures
            signer is Some <==> 0 < be_value(secret@) < secp256k1_order(),
            signer matches Some(s) ==> s.secret() == be_value(secret@) && s.chain_id() == chain_id,
    {
        let (high, low) = halves(&secret);
        if (high > 0 || low > 0) && (high < SECP256K1_ORDER_HIGH || high == SECP256K1_ORDER_HIGH
            && low < SECP256K1_ORDER_LOW) {
            Some(PrivateKeySigner { secret, chain_id })
        } else {
            None
        }
    }
}

/// The signature of a transaction with a private key, as `r`, `s` and the parity of the point's
/// y coordinate, or nothing where the key gives none.
pub uninterp spec fn transaction_signature(
    chain_id: Option<u64>,
    nonce: u64,
    gas_limit: u64,
    gas_price: Option<u128>,
    max_fee_per_gas: u128,
    max_priority_fee_per_gas: Option<u128>,
    to: Option<Seq<u8>>,
    value: nat,
    input: Seq<u8>,
    access_list: Option<Seq<(Seq<u8>, Seq<Seq<u8>>)>>,
    secret: nat,
) -> Option<(nat, nat, bool)>;

/// The chain that a transaction is signed for: its own, or that of the signer where it has none.
pub open spec fn signed_chain(signer_chain: Option<u64>, tx_chain: Option<u64>) -> Option<u64> {
    match tx_chain {
        Some(chain) => Some(chain),
        None => signer_chain,
    }
}

/// What signing comes to, given what the key makes of the transaction: a signer of one chain
/// refuses the transaction of another. With the signature goes the chain that it is for.
pub open spec fn signing_outcome(
    signer_chain: Option<u64>,
    tx_chain: Option<u64>,
    signature: Option<(nat, nat, bool)>,
) -> Result<((nat, nat, bool), Option<u64>), TxnError> {
    if signer_chain is Some && tx_chain is Some && signer_chain->0 != tx_chain->0 {
        Err(TxnError::ChainIdMismatch { signer: signer_chain->0, tx: tx_chain->0 })
    } else {
        match signature {
            Some(signature) => Ok((signature, signed_chain(signer_chain, tx_chain))),
            None => Err(TxnError::SigningFailed),
        }
    }
}

/// The request with these values, whoever it is from.
pub open spec fn request_of(
    to: Option<Option<[u8; 20]>>,
    gas_price: Option<u128>,
    max_fee_per_gas: Option<u128>,
    max_priority_fee_per_gas: Option<u128>,
    gas: Option<u64>,
    value: Option<[u64; 4]>,
    input: Vec<u8>,
    nonce: Option<u64>,
    chain_id: Option<u64>,
    access_list: Option<AccessList>,
) -> TransactionRequest {
    TransactionRequest {
        from: None,
        to: match to {
            Some(kind) => Some(kind_of(kind)),
            None => None,
        },
        gas_price,
        max_fee_per_gas,
        max_priority_fee_per_gas,
        gas,
        value: match value {
            Some(limbs) => Some(U256 { limbs }),
            None => None,
        },
        input: Some(input),
        nonce,
        chain_id,
        access_list,
    }
}

/// The bytes of the address that a transaction goes to, where there is one.
fn address_bytes(kind: TxKind) -> (bytes: Option<[u8; 20]>)
    ensures
        kind_of(bytes) == kind,
{
    match kind {
        Some(address) => Some(address.bytes),
        None => None,
    }
}

/// `TransactionBuilder::build_unsigned` of alloy's `TransactionRequest`: there is a transaction
/// whenever the request is complete, and it is the one that the request asks for.
#[verifier::external_body]
fn build_unsigned(
    to: Option<Option<[u8; 20]>>,
    gas_price: Option<u128>,
    max_fee_per_gas: Option<u128>,
    max_priority_fee_per_gas: Option<u128>,
    gas: Option<u64>,
    value: Option<[u64; 4]>,
    input: Vec<u8>,
    nonce: Option<u64>,
    chain_id: Option<u64>,
    access_list: Option<AccessList>,
) -> (tx: Option<UnsignedTx>)
    ensures
        tx is Some <==> request_of(
            to,
            gas_price,
            max_fee_per_gas,
            max_priority_fee_per_gas,
            gas,
            value,
            input,
            nonce,
            chain_id,
            access_list,
        ).is_complete(),
        tx matches Some(t) ==> t.is_well_formed() && t.is_built_from(
            request_of(
                to,
                gas_price,
                max_fee_per_gas,
                max_priority_fee_per_gas,
                gas,
                value,
                input,
                nonce,
                chain_id,
                access_list,
            ),
        ),
{
    RpcRequest { to: to.map(|to| to.map(Address160::from).into()), gas_price, max_fee_per_gas,
        max_priority_fee_per_gas, gas, nonce, chain_id, access_list, input: input.into(),
        value: value.map(Uint256::from_limbs), ..Default::default()
    }.build_unsigned().ok().map(|tx| UnsignedTx {
        chain_id: tx.chain_id(), nonce: tx.nonce(), gas_limit: tx.gas_limit(),
        gas_price: tx.gas_price(), max_fee_per_gas: tx.max_fee_per_gas(),
        max_priority_fee_per_gas: tx.max_priority_fee_per_gas(),
        to: tx.to().map(|to| Address { bytes: to.into() }), input: tx.input().to_vec(),
        value: U256 { limbs: tx.value().into_limbs() }, access_list: tx.access_list().cloned() })
}

/// `TxSignerSync::sign_transaction_sync` of alloy's `PrivateKeySigner`, on the transaction that
/// alloy's `build_unsigned` makes of the values: a signer of one chain refuses the transaction of
/// another, and else the transaction and the key alone give the signature. A transaction without a
/// chain is given that of the signer before it is signed.
#[verifier::external_body]
fn sign_transaction_sync(
    chain_id: Option<u64>,
    nonce: Option<u64>,
    gas: Option<u64>,
    gas_price: Option<u128>,
    max_fee_per_gas: Option<u128>,
    max_priority_fee_per_gas: Option<u128>,
    to: Option<[u8; 20]>,
    value: Option<[u64; 4]>,
    input: Vec<u8>,
    access_list: Option<AccessList>,
    secret: [u8; 32],
    signer_chain: Option<u64>,
) -> (r: Result<(Signature, Option<u64>), TxnError>)
    requires
        0 < be_value(secret@) < secp256k1_order(),
        nonce is Some,
        gas is Some,
        max_fee_per_gas is Some,
        value is Some,
        gas_price is None ==> max_priority_fee_per_gas is Some && access_list is Some,
        access_list is Some ==> chain_id is Some,
    ensures
        (match r {
            Ok((signature, chain_id)) => Ok((signature@, chain_id)),
            Err(error) => Err(error),
        }) == signing_outcome(
            signer_chain,
            chain_id,
            transaction_signature(
                signed_chain(signer_chain, chain_id),
                nonce->0,
                gas->0,
                gas_price,
                max_fee_per_gas->0,
                max_priority_fee_per_gas,
                recipient(kind_of(to)),
                (U256 { limbs: value->0 })@,
                input@,
                match access_list {
                    Some(list) => Some(access_list_entries(list)),
                    None => None,
                },
                be_value(secret@),
            ),
        ),
{
    let key = LocalSigner::from_slice(&secret).unwrap().with_chain_id(signer_chain);
    let mut tx = RpcRequest { to: Some(to.map(Address160::from).into()), gas_price, max_fee_per_gas,
        max_priority_fee_per_gas, gas, nonce, chain_id, access_list, input: input.into(),
        value: value.map(Uint256::from_limbs), ..Default::default() }.build_unsigned().unwrap();
    match key.sign_transaction_sync(&mut tx) {
        Ok(sig) => Ok((Signature { r: U256 { limbs: sig.r().into_limbs() },
            s: U256 { limbs: sig.s().into_limbs() }, y_parity: sig.v() }, tx.chain_id())),
        Err(TransactionChainIdMismatch { signer, tx }) =>
            Err(TxnError::ChainIdMismatch { signer, tx }),
        Err(_) => Err(TxnError::SigningFailed),
    }
}

/// `AccessList::clone` of alloy: a list that holds the same.
#[verifier::external_body]
fn copy_access_list(list: &AccessList) -> (copy: AccessList)
    ensures
        access_list_entries(copy) == access_list_entries(*list),
{
    list.clone()
}

/// The 32 big-endian bytes of an integer below 2^256.
pub open spec fn word(n: nat) -> Seq<u8> {
    Seq::new(32, |i: int| ((n as int / pow(256, (31 - i) as nat)) % 256) as u8)
}

/// The 20 bytes of an address, padded to a word.
pub open spec fn address_word(address: Seq<u8>) -> Seq<u8> {
    Seq::new(12, |i: int| 0u8) + address
}

/// The words of several addresses, one after the other.
pub open spec fn address_words(addresses: Seq<Address>) -> Seq<u8>
    decreases addresses.len(),
{
    if addresses.len() == 0 {
        seq![]
    } else {
        address_words(addresses.drop_last()) + address_word(addresses.last()@)
    }
}

/// The arguments of a swap as a contract reads them: a word for each argument, where that of the
/// path says that it starts after these four words, and then the length of the path and a word for
/// each address on it.
pub open spec fn swap_arguments(
    amount_out_min: nat,
    path: Seq<Address>,
    to: Seq<u8>,
    deadline: nat,
) -> Seq<u8> {
    word(amount_out_min) + word(128) + address_word(to) + word(deadline) + word(path.len())
        + address_words(path)
}

/// `SolValue::abi_encode_params` of alloy on the tuple of the four arguments, which is taken to lay
/// them out as `swap_arguments` says.
#[verifier::external_body]
fn encode_swap_arguments(
    amount_out_min: U256,
    path: &Vec<Address>,
    to: Address,
    deadline: U256,
) -> (encoded: Vec<u8>)
    ensures
        encoded@ == swap_arguments(amount_out_min@, path@, to@, deadline@),
{
    let amount_out_min = Uint256::from_limbs(amount_out_min.limbs);
    let deadline = Uint256::from_limbs(deadline.limbs);
    let to = alloy::primitives::Address::from(to.bytes);
    let path: Vec<_> = path.iter().map(|a| alloy::primitives::Address::from(a.bytes)).collect();
    (amount_out_min, path, to, deadline).abi_encode_params()
}

/// Build and sign transactions
pub struct TxnBuilder;

impl TxnBuilder {
    /// Build and sign transaction
    pub fn build_and_sign_transaction(
        tx_request: TransactionRequest,
        signer: &PrivateKeySigner,
    ) -> (r: Result<TxEnvelope, TxnError>)
        requires
            tx_request.is_complete(),
        ensures
            (match r {
                Ok(envelope) => Ok((envelope.signature@, envelope.tx.chain_id)),
                Err(error) => Err(error),
            }) == signing_outcome(
                signer.chain_id(),
                tx_request.chain(),
                transaction_signature(
                    signed_chain(signer.chain_id(), tx_request.chain()),
                    tx_request.nonce->0,
                    tx_request.gas->0,
                    tx_request.gas_price,
                    tx_request.fee_cap(),
                    tx_request.tip(),
                    recipient(tx_request.to->0),
                    tx_request.wei(),
                    tx_request.data(),
                    tx_request.accesses(),
                    signer.secret(),
                ),
            ),
            r matches Ok(envelope) ==> envelope.tx.is_built_for(
                tx_request,
                signed_chain(signer.chain_id(), tx_request.chain()),
            ),
    {
        let TransactionRequest {
            from: _,
            to,
            gas_price,
            max_fee_per_gas,
            max_priority_fee_per_gas,
            gas,
            value,
            input,
            nonce,
            chain_id,
            access_list,
        } = tx_request;
        let unsigned_tx = build_unsigned(
            match to {
                Some(kind) => Some(address_bytes(kind)),
                None => None,
            },
            gas_price,
            max_fee_per_gas,
            max_priority_fee_per_gas,
            gas,
            match value {
                Some(value) => Some(value.limbs),
                None => None,
            },
            match input {
                Some(input) => input,
                None => Vec::new(),
            },
            nonce,
            chain_id,
            access_list,
        ).unwrap();
        unsigned_tx.sign(signer)
    }

    /// Build Uniswap V2 ETH for Token transaction request
    pub fn build_swap_exact_eth_for_tokens_request(
        gas: &GasConfigCell,
        router_address: Address,
        amount_out_min: U256,
        path: Vec<Address>,
        to: Address,
        deadline: U256,
        eth_amount: U256,
        nonce: u64,
        chain_id: u64,
    ) -> (r: Result<TransactionRequest, TxnError>)
        requires
            gas@ is Some,
        ensures
            r matches Ok(request) && request.input is Some && request.input->0@
                == SWAP_EXACT_ETH_FOR_TOKENS_SELECTOR@ + swap_arguments(
                amount_out_min@,
                path@,
                to@,
                deadline@,
            ) && request == (TransactionRequest {
                from: None,
                to: Some(Some(router_address)),
                gas_price: None,
                max_fee_per_gas: Some(gas@->0.max_fee_per_gas),
                max_priority_fee_per_gas: Some(gas@->0.max_priority_fee_per_gas),
                gas: Some(300_000),
                value: Some(eth_amount),
                input: request.input,
                nonce: Some(nonce),
                chain_id: Some(chain_id),
                access_list: None,
            }) && request.is_complete() && request.max_priority_fee_per_gas->0
                <= request.max_fee_per_gas->0,
    {
        let mut arguments = encode_swap_arguments(amount_out_min, &path, to, deadline);
        let mut call_data: Vec<u8> = Vec::new();
        let mut i: usize = 0;
        while i < 4
            invariant
                i <= 4,
                call_data@ =~= SWAP_EXACT_ETH_FOR_TOKENS_SELECTOR@.take(i as int),
            decreases 4 - i,
        {
            call_data.push(SWAP_EXACT_ETH_FOR_TOKENS_SELECTOR[i]);
            i = i + 1;
        }
        assert(call_data@ =~= SWAP_EXACT_ETH_FOR_TOKENS_SELECTOR@);
        call_data.append(&mut arguments);
        Ok(
            TransactionRequest {
                from: None,
                to: Some(Some(router_address)),
                gas_price: None,
                max_fee_per_gas: Some(max_fee_per_gas(gas)),
                max_priority_fee_per_gas: Some(max_priority_fee_per_gas(gas)),
                gas: Some(SWAP_GAS_LIMIT),
                value: Some(eth_amount),
                input: Some(call_data),
                nonce: Some(nonce),
                chain_id: Some(chain_id),
                access_list: None,
            },
        )
    }

    /// A transfer of ETH from one account to another.
    pub fn eth_transfer_request(
        gas: &GasConfigCell,
        from: Address,
        to: Address,
        amount: U256,
        nonce: u64,
        chain_id: u64,
    ) -> (r: Result<TransactionRequest, TxnError>)
        requires
            gas@ is Some,
        ensures
            r == Ok::<TransactionRequest, TxnError>(
                TransactionRequest {
                    from: Some(from),
                    to: Some(Some(to)),
                    gas_price: None,
                    max_fee_per_gas: Some(gas@->0.max_fee_per_gas),
                    max_priority_fee_per_gas: Some(gas@->0.max_priority_fee_per_gas),
                    gas: Some(100_000),
                    value: Some(amount),
                    input: None,
                    nonce: Some(nonce),
                    chain_id: Some(chain_id),
                    access_list: None,
                },
            ),
            r->Ok_0.is_complete(),
            r->Ok_0.max_priority_fee_per_gas->0 <= r->Ok_0.max_fee_per_gas->0,
    {
        Ok(
            TransactionRequest {
                from: Some(from),
                to: Some(Some(to)),
                gas_price: None,
                max_fee_per_gas: Some(max_fee_per_gas(gas)),
                max_priority_fee_per_gas: Some(max_priority_fee_per_gas(gas)),
                gas: Some(TRANSFER_GAS_LIMIT),
                value: Some(amount),
                input: None,
                nonce: Some(nonce),
                chain_id: Some(chain_id),
                access_list: None,
            },
        )
    }

    /// A transfer of ETH from whoever signs it.
    pub fn self_eth_transfer_request(
        gas: &GasConfigCell,
        to: Address,
        amount: U256,
        nonce: u64,
        chain_id: u64,
    ) -> (r: Result<TransactionRequest, TxnError>)
        requires
            gas@ is Some,
        ensures
            r == Ok::<TransactionRequest, TxnError>(
                TransactionRequest {
                    from: None,
                    to: Some(Some(to)),
                    gas_price: None,
                    max_fee_per_gas: Some(gas@->0.max_fee_per_gas),
                    max_priority_fee_per_gas: Some(gas@->0.max_priority_fee_per_gas),
                    gas: Some(100_000),
                    value: Some(amount),
                    input: None,
                    nonce: Some(nonce),
                    chain_id: Some(chain_id),
                    access_list: None,
                },
            ),
            r->Ok_0.is_complete(),
            r->Ok_0.max_priority_fee_per_gas->0 <= r->Ok_0.max_fee_per_gas->0,
    {
        Ok(
            TransactionRequest {
                from: None,
                to: Some(Some(to)),
                gas_price: None,
                max_fee_per_gas: Some(max_fee_per_gas(gas)),
                max_priority_fee_per_gas: Some(max_priority_fee_per_gas(gas)),
                gas: Some(TRANSFER_GAS_LIMIT),
                value: Some(amount),
                input: None,
                nonce: Some(nonce),
                chain_id: Some(chain_id),
                access_list: None,
            },
        )
    }
}

/// The call data of a swap is four bytes for the function and a word for each of the four
/// arguments, for the length of the path and for each address on it.
pub proof fn law_swap_data_length(
    amount_out_min: nat,
    path: Seq<Address>,
    to: Address,
    deadline: nat,
)
    ensures
        (SWAP_EXACT_ETH_FOR_TOKENS_SELECTOR@ + swap_arguments(
            amount_out_min,
            path,
            to@,
            deadline,
        )).len() == 4 + 32 * (5 + path.len()),
{
    lemma_address_words_length(path);
}

/// There is a word for each address.
proof fn lemma_address_words_length(addresses: Seq<Address>)
    ensures
        address_words(addresses).len() == 32 * addresses.len(),
    decreases addresses.len(),
{
    if addresses.len() > 0 {
        lemma_address_words_length(addresses.drop_last());
    }
}

/// The leading bytes of a word are what is left of the integer without the trailing ones.
proof fn lemma_word_take(n: nat, i: nat)
    requires
        n < u256_modulus(),
        i <= 32,
    ensures
        be_value(word(n).take(i as int)) == n as int / pow(256, (32 - i) as nat),
    decreases i,
{
    lemma_pow_positive(256, (32 - i) as nat);
    if i == 0 {
        assert(pow(256, 32) == u256_modulus()) by {
            reveal_with_fuel(pow, 33);
        }
        assert(n as int / pow(256, 32) == 0) by (nonlinear_arith)
            requires
                0 <= n < pow(256, 32),
        ;
        assert(word(n).take(0).len() == 0);
    } else {
        let power = pow(256, (32 - i) as nat);
        lemma_word_take(n, (i - 1) as nat);
        assert(word(n).take(i as int).drop_last() =~= word(n).take(i - 1));
        assert(pow(256, (32 - (i - 1)) as nat) == power * 256) by {
            reveal(pow);
        }
        lemma_div_denominator(n as int, power, 256);
        lemma_fundamental_div_mod(n as int / power, 256);
    }
}

/// A word holds one integer.
proof fn lemma_word_injective(n: nat, m: nat)
    requires
        n < u256_modulus(),
        m < u256_modulus(),
        word(n) == word(m),
    ensures
        n == m,
{
    lemma_word_take(n, 32);
    lemma_word_take(m, 32);
    assert(pow(256, 0) == 1) by {
        reveal(pow);
    }
}

/// The words of as many addresses hold one sequence of addresses.
proof fn lemma_address_words_injective(a: Seq<Address>, b: Seq<Address>)
    requires
        a.len() == b.len(),
        address_words(a) == address_words(b),
    ensures
        a == b,
    decreases a.len(),
{
    if a.len() > 0 {
        let (first, second) = (a.drop_last(), b.drop_last());
        lemma_address_words_length(first);
        lemma_address_words_length(second);
        let cut = 32 * first.len() as int;
        let end = cut + 32;
        assert(address_words(first) =~= address_words(a).subrange(0, cut));
        assert(address_words(second) =~= address_words(b).subrange(0, cut));
        assert(a.last()@ =~= address_words(a).subrange(cut + 12, end));
        assert(b.last()@ =~= address_words(b).subrange(cut + 12, end));
        assert(a.last().bytes =~= b.last().bytes);
        lemma_address_words_injective(first, second);
        assert(a =~= first.push(a.last()));
        assert(b =~= second.push(b.last()));
    } else {
        assert(a =~= b);
    }
}

/// The call data of a swap determine its arguments.
pub proof fn law_swap_data_determine_arguments(
    amount_out_min: nat,
    path: Seq<Address>,
    to: Address,
    deadline: nat,
    other_amount: nat,
    other_path: Seq<Address>,
    other_to: Address,
    other_deadline: nat,
)
    requires
        amount_out_min < u256_modulus(),
        deadline < u256_modulus(),
        other_amount < u256_modulus(),
        other_deadline < u256_modulus(),
        swap_arguments(amount_out_min, path, to@, deadline) == swap_arguments(
            other_amount,
            other_path,
            other_to@,
            other_deadline,
        ),
    ensures
        amount_out_min == other_amount,
        path == other_path,
        to == other_to,
        deadline == other_deadline,
{
    let data = swap_arguments(amount_out_min, path, to@, deadline);
    let same = swap_arguments(other_amount, other_path, other_to@, other_deadline);
    lemma_address_words_length(path);
    lemma_address_words_length(other_path);
    assert(word(amount_out_min) =~= data.subrange(0, 32));
    assert(word(other_amount) =~= same.subrange(0, 32));
    assert(to@ =~= data.subrange(76, 96));
    assert(other_to@ =~= same.subrange(76, 96));
    assert(word(deadline) =~= data.subrange(96, 128));
    assert(word(other_deadline) =~= same.subrange(96, 128));
    assert(address_words(path) =~= data.subrange(160, data.len() as int));
    assert(address_words(other_path) =~= same.subrange(160, same.len() as int));
    lemma_word_injective(amount_out_min, other_amount);
    lemma_word_injective(deadline, other_deadline);
    assert(to.bytes =~= other_to.bytes);
    lemma_address_words_injective(path, other_path);
}

/// Of two signers with one key, one for the chain of the transaction and one for any chain, both
/// come to the same; a signer for another chain never signs; and a transaction without a chain is
/// signed for that of the signer.
pub proof fn law_chain_of_signer(
    tx_chain: u64,
    other_chain: u64,
    signature: Option<(nat, nat, bool)>,
)
    requires
        other_chain != tx_chain,
    ensures
        signing_outcome(Some(tx_chain), Some(tx_chain), signature) == signing_outcome(
            None,
            Some(tx_chain),
            signature,
        ),
        signing_outcome(Some(other_chain), Some(tx_chain), signature) is Err,
        signature matches Some(s) ==> signing_outcome(Some(tx_chain), None, signature) == Ok::<
            ((nat, nat, bool), Option<u64>),
            TxnError,
        >((s, Some(tx_chain))),
{
}

/// The value of a word.
proof fn lemma_word_value(n: nat)
    requires
        n < u256_modulus(),
    ensures
        be_value(word(n)) == n,
        word(n).len() == 32,
{
    lemma_word_take(n, 32);
    assert(word(n).take(32) =~= word(n));
    assert(pow(256, 0) == 1) by {
        reveal(pow);
    }
}

/// The words of addresses hold each address, in its place, behind twelve zeros.
proof fn lemma_address_words_hold(addresses: Seq<Address>, i: int)
    requires
        0 <= i < addresses.len(),
    ensures
        address_words(addresses).len() == 32 * addresses.len(),
        address_words(addresses).subrange(32 * i + 12, 32 * i + 32) == addresses[i]@,
        forall|k: int|
            32 * i <= k < 32 * i + 12 ==> #[trigger] address_words(addresses)[k] == 0,
    decreases addresses.len(),
{
    let shorter = addresses.drop_last();
    lemma_address_words_length(shorter);
    let (all, earlier) = (address_words(addresses), address_words(shorter));
    if i < shorter.len() {
        lemma_address_words_hold(shorter, i);
        assert(all.subrange(32 * i + 12, 32 * i + 32) =~= earlier.subrange(
            32 * i + 12,
            32 * i + 32,
        ));
        assert forall|k: int| 32 * i <= k < 32 * i + 12 implies #[trigger] all[k] == 0 by {
            assert(all[k] == earlier[k]);
        }
    } else {
        assert(all.subrange(32 * i + 12, 32 * i + 32) =~= addresses[i]@);
    }
}

/// Where the arguments of a swap stand in the call data, behind the four bytes for the function: the
/// least amount in the first word, in the second that the path begins behind four words, the
/// recipient in the third, the deadline in the fourth, the length of the path in the fifth, and then
/// each address of the path in a word of its own.
pub proof fn law_swap_layout(
    amount_out_min: nat,
    path: Seq<Address>,
    to: Address,
    deadline: nat,
    i: int,
)
    requires
        amount_out_min < u256_modulus(),
        deadline < u256_modulus(),
        path.len() < u256_modulus(),
    ensures
        ({
            let data = swap_arguments(amount_out_min, path, to@, deadline);
            &&& data.len() == 160 + 32 * path.len()
            &&& be_value(data.subrange(0, 32)) == amount_out_min
            &&& be_value(data.subrange(32, 64)) == 128
            &&& forall|k: int| 64 <= k < 76 ==> #[trigger] data[k] == 0
            &&& data.subrange(76, 96) == to@
            &&& be_value(data.subrange(96, 128)) == deadline
            &&& be_value(data.subrange(128, 160)) == path.len()
            &&& 0 <= i < path.len() ==> data.subrange(172 + 32 * i, 192 + 32 * i) == path[i]@ && (
            forall|k: int| 160 + 32 * i <= k < 172 + 32 * i ==> #[trigger] data[k] == 0)
        }),
{
    let data = swap_arguments(amount_out_min, path, to@, deadline);
    lemma_address_words_length(path);
    lemma_word_value(amount_out_min);
    lemma_word_value(128);
    lemma_word_value(deadline);
    lemma_word_value(path.len());
    assert(data.subrange(0, 32) =~= word(amount_out_min));
    assert(data.subrange(32, 64) =~= word(128));
    assert(data.subrange(76, 96) =~= to@);
    assert(data.subrange(96, 128) =~= word(deadline));
    assert(data.subrange(128, 160) =~= word(path.len()));
    if 0 <= i < path.len() {
        lemma_address_words_hold(path, i);
        let words = address_words(path);
        assert(data.subrange(172 + 32 * i, 192 + 32 * i) =~= words.subrange(
            32 * i + 12,
            32 * i + 32,
        ));
        assert forall|k: int| 160 + 32 * i <= k < 172 + 32 * i implies #[trigger] data[k] == 0 by {
            assert(data[k] == words[k - 160]);
        }
    }
}

/// Which requests a transaction can be built from: those with a recipient or none for a contract, a
/// gas limit and a nonce, and with a gas price or else both fees.
pub proof fn law_complete_requests(request: TransactionRequest)
    ensures
        request.is_complete() <==> request.to is Some && request.gas is Some && request.nonce is Some
            && (request.gas_price is Some || request.max_fee_per_gas is Some
            && request.max_priority_fee_per_gas is Some),
{
}

/// The transaction that is built from a request has everything that the request sets, and else no
/// value, no data, an empty access list and the first chain; a legacy one, with a gas price and no
/// access list, has none of the last two. With a gas price there is no tip and no other fee.
pub proof fn law_built_as_requested(request: TransactionRequest, tx: UnsignedTx)
    requires
        request.is_complete(),
        tx.is_built_from(request),
    ensures
        Some(tx.nonce) == request.nonce,
        Some(tx.gas_limit) == request.gas,
        request.to->0 is None <==> tx.to is None,
        tx.to matches Some(to) ==> to@ == request.to->0->0@,
        request.gas_price matches Some(price) ==> tx.gas_price == Some(price) && tx.max_fee_per_gas
            == price && tx.max_priority_fee_per_gas is None,
        request.gas_price is None ==> tx.gas_price is None && Some(tx.max_fee_per_gas)
            == request.max_fee_per_gas && tx.max_priority_fee_per_gas
            == request.max_priority_fee_per_gas,
        request.value matches Some(value) ==> tx.value@ == value@,
        request.value is None ==> tx.value@ == 0,
        request.input matches Some(input) ==> tx.input@ == input@,
        request.input is None ==> tx.input@.len() == 0,
        request.chain_id is Some ==> tx.chain_id == request.chain_id,
        request.chain_id is None && (request.gas_price is None || request.access_list is Some)
            ==> tx.chain_id == Some(1u64),
        request.chain_id is None && request.gas_price is Some && request.access_list is None
            ==> tx.chain_id is None,
        request.access_list matches Some(list) ==> tx.access_list is Some && access_list_entries(
            tx.access_list->0,
        ) == access_list_entries(list),
        request.access_list is None && request.gas_price is None ==> tx.access_list is Some
            && access_list_entries(tx.access_list->0).len() == 0,
        request.access_list is None && request.gas_price is Some ==> tx.access_list is None,
{
}

/// What signing comes to: where signer and transaction are for different chains, that they are; else
/// what the key gives, for the chain of the transaction, or that of the signer where it has none.
pub proof fn law_signing_in_cases(
    signer_chain: Option<u64>,
    tx_chain: Option<u64>,
    signature: Option<(nat, nat, bool)>,
)
    ensures
        ({
            let outcome = signing_outcome(signer_chain, tx_chain, signature);
            let differ = signer_chain is Some && tx_chain is Some && signer_chain != tx_chain;
            &&& differ ==> outcome == Err::<((nat, nat, bool), Option<u64>), TxnError>(
                TxnError::ChainIdMismatch { signer: signer_chain->0, tx: tx_chain->0 },
            )
            &&& !differ && signature is None ==> outcome == Err::<
                ((nat, nat, bool), Option<u64>),
                TxnError,
            >(TxnError::SigningFailed)
            &&& !differ && signature is Some && tx_chain is Some ==> outcome == Ok::<
                ((nat, nat, bool), Option<u64>),
                TxnError,
            >((signature->0, tx_chain))
            &&& !differ && signature is Some && tx_chain is None ==> outcome == Ok::<
                ((nat, nat, bool), Option<u64>),
                TxnError,
            >((signature->0, signer_chain))
            &&& tx_chain is Some ==> signed_chain(signer_chain, tx_chain) == tx_chain
            &&& tx_chain is None ==> signed_chain(signer_chain, tx_chain) == signer_chain
        }),
{
}

/// The order of the group of the curve secp256k1 is 2^256 less a number of 129 bits.
pub proof fn law_order_of_the_group()
    ensures
        secp256k1_order() + 0x1_45512319_50B75FC4_402DA173_2FC9BEBF == u256_modulus(),
{
}

} // verus!

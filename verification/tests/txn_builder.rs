use alloy::consensus::{SignableTransaction, TxEip1559, TxEip2930, TxLegacy};
use alloy::network::TxSignerSync;
use alloy::primitives::{
    keccak256, Address as OutsideAddress, Signature as OutsideSignature, TxKind, B256,
    U256 as Uint256,
};
use alloy::rpc::types::{AccessList, AccessListItem};
use alloy::signers::local::PrivateKeySigner as LocalSigner;
use chain_bench::gas::{init_gas_config, GasConfigCell};
use chain_bench::primitives::{Address, U256};
use chain_bench::txn_builder::{
    PrivateKeySigner, Signature, TransactionRequest, TxnBuilder, TxnError, UnsignedTx,
    SWAP_EXACT_ETH_FOR_TOKENS_SELECTOR,
};

fn address(byte: u8) -> Address {
    Address { bytes: [byte; 20] }
}

fn gas() -> GasConfigCell {
    let mut cell = GasConfigCell::new();
    init_gas_config(&mut cell, 60_000_000_000);
    cell
}

fn key(n: u64) -> [u8; 32] {
    Uint256::from(n).to_be_bytes()
}

fn signer(chain_id: Option<u64>) -> PrivateKeySigner {
    PrivateKeySigner::new(key(0x4242), chain_id).unwrap()
}

fn outside_signer() -> LocalSigner {
    LocalSigner::from_bytes(&B256::from(key(0x4242))).unwrap()
}

/// The signature of the outside crate, which has been checked to be that of the signer.
fn outside_signature(mut tx: impl SignableTransaction<OutsideSignature>) -> Signature {
    let signature = outside_signer().sign_transaction_sync(&mut tx).unwrap();
    let signed_by = signature.recover_address_from_prehash(&tx.signature_hash()).unwrap();
    assert_eq!(signed_by, outside_signer().address());
    Signature {
        r: U256 { limbs: signature.r().into_limbs() },
        s: U256 { limbs: signature.s().into_limbs() },
        y_parity: signature.v(),
    }
}

fn access_list() -> AccessList {
    AccessList(vec![AccessListItem {
        address: OutsideAddress::from([9; 20]),
        storage_keys: vec![B256::from([8; 32])],
    }])
}

/// A complete request with the fee rules of EIP-1559.
fn request() -> TransactionRequest {
    TransactionRequest {
        from: None,
        to: Some(Some(address(2))),
        gas_price: None,
        max_fee_per_gas: Some(30),
        max_priority_fee_per_gas: Some(20),
        gas: Some(21_000),
        value: Some(U256 { limbs: [1, 2, 3, 4] }),
        input: Some(vec![1, 2, 3]),
        nonce: Some(9),
        chain_id: Some(1337),
        access_list: None,
    }
}

fn word(n: u64) -> Vec<u8> {
    let mut bytes = vec![0u8; 24];
    bytes.extend_from_slice(&n.to_be_bytes());
    bytes
}

fn address_word(byte: u8) -> Vec<u8> {
    let mut bytes = vec![0u8; 12];
    bytes.extend_from_slice(&[byte; 20]);
    bytes
}

#[test]
fn selector_is_that_of_the_signature() {
    let hash = keccak256("swapExactETHForTokens(uint256,address[],address,uint256)");
    assert_eq!(hash[..4], SWAP_EXACT_ETH_FOR_TOKENS_SELECTOR);
}

#[test]
fn swap_request_and_its_call_data() {
    let request = TxnBuilder::build_swap_exact_eth_for_tokens_request(
        &gas(),
        address(1),
        U256::from_u64(0x0102_0304),
        vec![address(2), address(3)],
        address(4),
        U256::from_u64(99),
        U256::from_u64(5),
        6,
        7,
    )
    .unwrap();
    let mut data = vec![0x7f, 0xf3, 0x6a, 0xb5];
    data.extend(word(0x0102_0304));
    data.extend(word(128));
    data.extend(address_word(4));
    data.extend(word(99));
    data.extend(word(2));
    data.extend(address_word(2));
    data.extend(address_word(3));
    assert_eq!(data.len(), 4 + 32 * 7);
    assert_eq!(
        request,
        TransactionRequest {
            from: None,
            to: Some(Some(address(1))),
            gas_price: None,
            max_fee_per_gas: Some(60_000_000_000),
            max_priority_fee_per_gas: Some(1_000_000_000),
            gas: Some(300_000),
            value: Some(U256::from_u64(5)),
            input: Some(data),
            nonce: Some(6),
            chain_id: Some(7),
            access_list: None,
        }
    );
}

#[test]
fn swap_along_no_path() {
    let request = TxnBuilder::build_swap_exact_eth_for_tokens_request(
        &gas(),
        address(1),
        U256 { limbs: [u64::MAX; 4] },
        vec![],
        address(4),
        U256::from_u64(0),
        U256::from_u64(0),
        0,
        1,
    )
    .unwrap();
    let data = request.input.unwrap();
    assert_eq!(data.len(), 4 + 32 * 5);
    assert_eq!(data[4..36], [0xff; 32]);
}

#[test]
fn transfer_requests() {
    let request =
        TxnBuilder::eth_transfer_request(&gas(), address(1), address(2), U256::from_u64(3), 4, 5)
            .unwrap();
    let expected = TransactionRequest {
        from: Some(address(1)),
        to: Some(Some(address(2))),
        gas_price: None,
        max_fee_per_gas: Some(60_000_000_000),
        max_priority_fee_per_gas: Some(1_000_000_000),
        gas: Some(100_000),
        value: Some(U256::from_u64(3)),
        input: None,
        nonce: Some(4),
        chain_id: Some(5),
        access_list: None,
    };
    assert_eq!(request, expected);
    let own =
        TxnBuilder::self_eth_transfer_request(&gas(), address(2), U256::from_u64(3), 4, 5).unwrap();
    assert_eq!(own, TransactionRequest { from: None, ..expected });
}

#[test]
fn signed_transaction_is_what_was_asked_for() {
    let envelope = TxnBuilder::build_and_sign_transaction(request(), &signer(None)).unwrap();
    assert_eq!(
        envelope.tx,
        UnsignedTx {
            chain_id: Some(1337),
            nonce: 9,
            gas_limit: 21_000,
            gas_price: None,
            max_fee_per_gas: 30,
            max_priority_fee_per_gas: Some(20),
            to: Some(address(2)),
            value: U256 { limbs: [1, 2, 3, 4] },
            input: vec![1, 2, 3],
            access_list: Some(AccessList::default()),
        }
    );
    let expected = outside_signature(TxEip1559 {
        chain_id: 1337,
        nonce: 9,
        gas_limit: 21_000,
        max_fee_per_gas: 30,
        max_priority_fee_per_gas: 20,
        to: TxKind::Call(OutsideAddress::from([2; 20])),
        value: Uint256::from_limbs([1, 2, 3, 4]),
        input: vec![1, 2, 3].into(),
        access_list: AccessList::default(),
    });
    assert_eq!(envelope.signature, expected);
}

#[test]
fn contract_creation_with_an_access_list() {
    let request =
        TransactionRequest { to: Some(None), access_list: Some(access_list()), ..request() };
    let envelope = TxnBuilder::build_and_sign_transaction(request, &signer(Some(1337))).unwrap();
    assert_eq!(envelope.tx.to, None);
    assert_eq!(envelope.tx.access_list, Some(access_list()));
    let expected = outside_signature(TxEip1559 {
        chain_id: 1337,
        nonce: 9,
        gas_limit: 21_000,
        max_fee_per_gas: 30,
        max_priority_fee_per_gas: 20,
        to: TxKind::Create,
        value: Uint256::from_limbs([1, 2, 3, 4]),
        input: vec![1, 2, 3].into(),
        access_list: access_list(),
    });
    assert_eq!(envelope.signature, expected);
}

#[test]
fn gas_price_with_an_access_list() {
    let request = TransactionRequest {
        gas_price: Some(7),
        access_list: Some(access_list()),
        chain_id: None,
        ..request()
    };
    let envelope = TxnBuilder::build_and_sign_transaction(request, &signer(None)).unwrap();
    assert_eq!(
        envelope.tx,
        UnsignedTx {
            chain_id: Some(1),
            nonce: 9,
            gas_limit: 21_000,
            gas_price: Some(7),
            max_fee_per_gas: 7,
            max_priority_fee_per_gas: None,
            to: Some(address(2)),
            value: U256 { limbs: [1, 2, 3, 4] },
            input: vec![1, 2, 3],
            access_list: Some(access_list()),
        }
    );
    let expected = outside_signature(TxEip2930 {
        chain_id: 1,
        nonce: 9,
        gas_price: 7,
        gas_limit: 21_000,
        to: TxKind::Call(OutsideAddress::from([2; 20])),
        value: Uint256::from_limbs([1, 2, 3, 4]),
        input: vec![1, 2, 3].into(),
        access_list: access_list(),
    });
    assert_eq!(envelope.signature, expected);
}

#[test]
fn legacy_transaction_is_signed_for_the_chain_of_the_signer() {
    for (tx_chain, signer_chain, signed_chain) in
        [(None, None, None), (None, Some(5), Some(5)), (Some(6), None, Some(6)), (Some(6), Some(6), Some(6))]
    {
        let request = TransactionRequest {
            gas_price: Some(7),
            max_fee_per_gas: None,
            max_priority_fee_per_gas: None,
            chain_id: tx_chain,
            ..request()
        };
        let envelope =
            TxnBuilder::build_and_sign_transaction(request, &signer(signer_chain)).unwrap();
        assert_eq!(
            envelope.tx,
            UnsignedTx {
                chain_id: signed_chain,
                nonce: 9,
                gas_limit: 21_000,
                gas_price: Some(7),
                max_fee_per_gas: 7,
                max_priority_fee_per_gas: None,
                to: Some(address(2)),
                value: U256 { limbs: [1, 2, 3, 4] },
                input: vec![1, 2, 3],
                access_list: None,
            }
        );
        let expected = outside_signature(TxLegacy {
            chain_id: signed_chain,
            nonce: 9,
            gas_price: 7,
            gas_limit: 21_000,
            to: TxKind::Call(OutsideAddress::from([2; 20])),
            value: Uint256::from_limbs([1, 2, 3, 4]),
            input: vec![1, 2, 3].into(),
        });
        assert_eq!(envelope.signature, expected);
    }
}

#[test]
fn what_is_not_set_has_its_default() {
    let request = TransactionRequest { value: None, input: None, chain_id: None, ..request() };
    let envelope = TxnBuilder::build_and_sign_transaction(request, &signer(None)).unwrap();
    assert_eq!(envelope.tx.chain_id, Some(1));
    assert_eq!(envelope.tx.value, U256::from_u64(0));
    assert!(envelope.tx.input.is_empty());
}

#[test]
fn swap_data_determine_the_arguments() {
    let data = |amount: u64, path: Vec<Address>, to: u8, deadline: u64| {
        TxnBuilder::build_swap_exact_eth_for_tokens_request(
            &gas(),
            address(1),
            U256::from_u64(amount),
            path,
            address(to),
            U256::from_u64(deadline),
            U256::from_u64(5),
            6,
            7,
        )
        .unwrap()
        .input
    };
    let first = data(1, vec![address(2)], 3, 4);
    assert_eq!(first, data(1, vec![address(2)], 3, 4));
    assert_ne!(first, data(2, vec![address(2)], 3, 4));
    assert_ne!(first, data(1, vec![address(3)], 3, 4));
    assert_ne!(first, data(1, vec![address(2), address(2)], 3, 4));
    assert_ne!(first, data(1, vec![address(2)], 2, 4));
    assert_ne!(first, data(1, vec![address(2)], 3, 3));
}

#[test]
fn signer_of_another_chain_refuses() {
    let request = |chain_id: u64| {
        TxnBuilder::self_eth_transfer_request(&gas(), address(2), U256::from_u64(3), 4, chain_id)
            .unwrap()
    };
    assert_eq!(
        TxnBuilder::build_and_sign_transaction(request(5), &signer(Some(6))),
        Err(TxnError::ChainIdMismatch { signer: 6, tx: 5 })
    );
    // For the right chain the outcome is that of a signer of any chain.
    assert_eq!(
        TxnBuilder::build_and_sign_transaction(request(5), &signer(Some(5))),
        TxnBuilder::build_and_sign_transaction(request(5), &signer(None))
    );
}

#[test]
fn keys_are_those_of_the_curve() {
    let order = Uint256::from_limbs([
        0xBFD25E8C_D0364141,
        0xBAAEDCE6_AF48A03B,
        0xFFFFFFFF_FFFFFFFE,
        0xFFFFFFFF_FFFFFFFF,
    ]);
    let one = Uint256::from(1);
    for (secret, is_key) in [
        (Uint256::ZERO, false),
        (one, true),
        (Uint256::from(1) << 200, true),
        (order - one, true),
        (order, false),
        (order + one, false),
        (Uint256::MAX, false),
    ] {
        let bytes: [u8; 32] = secret.to_be_bytes();
        assert_eq!(PrivateKeySigner::new(bytes, None).is_some(), is_key);
        assert_eq!(LocalSigner::from_bytes(&B256::from(bytes)).is_ok(), is_key);
    }
}

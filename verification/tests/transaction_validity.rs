use parity_scale_codec::Encode;
use proto_mux::transaction_validity::decode_transaction_validity;
use proto_mux::transaction_validity::encode_transaction_validity;
use proto_mux::transaction_validity::InvalidTransaction;
use proto_mux::transaction_validity::TransactionValidity;
use proto_mux::transaction_validity::TransactionValidityError;
use proto_mux::transaction_validity::UnknownTransaction;
use proto_mux::transaction_validity::ValidTransaction;
use proto_mux::transaction_validity::ValidTransactionBuilder;

#[test]
fn should_encode_and_decode() {
    let v: TransactionValidity = Ok(ValidTransaction {
        priority: 5,
        requires: vec![vec![1, 2, 3, 4]],
        provides: vec![vec![4, 5, 6]],
        longevity: 42,
        propagate: false,
    });

    let encoded = encode_transaction_validity(&v);
    assert_eq!(
        encoded,
        vec![0, 5, 0, 0, 0, 0, 0, 0, 0, 4, 16, 1, 2, 3, 4, 4, 12, 4, 5, 6, 42, 0, 0, 0, 0, 0, 0, 0, 0]
    );

    // decode back
    let (decoded, used) = decode_transaction_validity(&encoded, 0).unwrap();
    assert_eq!(decoded, v);
    assert_eq!(used, encoded.len());
}

#[test]
fn encoding_matches_reference_codec() {
    let v = ValidTransaction {
        priority: 5,
        requires: vec![vec![1, 2, 3, 4]],
        provides: vec![vec![4, 5, 6]],
        longevity: 42,
        propagate: false,
    };
    let mine = v.encode();
    let reference = (
        5u64,
        vec![vec![1u8, 2, 3, 4]],
        vec![vec![4u8, 5, 6]],
        42u64,
        false,
    )
        .encode();
    assert_eq!(mine, reference);
}

#[test]
fn builder_should_prefix_the_tags() {
    const PREFIX: &str = "test";
    let a: ValidTransaction = ValidTransaction::for_pallet(PREFIX)
        .and_requires(1.encode())
        .and_requires(2.encode())
        .and_provides(3.encode())
        .and_provides(4.encode())
        .propagate(false)
        .longevity(5)
        .priority(3)
        .priority(6)
        .into();
    assert_eq!(
        a,
        ValidTransaction {
            propagate: false,
            longevity: 5,
            priority: 6,
            requires: vec![(PREFIX, 1).encode(), (PREFIX, 2).encode()],
            provides: vec![(PREFIX, 3).encode(), (PREFIX, 4).encode()],
        }
    );
}

#[test]
fn builder_without_prefix_keeps_raw_tags() {
    let a: ValidTransaction = ValidTransactionBuilder::default()
        .and_requires(vec![7, 7])
        .and_provides(vec![8])
        .into();
    assert_eq!(a.requires, vec![vec![7, 7]]);
    assert_eq!(a.provides, vec![vec![8]]);
    assert_eq!(a.priority, 0);
    assert_eq!(a.longevity, u64::MAX);
    assert!(a.propagate);
}

#[test]
fn combine_with_merges_both_verdicts() {
    let a = ValidTransaction {
        priority: 10,
        requires: vec![vec![1]],
        provides: vec![vec![2]],
        longevity: 100,
        propagate: true,
    };
    let b = ValidTransaction {
        priority: u64::MAX - 3,
        requires: vec![vec![3]],
        provides: vec![vec![4]],
        longevity: 42,
        propagate: false,
    };
    let c = a.combine_with(b);
    assert_eq!(c.priority, u64::MAX); // saturates
    assert_eq!(c.requires, vec![vec![1], vec![3]]);
    assert_eq!(c.provides, vec![vec![2], vec![4]]);
    assert_eq!(c.longevity, 42);
    assert!(!c.propagate);
}

#[test]
fn error_predicates_and_descriptions() {
    assert!(InvalidTransaction::ExhaustsResources.exhausted_resources());
    assert!(!InvalidTransaction::Call.exhausted_resources());
    assert!(InvalidTransaction::BadMandatory.was_mandatory());
    assert!(!InvalidTransaction::Custom(3).was_mandatory());

    let e = TransactionValidityError::Invalid(InvalidTransaction::ExhaustsResources);
    assert!(e.exhausted_resources());
    assert!(!e.was_mandatory());
    let u = TransactionValidityError::Unknown(UnknownTransaction::CannotLookup);
    assert!(!u.exhausted_resources());
    assert!(!u.was_mandatory());
    assert_eq!(
        InvalidTransaction::Call.description(),
        "Transaction call is not expected"
    );
    assert_eq!(
        UnknownTransaction::Custom(1).description(),
        "UnknownTransaction custom error"
    );
}

#[test]
fn error_encodings_round_trip() {
    let cases: Vec<TransactionValidity> = vec![
        Err(TransactionValidityError::Invalid(InvalidTransaction::Call)),
        Err(TransactionValidityError::Invalid(InvalidTransaction::Custom(0xAB))),
        Err(TransactionValidityError::Invalid(InvalidTransaction::MandatoryDispatch)),
        Err(TransactionValidityError::Unknown(UnknownTransaction::CannotLookup)),
        Err(TransactionValidityError::Unknown(UnknownTransaction::Custom(7))),
        InvalidTransaction::ExhaustsResources.into_validity(),
        UnknownTransaction::NoUnsignedValidator.into_validity(),
    ];
    for t in cases {
        let encoded = encode_transaction_validity(&t);
        let (decoded, used) = decode_transaction_validity(&encoded, 0).unwrap();
        assert_eq!(decoded, t);
        assert_eq!(used, encoded.len());
    }
}

#[test]
fn decode_rejects_malformed_input() {
    // unknown discriminant
    assert!(decode_transaction_validity(&vec![2], 0).is_none());
    // empty input
    assert!(decode_transaction_validity(&vec![], 0).is_none());
    // truncated valid-transaction body
    assert!(decode_transaction_validity(&vec![0, 5, 0, 0], 0).is_none());
    // bad propagate byte
    let mut encoded = encode_transaction_validity(&Ok(ValidTransaction {
        priority: 1,
        requires: vec![],
        provides: vec![],
        longevity: 2,
        propagate: true,
    }));
    let last = encoded.len() - 1;
    encoded[last] = 9;
    assert!(decode_transaction_validity(&encoded, 0).is_none());
    // bad invalid-transaction index
    assert!(decode_transaction_validity(&vec![1, 0, 10], 0).is_none());
}

#[test]
fn build_always_returns_ok() {
    let r: TransactionValidity = ValidTransaction::for_pallet("p").priority(9).build();
    assert_eq!(
        r,
        Ok(ValidTransaction {
            priority: 9,
            requires: vec![],
            provides: vec![],
            longevity: u64::MAX,
            propagate: true,
        })
    );
}

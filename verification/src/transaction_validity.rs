//! Transaction validity interface: the verdict a runtime gives on a
//! transaction, how two verdicts combine, a tag-prefixing builder, and the
//! wire encoding of the whole verdict.

use vstd::prelude::*;

verus! {

use crate::scale::bytes_enc;
use crate::scale::compact_u32_bytes;
use crate::scale::encode_bytes;
use crate::scale::encode_compact_u32;
use crate::scale::encode_u64_le;
use crate::scale::u64_le_bytes;
use vstd::string::StringSliceAdditionalSpecFns;

/// Priority for a transaction. Additive. Higher is better.
pub type TransactionPriority = u64;

/// Minimum number of blocks a transaction will remain valid for.
/// `TransactionLongevity::MAX` means "forever".
pub type TransactionLongevity = u64;

/// Tag for a transaction. No two transactions with the same tag should be
/// placed on-chain.
pub type TransactionTag = Vec<u8>;

/// An invalid transaction validity.
#[derive(Debug, Clone, Copy, PartialEq, Eq, Structural)]
pub enum InvalidTransaction {
    /// The call of the transaction is not expected.
    Call,
    /// General error to do with the inability to pay some fees.
    Payment,
    /// General error to do with the transaction not yet being valid.
    Future,
    /// General error to do with the transaction being outdated.
    Stale,
    /// General error to do with the transaction's proofs.
    BadProof,
    /// The transaction birth block is ancient.
    AncientBirthBlock,
    /// The transaction would exhaust the resources of the current block.
    ExhaustsResources,
    /// Any other custom invalid validity not covered by this enum.
    Custom(u8),
    /// An extrinsic with a mandatory dispatch resulted in an error.
    BadMandatory,
    /// A transaction with a mandatory dispatch, which only inherent
    /// extrinsics are allowed to have.
    MandatoryDispatch,
}

impl InvalidTransaction {
    /// Returns whether the reason for the invalidity was block resource
    /// exhaustion.
    pub fn exhausted_resources(&self) -> (r: bool)
        ensures
            r == (*self == InvalidTransaction::ExhaustsResources),
    {
        match self {
            InvalidTransaction::ExhaustsResources => true,
            _ => false,
        }
    }

    /// Returns whether the reason for the invalidity was a mandatory call
    /// failing.
    pub fn was_mandatory(&self) -> (r: bool)
        ensures
            r == (*self == InvalidTransaction::BadMandatory),
    {
        match self {
            InvalidTransaction::BadMandatory => true,
            _ => false,
        }
    }

    /// Human-readable description of the invalidity.
    pub fn description(&self) -> (r: &'static str)
        ensures
            r@ == invalid_transaction_description(*self),
    {
        match self {
            InvalidTransaction::Call => "Transaction call is not expected",
            InvalidTransaction::Future => "Transaction will be valid in the future",
            InvalidTransaction::Stale => "Transaction is outdated",
            InvalidTransaction::BadProof => "Transaction has a bad signature",
            InvalidTransaction::AncientBirthBlock => "Transaction has an ancient birth block",
            InvalidTransaction::ExhaustsResources => "Transaction would exhausts the block limits",
            InvalidTransaction::Payment => "Inability to pay some fees (e.g. account balance too low)",
            InvalidTransaction::BadMandatory => "A call was labelled as mandatory, but resulted in an Error.",
            InvalidTransaction::MandatoryDispatch => "Tranaction dispatch is mandatory; transactions may not have mandatory dispatches.",
            InvalidTransaction::Custom(_) => "InvalidTransaction custom error",
        }
    }
}

/// The description each invalidity renders to.
pub open spec fn invalid_transaction_description(e: InvalidTransaction) -> Seq<char> {
    match e {
        InvalidTransaction::Call => "Transaction call is not expected"@,
        InvalidTransaction::Future => "Transaction will be valid in the future"@,
        InvalidTransaction::Stale => "Transaction is outdated"@,
        InvalidTransaction::BadProof => "Transaction has a bad signature"@,
        InvalidTransaction::AncientBirthBlock => "Transaction has an ancient birth block"@,
        InvalidTransaction::ExhaustsResources => "Transaction would exhausts the block limits"@,
        InvalidTransaction::Payment => "Inability to pay some fees (e.g. account balance too low)"@,
        InvalidTransaction::BadMandatory => "A call was labelled as mandatory, but resulted in an Error."@,
        InvalidTransaction::MandatoryDispatch => "Tranaction dispatch is mandatory; transactions may not have mandatory dispatches."@,
        InvalidTransaction::Custom(_) => "InvalidTransaction custom error"@,
    }
}

/// An unknown transaction validity.
#[derive(Debug, Clone, Copy, PartialEq, Eq, Structural)]
pub enum UnknownTransaction {
    /// Could not look up some information required to validate the
    /// transaction.
    CannotLookup,
    /// No validator found for the given unsigned transaction.
    NoUnsignedValidator,
    /// Any other custom unknown validity not covered by this enum.
    Custom(u8),
}

/// The description each unknown validity renders to.
pub open spec fn unknown_transaction_description(e: UnknownTransaction) -> Seq<char> {
    match e {
        UnknownTransaction::CannotLookup => "Could not lookup information required to validate the transaction"@,
        UnknownTransaction::NoUnsignedValidator => "Could not find an unsigned validator for the unsigned transaction"@,
        UnknownTransaction::Custom(_) => "UnknownTransaction custom error"@,
    }
}

impl UnknownTransaction {
    /// Human-readable description of the unknown validity.
    pub fn description(&self) -> (r: &'static str)
        ensures
            r@ == unknown_transaction_description(*self),
    {
        match self {
            UnknownTransaction::CannotLookup => "Could not lookup information required to validate the transaction",
            UnknownTransaction::NoUnsignedValidator => "Could not find an unsigned validator for the unsigned transaction",
            UnknownTransaction::Custom(_) => "UnknownTransaction custom error",
        }
    }
}

/// Errors that can occur while checking the validity of a transaction.
#[derive(Debug, Clone, Copy, PartialEq, Eq, Structural)]
pub enum TransactionValidityError {
    /// The transaction is invalid.
    Invalid(InvalidTransaction),
    /// Transaction validity can't be determined.
    Unknown(UnknownTransaction),
}

impl TransactionValidityError {
    /// Returns whether the reason for the error was block resource
    /// exhaustion.
    pub fn exhausted_resources(&self) -> (r: bool)
        ensures
            r == (*self == TransactionValidityError::Invalid(
                InvalidTransaction::ExhaustsResources,
            )),
    {
        match self {
            TransactionValidityError::Invalid(e) => e.exhausted_resources(),
            TransactionValidityError::Unknown(_) => false,
        }
    }

    /// Returns whether the reason for the error was a mandatory dispatch
    /// that could not complete.
    pub fn was_mandatory(&self) -> (r: bool)
        ensures
            r == (*self == TransactionValidityError::Invalid(InvalidTransaction::BadMandatory)),
    {
        match self {
            TransactionValidityError::Invalid(e) => e.was_mandatory(),
            TransactionValidityError::Unknown(_) => false,
        }
    }

    /// Human-readable description of the error.
    pub fn description(&self) -> (r: &'static str)
        ensures
            r@ == (match *self {
                TransactionValidityError::Invalid(e) => invalid_transaction_description(e),
                TransactionValidityError::Unknown(e) => unknown_transaction_description(e),
            }),
    {
        match self {
            TransactionValidityError::Invalid(e) => e.description(),
            TransactionValidityError::Unknown(e) => e.description(),
        }
    }
}

impl From<InvalidTransaction> for TransactionValidityError {
    /// Wraps an invalidity as a validity error.
    fn from(err: InvalidTransaction) -> (r: Self) {
        TransactionValidityError::Invalid(err)
    }
}

impl vstd::std_specs::convert::FromSpecImpl<InvalidTransaction> for TransactionValidityError {
    open spec fn obeys_from_spec() -> bool {
        true
    }

    open spec fn from_spec(err: InvalidTransaction) -> Self {
        TransactionValidityError::Invalid(err)
    }
}

impl From<UnknownTransaction> for TransactionValidityError {
    /// Wraps an unknown validity as a validity error.
    fn from(err: UnknownTransaction) -> (r: Self) {
        TransactionValidityError::Unknown(err)
    }
}

impl vstd::std_specs::convert::FromSpecImpl<UnknownTransaction> for TransactionValidityError {
    open spec fn obeys_from_spec() -> bool {
        true
    }

    open spec fn from_spec(err: UnknownTransaction) -> Self {
        TransactionValidityError::Unknown(err)
    }
}

/// Information on a transaction's validity and, if valid, on how it
/// relates to other transactions.
pub type TransactionValidity = Result<ValidTransaction, TransactionValidityError>;

impl InvalidTransaction {
    /// The whole-validity verdict this invalidity stands for.
    pub fn into_validity(self) -> (r: TransactionValidity)
        ensures
            r == Err::<ValidTransaction, TransactionValidityError>(
                TransactionValidityError::Invalid(self),
            ),
    {
        Err(TransactionValidityError::Invalid(self))
    }
}

impl UnknownTransaction {
    /// The whole-validity verdict this unknown validity stands for.
    pub fn into_validity(self) -> (r: TransactionValidity)
        ensures
            r == Err::<ValidTransaction, TransactionValidityError>(
                TransactionValidityError::Unknown(self),
            ),
    {
        Err(TransactionValidityError::Unknown(self))
    }
}

/// The source of the transaction.
#[derive(Debug, Clone, Copy, PartialEq, Eq, Structural)]
pub enum TransactionSource {
    /// Transaction is already included in a block.
    InBlock,
    /// Transaction is coming from a local source.
    Local,
    /// Transaction has been received externally.
    External,
}

/// Information concerning a valid transaction.
#[derive(Debug, Clone, PartialEq, Eq)]
pub struct ValidTransaction {
    /// Priority of the transaction: determines the ordering of two
    /// transactions that have all their required tags satisfied.
    pub priority: TransactionPriority,
    /// Transaction dependencies: a non-empty list means some other
    /// transactions providing these tags must be included first.
    pub requires: Vec<TransactionTag>,
    /// Provided tags: importing the transaction enables other
    /// transactions that require them.
    pub provides: Vec<TransactionTag>,
    /// Minimum number of blocks the validity stays correct for.
    pub longevity: TransactionLongevity,
    /// Whether the transaction should be propagated to other peers.
    pub propagate: bool,
}

/// Sum of two priorities, saturating at the maximum.
pub open spec fn saturating_add_u64(a: u64, b: u64) -> u64 {
    if a + b > u64::MAX {
        u64::MAX
    } else {
        (a + b) as u64
    }
}

impl Default for ValidTransaction {
    /// No priority, no tags, valid forever, propagated.
    fn default() -> (r: Self)
        ensures
            r.priority == 0,
            r.requires@ == Seq::<TransactionTag>::empty(),
            r.provides@ == Seq::<TransactionTag>::empty(),
            r.longevity == u64::MAX,
            r.propagate == true,
    {
        let r = ValidTransaction {
            priority: 0,
            requires: Vec::new(),
            provides: Vec::new(),
            longevity: u64::MAX,
            propagate: true,
        };
        proof {
            assert(r.requires@ =~= Seq::<TransactionTag>::empty());
            assert(r.provides@ =~= Seq::<TransactionTag>::empty());
        }
        r
    }
}

impl ValidTransaction {
    /// Starts a [`ValidTransactionBuilder`] whose tags are prefixed with
    /// `prefix`, to avoid conflicts between different pallets.
    pub fn for_pallet(prefix: &str) -> (r: ValidTransactionBuilder)
        ensures
            r.prefix matches Some(p) && p@ == prefix.spec_bytes(),
            r.validity.priority == 0,
            r.validity.requires@ == Seq::<TransactionTag>::empty(),
            r.validity.provides@ == Seq::<TransactionTag>::empty(),
            r.validity.longevity == u64::MAX,
            r.validity.propagate == true,
    {
        let bytes = prefix.as_bytes();
        let mut p: Vec<u8> = Vec::new();
        let mut i: usize = 0;
        while i < bytes.len()
            invariant
                i <= bytes@.len(),
                p@.len() == i,
                forall|k: int| 0 <= k < i ==> #[trigger] p@[k] == bytes@[k],
            decreases bytes@.len() - i,
        {
            p.push(bytes[i]);
            i += 1;
        }
        assert(p@ =~= prefix.spec_bytes());
        ValidTransactionBuilder { prefix: Some(p), validity: Default::default() }
    }

    /// Combines two verdicts into one, as a best effort: the tag lists
    /// are concatenated, the priorities are added saturating, the
    /// longevity is the minimum, and the propagate flags are both-anded.
    pub fn combine_with(self, other: ValidTransaction) -> (r: Self)
        ensures
            r.priority == saturating_add_u64(self.priority, other.priority),
            r.requires@ == self.requires@ + other.requires@,
            r.provides@ == self.provides@ + other.provides@,
            r.longevity == (if self.longevity <= other.longevity {
                self.longevity
            } else {
                other.longevity
            }),
            r.propagate == (self.propagate && other.propagate),
    {
        let mut me = self;
        let mut them = other;
        let priority: u64 = if u64::MAX - me.priority < them.priority {
            u64::MAX
        } else {
            me.priority + them.priority
        };
        let longevity: u64 = if me.longevity <= them.longevity {
            me.longevity
        } else {
            them.longevity
        };
        let propagate = me.propagate && them.propagate;
        let mut required_tags = me.requires;
        let mut other_required = them.requires;
        required_tags.append(&mut other_required);
        let mut provided_tags = me.provides;
        let mut other_provided = them.provides;
        provided_tags.append(&mut other_provided);
        ValidTransaction {
            priority,
            requires: required_tags,
            provides: provided_tags,
            longevity,
            propagate,
        }
    }
}

/// [`ValidTransaction`] builder: constructs a verdict step by step and
/// prefixes every `requires`/`provides` tag with the pallet prefix.
#[derive(Debug, Clone, PartialEq, Eq)]
pub struct ValidTransactionBuilder {
    /// Prefix put in front of every tag, if any.
    pub prefix: Option<Vec<u8>>,
    /// The verdict built so far.
    pub validity: ValidTransaction,
}

impl Default for ValidTransactionBuilder {
    /// No prefix, default verdict.
    fn default() -> (r: Self)
        ensures
            r.prefix is None,
            r.validity.priority == 0,
            r.validity.requires@ == Seq::<TransactionTag>::empty(),
            r.validity.provides@ == Seq::<TransactionTag>::empty(),
            r.validity.longevity == u64::MAX,
            r.validity.propagate == true,
    {
        ValidTransactionBuilder { prefix: None, validity: Default::default() }
    }
}

/// The tag stored for `tag` under an optional pallet prefix: the prefix's
/// length-prefixed bytes followed by the tag's own encoded bytes.
pub open spec fn prefixed_tag(prefix: Option<Vec<u8>>, tag: Seq<u8>) -> Seq<u8> {
    match prefix {
        Some(p) => bytes_enc(p@) + tag,
        None => tag,
    }
}

impl ValidTransactionBuilder {
    /// Sets the priority of the transaction.
    pub fn priority(self, priority: TransactionPriority) -> (r: Self)
        ensures
            r.prefix == self.prefix,
            r.validity.priority == priority,
            r.validity.requires == self.validity.requires,
            r.validity.provides == self.validity.provides,
            r.validity.longevity == self.validity.longevity,
            r.validity.propagate == self.validity.propagate,
    {
        let mut b = self;
        b.validity.priority = priority;
        b
    }

    /// Sets the longevity of the transaction.
    pub fn longevity(self, longevity: TransactionLongevity) -> (r: Self)
        ensures
            r.prefix == self.prefix,
            r.validity.priority == self.validity.priority,
            r.validity.requires == self.validity.requires,
            r.validity.provides == self.validity.provides,
            r.validity.longevity == longevity,
            r.validity.propagate == self.validity.propagate,
    {
        let mut b = self;
        b.validity.longevity = longevity;
        b
    }

    /// Sets the propagate flag.
    pub fn propagate(self, propagate: bool) -> (r: Self)
        ensures
            r.prefix == self.prefix,
            r.validity.priority == self.validity.priority,
            r.validity.requires == self.validity.requires,
            r.validity.provides == self.validity.provides,
            r.validity.longevity == self.validity.longevity,
            r.validity.propagate == propagate,
    {
        let mut b = self;
        b.validity.propagate = propagate;
        b
    }

    /// Adds an already-encoded tag to the set of required tags, prefixed
    /// with the pallet prefix if one was set.
    pub fn and_requires(self, tag: Vec<u8>) -> (r: Self)
        requires
            self.prefix matches Some(p) ==> p@.len() <= u32::MAX,
        ensures
            r.prefix == self.prefix,
            r.validity.priority == self.validity.priority,
            r.validity.requires@.len() == self.validity.requires@.len() + 1,
            forall|k: int|
                0 <= k < self.validity.requires@.len() ==> r.validity.requires@[k]
                    == self.validity.requires@[k],
            r.validity.requires@.last()@ == prefixed_tag(self.prefix, tag@),
            r.validity.provides == self.validity.provides,
            r.validity.longevity == self.validity.longevity,
            r.validity.propagate == self.validity.propagate,
    {
        let mut b = self;
        let entry = prefixed_tag_exec(&b.prefix, tag);
        b.validity.requires.push(entry);
        b
    }

    /// Adds an already-encoded tag to the set of provided tags, prefixed
    /// with the pallet prefix if one was set.
    pub fn and_provides(self, tag: Vec<u8>) -> (r: Self)
        requires
            self.prefix matches Some(p) ==> p@.len() <= u32::MAX,
        ensures
            r.prefix == self.prefix,
            r.validity.priority == self.validity.priority,
            r.validity.requires == self.validity.requires,
            r.validity.provides@.len() == self.validity.provides@.len() + 1,
            forall|k: int|
                0 <= k < self.validity.provides@.len() ==> r.validity.provides@[k]
                    == self.validity.provides@[k],
            r.validity.provides@.last()@ == prefixed_tag(self.prefix, tag@),
            r.validity.longevity == self.validity.longevity,
            r.validity.propagate == self.validity.propagate,
    {
        let mut b = self;
        let entry = prefixed_tag_exec(&b.prefix, tag);
        b.validity.provides.push(entry);
        b
    }

    /// Augments the builder with an existing verdict, without prefixing
    /// its tags.
    pub fn combine_with(self, validity: ValidTransaction) -> (r: Self)
        ensures
            r.prefix == self.prefix,
            r.validity.priority == saturating_add_u64(
                self.validity.priority,
                validity.priority,
            ),
            r.validity.requires@ == self.validity.requires@ + validity.requires@,
            r.validity.provides@ == self.validity.provides@ + validity.provides@,
            r.validity.longevity == (if self.validity.longevity <= validity.longevity {
                self.validity.longevity
            } else {
                validity.longevity
            }),
            r.validity.propagate == (self.validity.propagate && validity.propagate),
    {
        let ValidTransactionBuilder { prefix, validity: mine } = self;
        ValidTransactionBuilder { prefix, validity: mine.combine_with(validity) }
    }

    /// Finalizes the builder; the result is always `Ok`.
    pub fn build(self) -> (r: TransactionValidity)
        ensures
            r == Ok::<ValidTransaction, TransactionValidityError>(self.validity),
    {
        Ok(self.validity)
    }

    /// Finalizes the builder into the bare verdict.
    pub fn into_validity(self) -> (r: ValidTransaction)
        ensures
            r == self.validity,
    {
        self.validity
    }
}

impl From<ValidTransactionBuilder> for ValidTransaction {
    /// Finalizes the builder into the bare verdict.
    fn from(builder: ValidTransactionBuilder) -> (r: Self) {
        builder.validity
    }
}

impl vstd::std_specs::convert::FromSpecImpl<ValidTransactionBuilder> for ValidTransaction {
    open spec fn obeys_from_spec() -> bool {
        true
    }

    open spec fn from_spec(builder: ValidTransactionBuilder) -> Self {
        builder.validity
    }
}

/// Builds the stored form of one tag under an optional prefix.
fn prefixed_tag_exec(prefix: &Option<Vec<u8>>, tag: Vec<u8>) -> (r: Vec<u8>)
    requires
        *prefix matches Some(p) ==> p@.len() <= u32::MAX,
    ensures
        r@ == prefixed_tag(*prefix, tag@),
{
    match prefix {
        Option::Some(p) => {
            let mut out: Vec<u8> = Vec::new();
            encode_bytes(p, &mut out);
            let ghost mid = out@;
            let mut i: usize = 0;
            while i < tag.len()
                invariant
                    i <= tag@.len(),
                    out@.len() == mid.len() + i,
                    out@ == mid + tag@.subrange(0, i as int),
                decreases tag@.len() - i,
            {
                out.push(tag[i]);
                i += 1;
                assert(out@ =~= mid + tag@.subrange(0, i as int));
            }
            assert(tag@.subrange(0, tag@.len() as int) =~= tag@);
            assert(out@ == bytes_enc(p@) + tag@);
            out
        },
        Option::None => tag,
    }
}


/// The views of a list of tags.
pub open spec fn tags_view(ts: Seq<TransactionTag>) -> Seq<Seq<u8>> {
    ts.map_values(|t: TransactionTag| t@)
}

/// Concatenation of the length-prefixed encodings of each tag.
pub open spec fn tags_concat(ts: Seq<Seq<u8>>) -> Seq<u8>
    decreases ts.len(),
{
    if ts.len() == 0 {
        Seq::empty()
    } else {
        bytes_enc(ts[0]) + tags_concat(ts.drop_first())
    }
}

/// A tag list on the wire: its compact-encoded count, then each tag.
pub open spec fn tag_list_bytes(ts: Seq<Seq<u8>>) -> Seq<u8> {
    compact_u32_bytes(ts.len() as u32) + tags_concat(ts)
}

/// Every tag fits the wire format's length prefix.
pub open spec fn tag_lens_ok(ts: Seq<Seq<u8>>) -> bool {
    forall|j: int| 0 <= j < ts.len() ==> (#[trigger] ts[j]).len() <= u32::MAX
}

/// A tag list fits the wire format.
pub open spec fn tags_encodable(ts: Seq<Seq<u8>>) -> bool {
    ts.len() <= u32::MAX && tag_lens_ok(ts)
}

/// A boolean on the wire.
pub open spec fn bool_byte(b: bool) -> Seq<u8> {
    if b {
        seq![1u8]
    } else {
        seq![0u8]
    }
}

/// Wire bytes of an accepted verdict.
pub open spec fn valid_transaction_bytes(v: ValidTransaction) -> Seq<u8> {
    u64_le_bytes(v.priority) + tag_list_bytes(tags_view(v.requires@)) + tag_list_bytes(
        tags_view(v.provides@),
    ) + u64_le_bytes(v.longevity) + bool_byte(v.propagate)
}

/// The verdict fits the wire format.
pub open spec fn valid_transaction_encodable(v: ValidTransaction) -> bool {
    tags_encodable(tags_view(v.requires@)) && tags_encodable(tags_view(v.provides@))
}

/// The wire form of an invalidity: its index byte, plus the custom code.
pub open spec fn invalid_transaction_bytes(e: InvalidTransaction) -> Seq<u8> {
    match e {
        InvalidTransaction::Call => seq![0u8],
        InvalidTransaction::Payment => seq![1u8],
        InvalidTransaction::Future => seq![2u8],
        InvalidTransaction::Stale => seq![3u8],
        InvalidTransaction::BadProof => seq![4u8],
        InvalidTransaction::AncientBirthBlock => seq![5u8],
        InvalidTransaction::ExhaustsResources => seq![6u8],
        InvalidTransaction::Custom(x) => seq![7u8, x],
        InvalidTransaction::BadMandatory => seq![8u8],
        InvalidTransaction::MandatoryDispatch => seq![9u8],
    }
}

/// The wire form of an unknown validity.
pub open spec fn unknown_transaction_bytes(e: UnknownTransaction) -> Seq<u8> {
    match e {
        UnknownTransaction::CannotLookup => seq![0u8],
        UnknownTransaction::NoUnsignedValidator => seq![1u8],
        UnknownTransaction::Custom(x) => seq![2u8, x],
    }
}

/// The wire form of a validity error.
pub open spec fn validity_error_bytes(e: TransactionValidityError) -> Seq<u8> {
    match e {
        TransactionValidityError::Invalid(i) => seq![0u8] + invalid_transaction_bytes(i),
        TransactionValidityError::Unknown(u) => seq![1u8] + unknown_transaction_bytes(u),
    }
}

/// The wire form of a whole verdict.
pub open spec fn transaction_validity_bytes(t: TransactionValidity) -> Seq<u8> {
    match t {
        Ok(v) => seq![0u8] + valid_transaction_bytes(v),
        Err(e) => seq![1u8] + validity_error_bytes(e),
    }
}

/// Tag concatenation distributes over list concatenation.
pub proof fn lemma_tags_concat_app(a: Seq<Seq<u8>>, b: Seq<Seq<u8>>)
    ensures
        tags_concat(a + b) == tags_concat(a) + tags_concat(b),
    decreases a.len(),
{
    if a.len() == 0 {
        assert(a + b =~= b);
        assert(tags_concat(a) + tags_concat(b) =~= tags_concat(b));
    } else {
        assert((a + b).drop_first() =~= a.drop_first() + b);
        lemma_tags_concat_app(a.drop_first(), b);
        assert((a + b)[0] == a[0]);
        assert(bytes_enc(a[0]) + (tags_concat(a.drop_first()) + tags_concat(b)) =~= (bytes_enc(
            a[0],
        ) + tags_concat(a.drop_first())) + tags_concat(b));
    }
}

/// What occurs as a concatenation occurs piecewise.
pub proof fn lemma_occurs_split(s: Seq<u8>, p: int, a: Seq<u8>, b: Seq<u8>)
    requires
        crate::scale::occurs_at(s, p, a + b),
    ensures
        crate::scale::occurs_at(s, p, a),
        crate::scale::occurs_at(s, p + a.len(), b),
{
    assert(s.subrange(p, p + a.len()) =~= s.subrange(p, p + (a + b).len()).subrange(
        0,
        a.len() as int,
    ));
    assert((a + b).subrange(0, a.len() as int) =~= a);
    assert(s.subrange(p + a.len(), p + a.len() + b.len()) =~= s.subrange(
        p,
        p + (a + b).len(),
    ).subrange(a.len() as int, (a + b).len() as int));
    assert((a + b).subrange(a.len() as int, (a + b).len() as int) =~= b);
}

/// What occurs piecewise occurs as a concatenation.
pub proof fn lemma_occurs_join(s: Seq<u8>, p: int, a: Seq<u8>, b: Seq<u8>)
    requires
        crate::scale::occurs_at(s, p, a),
        crate::scale::occurs_at(s, p + a.len(), b),
    ensures
        crate::scale::occurs_at(s, p, a + b),
{
    assert(s.subrange(p, p + (a + b).len()) =~= a + b) by {
        assert forall|k: int| 0 <= k < (a + b).len() implies s.subrange(p, p + (a + b).len())[k]
            == (a + b)[k] by {
            if k < a.len() {
                assert(s.subrange(p, p + a.len())[k] == a[k]);
            } else {
                assert(s.subrange(p + a.len(), p + a.len() + b.len())[k - a.len()] == b[k - a.len()]);
            }
        }
    }
}

/// Appends the wire form of a tag list.
fn encode_tag_list(ts: &Vec<TransactionTag>, out: &mut Vec<u8>)
    requires
        tags_encodable(tags_view(ts@)),
    ensures
        final(out)@ == old(out)@ + tag_list_bytes(tags_view(ts@)),
{
    proof {
        assert(tags_view(ts@).len() == ts@.len());
    }
    encode_compact_u32(ts.len() as u32, out);
    let ghost mid = out@;
    let mut i: usize = 0;
    while i < ts.len()
        invariant
            i <= ts@.len(),
            tags_encodable(tags_view(ts@)),
            out@ == mid + tags_concat(tags_view(ts@).take(i as int)),
        decreases ts@.len() - i,
    {
        proof {
            assert(tags_view(ts@)[i as int] == ts@[i as int]@);
        }
        encode_bytes(&ts[i], out);
        proof {
            let v = tags_view(ts@);
            assert(v.take(i + 1) =~= v.take(i as int) + seq![v[i as int]]);
            lemma_tags_concat_app(v.take(i as int), seq![v[i as int]]);
            assert(seq![v[i as int]].drop_first() =~= Seq::<Seq<u8>>::empty());
            assert(tags_concat(seq![v[i as int]].drop_first()) =~= Seq::<u8>::empty());
            assert(tags_concat(seq![v[i as int]]) =~= bytes_enc(v[i as int]));
            assert(out@ =~= mid + tags_concat(v.take(i + 1)));
        }
        i += 1;
    }
    proof {
        assert(tags_view(ts@).take(ts@.len() as int) =~= tags_view(ts@));
        assert(final(out)@ =~= old(out)@ + tag_list_bytes(tags_view(ts@)));
    }
}

impl ValidTransaction {
    /// The verdict's wire form.
    pub fn encode(&self) -> (r: Vec<u8>)
        requires
            valid_transaction_encodable(*self),
        ensures
            r@ == valid_transaction_bytes(*self),
    {
        let mut out: Vec<u8> = Vec::new();
        encode_u64_le(self.priority, &mut out);
        encode_tag_list(&self.requires, &mut out);
        encode_tag_list(&self.provides, &mut out);
        encode_u64_le(self.longevity, &mut out);
        out.push(if self.propagate {
            1u8
        } else {
            0u8
        });
        assert(out@ =~= valid_transaction_bytes(*self));
        out
    }
}

impl TransactionValidityError {
    /// The error's wire form.
    pub fn encode(&self) -> (r: Vec<u8>)
        ensures
            r@ == validity_error_bytes(*self),
    {
        let mut out: Vec<u8> = Vec::new();
        match self {
            TransactionValidityError::Invalid(i) => {
                out.push(0u8);
                match i {
                    InvalidTransaction::Call => out.push(0u8),
                    InvalidTransaction::Payment => out.push(1u8),
                    InvalidTransaction::Future => out.push(2u8),
                    InvalidTransaction::Stale => out.push(3u8),
                    InvalidTransaction::BadProof => out.push(4u8),
                    InvalidTransaction::AncientBirthBlock => out.push(5u8),
                    InvalidTransaction::ExhaustsResources => out.push(6u8),
                    InvalidTransaction::Custom(x) => {
                        out.push(7u8);
                        out.push(*x);
                    },
                    InvalidTransaction::BadMandatory => out.push(8u8),
                    InvalidTransaction::MandatoryDispatch => out.push(9u8),
                }
            },
            TransactionValidityError::Unknown(u) => {
                out.push(1u8);
                match u {
                    UnknownTransaction::CannotLookup => out.push(0u8),
                    UnknownTransaction::NoUnsignedValidator => out.push(1u8),
                    UnknownTransaction::Custom(x) => {
                        out.push(2u8);
                        out.push(*x);
                    },
                }
            },
        }
        assert(out@ =~= validity_error_bytes(*self));
        out
    }
}

/// The whole verdict's wire form.
pub fn encode_transaction_validity(t: &TransactionValidity) -> (r: Vec<u8>)
    requires
        *t matches Ok(v) ==> valid_transaction_encodable(v),
    ensures
        r@ == transaction_validity_bytes(*t),
{
    let mut out: Vec<u8> = Vec::new();
    match t {
        Ok(v) => {
            out.push(0u8);
            let mut body = v.encode();
            out.append(&mut body);
        },
        Err(e) => {
            out.push(1u8);
            let mut body = e.encode();
            out.append(&mut body);
        },
    }
    assert(out@ =~= transaction_validity_bytes(*t));
    out
}


/// Reads `m` consecutive length-prefixed tags.  Fails exactly when no
/// such sequence occurs at the position, and what it reads is the only
/// such sequence.
fn decode_tags_n(bytes: &Vec<u8>, pos: usize, m: u32) -> (r: Option<(Vec<TransactionTag>, usize)>)
    requires
        pos <= bytes@.len(),
    ensures
        match r {
            Some(p) => {
                &&& p.0@.len() == m
                &&& tag_lens_ok(tags_view(p.0@))
                &&& crate::scale::occurs_at(bytes@, pos as int, tags_concat(tags_view(p.0@)))
                &&& p.1 == pos + tags_concat(tags_view(p.0@)).len()
                &&& forall|l: Seq<Seq<u8>>|
                    (l.len() == m && tag_lens_ok(l) && crate::scale::occurs_at(
                        bytes@,
                        pos as int,
                        tags_concat(l),
                    )) ==> l == tags_view(p.0@)
            },
            None => forall|l: Seq<Seq<u8>>|
                (l.len() == m && tag_lens_ok(l)) ==> !crate::scale::occurs_at(
                    bytes@,
                    pos as int,
                    tags_concat(l),
                ),
        },
    decreases m,
{
    if m == 0 {
        let out: Vec<TransactionTag> = Vec::new();
        proof {
            assert(tags_view(out@) =~= Seq::<Seq<u8>>::empty());
            assert(tags_concat(tags_view(out@)) =~= Seq::<u8>::empty());
            assert(bytes@.subrange(pos as int, pos as int) =~= Seq::<u8>::empty());
            assert forall|l: Seq<Seq<u8>>|
                (l.len() == 0 && tag_lens_ok(l) && crate::scale::occurs_at(
                    bytes@,
                    pos as int,
                    tags_concat(l),
                )) implies l == tags_view(out@) by {
                assert(l =~= tags_view(out@));
            }
        }
        return Some((out, pos));
    }
    match crate::scale::decode_bytes(bytes, pos) {
        Option::None => {
            proof {
                assert forall|l: Seq<Seq<u8>>|
                    (l.len() == m && tag_lens_ok(l)) implies !crate::scale::occurs_at(
                    bytes@,
                    pos as int,
                    tags_concat(l),
                ) by {
                    if crate::scale::occurs_at(bytes@, pos as int, tags_concat(l)) {
                        assert(tags_concat(l) == bytes_enc(l[0]) + tags_concat(l.drop_first()));
                        lemma_occurs_split(
                            bytes@,
                            pos as int,
                            bytes_enc(l[0]),
                            tags_concat(l.drop_first()),
                        );
                        assert(l[0].len() <= u32::MAX);
                        assert(false);
                    }
                }
            }
            None
        },
        Option::Some((tag, n1)) => {
            assert(n1 <= bytes@.len());
            match decode_tags_n(bytes, n1, m - 1) {
                Option::None => {
                    proof {
                        assert forall|l: Seq<Seq<u8>>|
                            (l.len() == m && tag_lens_ok(l)) implies !crate::scale::occurs_at(
                            bytes@,
                            pos as int,
                            tags_concat(l),
                        ) by {
                            if crate::scale::occurs_at(bytes@, pos as int, tags_concat(l)) {
                                assert(tags_concat(l) == bytes_enc(l[0]) + tags_concat(
                                    l.drop_first(),
                                ));
                                lemma_occurs_split(
                                    bytes@,
                                    pos as int,
                                    bytes_enc(l[0]),
                                    tags_concat(l.drop_first()),
                                );
                                assert(l[0].len() <= u32::MAX);
                                crate::scale::lemma_bytes_enc_prefix_unique(
                                    bytes@,
                                    pos as int,
                                    l[0],
                                    tag@,
                                );
                                assert(l[0] == tag@);
                                assert(tag_lens_ok(l.drop_first())) by {
                                    assert forall|j: int|
                                        0 <= j < l.drop_first().len() implies (#[trigger] l.drop_first()[j]).len()
                                        <= u32::MAX by {
                                        assert(l.drop_first()[j] == l[j + 1]);
                                    }
                                }
                                assert(false);
                            }
                        }
                    }
                    None
                },
                Option::Some((rest, n2)) => {
                    let ghost rest_view = tags_view(rest@);
                    let ghost tagv = tag@;
                    let mut out = rest;
                    out.insert(0, tag);
                    proof {
                        assert(tags_view(out@) =~~= seq![tagv] + rest_view);
                        assert((seq![tagv] + rest_view).drop_first() =~= rest_view);
                        assert((seq![tagv] + rest_view)[0] == tagv);
                        assert(tags_concat(seq![tagv] + rest_view) == bytes_enc(tagv)
                            + tags_concat(rest_view));
                        lemma_occurs_join(
                            bytes@,
                            pos as int,
                            bytes_enc(tagv),
                            tags_concat(rest_view),
                        );
                        assert(tag_lens_ok(tags_view(out@))) by {
                            assert forall|j: int|
                                0 <= j < tags_view(out@).len() implies (#[trigger] tags_view(
                                out@,
                            )[j]).len() <= u32::MAX by {
                                if j == 0 {
                                    assert(tags_view(out@)[0] == tagv);
                                } else {
                                    assert(tags_view(out@)[j] == rest_view[j - 1]);
                                }
                            }
                        }
                        assert forall|l: Seq<Seq<u8>>|
                            (l.len() == m && tag_lens_ok(l) && crate::scale::occurs_at(
                                bytes@,
                                pos as int,
                                tags_concat(l),
                            )) implies l == tags_view(out@) by {
                            assert(tags_concat(l) == bytes_enc(l[0]) + tags_concat(
                                l.drop_first(),
                            ));
                            lemma_occurs_split(
                                bytes@,
                                pos as int,
                                bytes_enc(l[0]),
                                tags_concat(l.drop_first()),
                            );
                            assert(l[0].len() <= u32::MAX);
                            crate::scale::lemma_bytes_enc_prefix_unique(
                                bytes@,
                                pos as int,
                                l[0],
                                tagv,
                            );
                            assert(l[0] == tagv);
                            assert(tag_lens_ok(l.drop_first())) by {
                                assert forall|j: int|
                                    0 <= j < l.drop_first().len() implies (#[trigger] l.drop_first()[j]).len()
                                    <= u32::MAX by {
                                    assert(l.drop_first()[j] == l[j + 1]);
                                }
                            }
                            assert(l.drop_first() == rest_view);
                            assert(l =~~= seq![tagv] + rest_view);
                        }
                    }
                    Some((out, n2))
                },
            }
        },
    }
}


/// Reads a complete tag list.  Fails exactly when no encodable tag list
/// occurs at the position, and what it reads is the only one that does.
fn decode_tag_list(bytes: &Vec<u8>, pos: usize) -> (r: Option<(Vec<TransactionTag>, usize)>)
    requires
        pos <= bytes@.len(),
    ensures
        match r {
            Some(p) => {
                &&& tags_encodable(tags_view(p.0@))
                &&& crate::scale::occurs_at(bytes@, pos as int, tag_list_bytes(tags_view(p.0@)))
                &&& p.1 == pos + tag_list_bytes(tags_view(p.0@)).len()
                &&& forall|l: Seq<Seq<u8>>|
                    (tags_encodable(l) && crate::scale::occurs_at(
                        bytes@,
                        pos as int,
                        tag_list_bytes(l),
                    )) ==> l == tags_view(p.0@)
            },
            None => forall|l: Seq<Seq<u8>>|
                tags_encodable(l) ==> !crate::scale::occurs_at(
                    bytes@,
                    pos as int,
                    tag_list_bytes(l),
                ),
        },
{
    match crate::scale::decode_compact_u32(bytes, pos) {
        Option::None => {
            proof {
                assert forall|l: Seq<Seq<u8>>|
                    tags_encodable(l) implies !crate::scale::occurs_at(
                    bytes@,
                    pos as int,
                    tag_list_bytes(l),
                ) by {
                    if crate::scale::occurs_at(bytes@, pos as int, tag_list_bytes(l)) {
                        lemma_occurs_split(
                            bytes@,
                            pos as int,
                            compact_u32_bytes(l.len() as u32),
                            tags_concat(l),
                        );
                        assert(false);
                    }
                }
            }
            None
        },
        Option::Some((m, n1)) => {
            assert(n1 <= bytes@.len());
            match decode_tags_n(bytes, n1, m) {
                Option::None => {
                    proof {
                        assert forall|l: Seq<Seq<u8>>|
                            tags_encodable(l) implies !crate::scale::occurs_at(
                            bytes@,
                            pos as int,
                            tag_list_bytes(l),
                        ) by {
                            if crate::scale::occurs_at(bytes@, pos as int, tag_list_bytes(l)) {
                                lemma_occurs_split(
                                    bytes@,
                                    pos as int,
                                    compact_u32_bytes(l.len() as u32),
                                    tags_concat(l),
                                );
                                crate::scale::lemma_compact_prefix_unique(
                                    bytes@,
                                    pos as int,
                                    l.len() as u32,
                                    m,
                                );
                                assert(l.len() == m);
                                assert(false);
                            }
                        }
                    }
                    None
                },
                Option::Some((ts, n2)) => {
                    proof {
                        lemma_occurs_join(
                            bytes@,
                            pos as int,
                            compact_u32_bytes(m),
                            tags_concat(tags_view(ts@)),
                        );
                        assert(tags_view(ts@).len() == m);
                        assert forall|l: Seq<Seq<u8>>|
                            (tags_encodable(l) && crate::scale::occurs_at(
                                bytes@,
                                pos as int,
                                tag_list_bytes(l),
                            )) implies l == tags_view(ts@) by {
                            lemma_occurs_split(
                                bytes@,
                                pos as int,
                                compact_u32_bytes(l.len() as u32),
                                tags_concat(l),
                            );
                            crate::scale::lemma_compact_prefix_unique(
                                bytes@,
                                pos as int,
                                l.len() as u32,
                                m,
                            );
                            assert(l.len() == m);
                        }
                    }
                    Some((ts, n2))
                },
            }
        },
    }
}


/// Offsets of the five fields inside a verdict's wire form.
pub open spec fn vt_req_off(w: ValidTransaction) -> int {
    8
}

/// Offset of the provided-tags list inside a verdict's wire form.
pub open spec fn vt_prov_off(w: ValidTransaction) -> int {
    8 + tag_list_bytes(tags_view(w.requires@)).len() as int
}

/// Offset of the longevity field inside a verdict's wire form.
pub open spec fn vt_lon_off(w: ValidTransaction) -> int {
    vt_prov_off(w) + tag_list_bytes(tags_view(w.provides@)).len() as int
}

/// Offset of the propagate flag inside a verdict's wire form.
pub open spec fn vt_prop_off(w: ValidTransaction) -> int {
    vt_lon_off(w) + 8
}

/// A verdict's wire form decomposes into its five fields at their
/// offsets.
proof fn lemma_vt_bytes_split(bytes: Seq<u8>, pos: int, w: ValidTransaction)
    requires
        crate::scale::occurs_at(bytes, pos, valid_transaction_bytes(w)),
    ensures
        crate::scale::occurs_at(bytes, pos, u64_le_bytes(w.priority)),
        crate::scale::occurs_at(bytes, pos + 8, tag_list_bytes(tags_view(w.requires@))),
        crate::scale::occurs_at(
            bytes,
            pos + vt_prov_off(w),
            tag_list_bytes(tags_view(w.provides@)),
        ),
        crate::scale::occurs_at(bytes, pos + vt_lon_off(w), u64_le_bytes(w.longevity)),
        crate::scale::occurs_at(bytes, pos + vt_prop_off(w), bool_byte(w.propagate)),
        valid_transaction_bytes(w).len() == vt_prop_off(w) + 1,
{
    let a = u64_le_bytes(w.priority);
    let b = tag_list_bytes(tags_view(w.requires@));
    let c = tag_list_bytes(tags_view(w.provides@));
    let d = u64_le_bytes(w.longevity);
    let e = bool_byte(w.propagate);
    assert(valid_transaction_bytes(w) =~= a + (b + (c + (d + e))));
    lemma_occurs_split(bytes, pos, a, b + (c + (d + e)));
    lemma_occurs_split(bytes, pos + 8, b, c + (d + e));
    lemma_occurs_split(bytes, pos + vt_prov_off(w), c, d + e);
    lemma_occurs_split(bytes, pos + vt_lon_off(w), d, e);
}

/// Five fields standing at their offsets compose into a verdict's wire
/// form.
proof fn lemma_vt_bytes_join(bytes: Seq<u8>, pos: int, v: ValidTransaction)
    requires
        crate::scale::occurs_at(bytes, pos, u64_le_bytes(v.priority)),
        crate::scale::occurs_at(bytes, pos + 8, tag_list_bytes(tags_view(v.requires@))),
        crate::scale::occurs_at(
            bytes,
            pos + vt_prov_off(v),
            tag_list_bytes(tags_view(v.provides@)),
        ),
        crate::scale::occurs_at(bytes, pos + vt_lon_off(v), u64_le_bytes(v.longevity)),
        crate::scale::occurs_at(bytes, pos + vt_prop_off(v), bool_byte(v.propagate)),
    ensures
        crate::scale::occurs_at(bytes, pos, valid_transaction_bytes(v)),
{
    let a = u64_le_bytes(v.priority);
    let b = tag_list_bytes(tags_view(v.requires@));
    let c = tag_list_bytes(tags_view(v.provides@));
    let d = u64_le_bytes(v.longevity);
    let e = bool_byte(v.propagate);
    lemma_occurs_join(bytes, pos + vt_lon_off(v), d, e);
    lemma_occurs_join(bytes, pos + vt_prov_off(v), c, d + e);
    lemma_occurs_join(bytes, pos + 8, b, c + (d + e));
    lemma_occurs_join(bytes, pos, a, b + (c + (d + e)));
    assert(valid_transaction_bytes(v) =~= a + (b + (c + (d + e))));
}

/// Reads a valid-transaction verdict.  Fails exactly when no encodable
/// verdict occurs at the position.
#[verifier::rlimit(100)]
pub fn decode_valid_transaction(bytes: &Vec<u8>, pos: usize) -> (r: Option<
    (ValidTransaction, usize),
>)
    requires
        pos <= bytes@.len(),
    ensures
        match r {
            Some(p) => {
                &&& valid_transaction_encodable(p.0)
                &&& crate::scale::occurs_at(bytes@, pos as int, valid_transaction_bytes(p.0))
                &&& p.1 == pos + valid_transaction_bytes(p.0).len()
            },
            None => forall|w: ValidTransaction|
                valid_transaction_encodable(w) ==> !crate::scale::occurs_at(
                    bytes@,
                    pos as int,
                    valid_transaction_bytes(w),
                ),
        },
{
    let head = crate::scale::decode_u64_le(bytes, pos);
    if head.is_none() {
        proof {
            assert forall|w: ValidTransaction|
                valid_transaction_encodable(w) implies !crate::scale::occurs_at(
                bytes@,
                pos as int,
                valid_transaction_bytes(w),
            ) by {
                if crate::scale::occurs_at(bytes@, pos as int, valid_transaction_bytes(w)) {
                    lemma_vt_bytes_split(bytes@, pos as int, w);
                }
            }
        }
        return None;
    }
    let (priority, n1) = head.unwrap();
    proof {
        assert forall|w: ValidTransaction|
            (valid_transaction_encodable(w) && crate::scale::occurs_at(
                bytes@,
                pos as int,
                valid_transaction_bytes(w),
            )) implies w.priority == priority by {
            lemma_vt_bytes_split(bytes@, pos as int, w);
            assert(bytes@.subrange(pos as int, pos + 8) == u64_le_bytes(w.priority));
            assert(bytes@.subrange(pos as int, pos + 8) == u64_le_bytes(priority));
            crate::scale::lemma_u64_le_bytes_injective(w.priority, priority);
        }
    }
    let req = decode_tag_list(bytes, n1);
    if req.is_none() {
        proof {
            assert forall|w: ValidTransaction|
                valid_transaction_encodable(w) implies !crate::scale::occurs_at(
                bytes@,
                pos as int,
                valid_transaction_bytes(w),
            ) by {
                if crate::scale::occurs_at(bytes@, pos as int, valid_transaction_bytes(w)) {
                    lemma_vt_bytes_split(bytes@, pos as int, w);
                }
            }
        }
        return None;
    }
    let (requires_list, n2) = req.unwrap();
    proof {
        assert forall|w: ValidTransaction|
            (valid_transaction_encodable(w) && crate::scale::occurs_at(
                bytes@,
                pos as int,
                valid_transaction_bytes(w),
            )) implies tags_view(w.requires@) == tags_view(requires_list@) && pos
            + vt_prov_off(w) == n2 by {
            lemma_vt_bytes_split(bytes@, pos as int, w);
        }
    }
    let prov = decode_tag_list(bytes, n2);
    if prov.is_none() {
        proof {
            assert forall|w: ValidTransaction|
                valid_transaction_encodable(w) implies !crate::scale::occurs_at(
                bytes@,
                pos as int,
                valid_transaction_bytes(w),
            ) by {
                if crate::scale::occurs_at(bytes@, pos as int, valid_transaction_bytes(w)) {
                    lemma_vt_bytes_split(bytes@, pos as int, w);
                }
            }
        }
        return None;
    }
    let (provides_list, n3) = prov.unwrap();
    proof {
        assert forall|w: ValidTransaction|
            (valid_transaction_encodable(w) && crate::scale::occurs_at(
                bytes@,
                pos as int,
                valid_transaction_bytes(w),
            )) implies tags_view(w.provides@) == tags_view(provides_list@) && pos
            + vt_lon_off(w) == n3 by {
            lemma_vt_bytes_split(bytes@, pos as int, w);
        }
    }
    let lon = crate::scale::decode_u64_le(bytes, n3);
    if lon.is_none() {
        proof {
            assert forall|w: ValidTransaction|
                valid_transaction_encodable(w) implies !crate::scale::occurs_at(
                bytes@,
                pos as int,
                valid_transaction_bytes(w),
            ) by {
                if crate::scale::occurs_at(bytes@, pos as int, valid_transaction_bytes(w)) {
                    lemma_vt_bytes_split(bytes@, pos as int, w);
                }
            }
        }
        return None;
    }
    let (longevity, n4) = lon.unwrap();
    proof {
        assert forall|w: ValidTransaction|
            (valid_transaction_encodable(w) && crate::scale::occurs_at(
                bytes@,
                pos as int,
                valid_transaction_bytes(w),
            )) implies w.longevity == longevity && pos + vt_prop_off(w) == n4 by {
            lemma_vt_bytes_split(bytes@, pos as int, w);
            assert(bytes@.subrange(n3 as int, n3 + 8) == u64_le_bytes(w.longevity));
            assert(bytes@.subrange(n3 as int, n3 + 8) == u64_le_bytes(longevity));
            crate::scale::lemma_u64_le_bytes_injective(w.longevity, longevity);
        }
    }
    if n4 >= bytes.len() {
        proof {
            assert forall|w: ValidTransaction|
                valid_transaction_encodable(w) implies !crate::scale::occurs_at(
                bytes@,
                pos as int,
                valid_transaction_bytes(w),
            ) by {
                if crate::scale::occurs_at(bytes@, pos as int, valid_transaction_bytes(w)) {
                    lemma_vt_bytes_split(bytes@, pos as int, w);
                }
            }
        }
        return None;
    }
    let b = bytes[n4];
    if b > 1 {
        proof {
            assert forall|w: ValidTransaction|
                valid_transaction_encodable(w) implies !crate::scale::occurs_at(
                bytes@,
                pos as int,
                valid_transaction_bytes(w),
            ) by {
                if crate::scale::occurs_at(bytes@, pos as int, valid_transaction_bytes(w)) {
                    lemma_vt_bytes_split(bytes@, pos as int, w);
                    assert(bool_byte(w.propagate)[0] == bytes@.subrange(n4 as int, n4 + 1)[0]);
                    assert(bool_byte(w.propagate)[0] == b);
                }
            }
        }
        return None;
    }
    let propagate = b == 1;
    let v = ValidTransaction {
        priority,
        requires: requires_list,
        provides: provides_list,
        longevity,
        propagate,
    };
    proof {
        assert(bytes@.subrange(n4 as int, n4 + 1) =~= bool_byte(propagate));
        assert(pos + vt_prov_off(v) == n2 && pos + vt_lon_off(v) == n3 && pos + vt_prop_off(v)
            == n4);
        lemma_vt_bytes_join(bytes@, pos as int, v);
    }
    Some((v, n4 + 1))
}

/// Reads a validity error.  Fails exactly when no error encoding occurs
/// at the position.
pub fn decode_validity_error(bytes: &Vec<u8>, pos: usize) -> (r: Option<
    (TransactionValidityError, usize),
>)
    requires
        pos <= bytes@.len(),
    ensures
        match r {
            Some(p) => crate::scale::occurs_at(bytes@, pos as int, validity_error_bytes(p.0))
                && p.1 == pos + validity_error_bytes(p.0).len(),
            None => forall|e: TransactionValidityError|
                !crate::scale::occurs_at(bytes@, pos as int, validity_error_bytes(e)),
        },
{
    if bytes.len() - pos < 2 {
        proof {
            assert forall|e: TransactionValidityError|
                !crate::scale::occurs_at(bytes@, pos as int, validity_error_bytes(e)) by {
                assert(validity_error_bytes(e).len() >= 2);
            }
        }
        return None;
    }
    let b0 = bytes[pos];
    let b1 = bytes[pos + 1];
    if b0 == 0 {
        let inner: Option<InvalidTransaction> = if b1 == 0 {
            Some(InvalidTransaction::Call)
        } else if b1 == 1 {
            Some(InvalidTransaction::Payment)
        } else if b1 == 2 {
            Some(InvalidTransaction::Future)
        } else if b1 == 3 {
            Some(InvalidTransaction::Stale)
        } else if b1 == 4 {
            Some(InvalidTransaction::BadProof)
        } else if b1 == 5 {
            Some(InvalidTransaction::AncientBirthBlock)
        } else if b1 == 6 {
            Some(InvalidTransaction::ExhaustsResources)
        } else if b1 == 8 {
            Some(InvalidTransaction::BadMandatory)
        } else if b1 == 9 {
            Some(InvalidTransaction::MandatoryDispatch)
        } else {
            None
        };
        match inner {
            Option::Some(i) => {
                let e = TransactionValidityError::Invalid(i);
                proof {
                    assert(validity_error_bytes(e) =~= bytes@.subrange(pos as int, pos + 2));
                }
                Some((e, pos + 2))
            },
            Option::None => {
                if b1 == 7 && bytes.len() - pos >= 3 {
                    let e = TransactionValidityError::Invalid(
                        InvalidTransaction::Custom(bytes[pos + 2]),
                    );
                    proof {
                        assert(validity_error_bytes(e) =~= bytes@.subrange(pos as int, pos + 3));
                    }
                    Some((e, pos + 3))
                } else {
                    proof {
                        assert forall|e: TransactionValidityError|
                            !crate::scale::occurs_at(
                            bytes@,
                            pos as int,
                            validity_error_bytes(e),
                        ) by {
                            if crate::scale::occurs_at(bytes@, pos as int, validity_error_bytes(e)) {
                                let eb = validity_error_bytes(e);
                                assert(eb[0] == bytes@[pos as int]);
                                assert(eb[1] == bytes@[pos + 1]);
                            }
                        }
                    }
                    None
                }
            },
        }
    } else if b0 == 1 {
        let inner: Option<UnknownTransaction> = if b1 == 0 {
            Some(UnknownTransaction::CannotLookup)
        } else if b1 == 1 {
            Some(UnknownTransaction::NoUnsignedValidator)
        } else {
            None
        };
        match inner {
            Option::Some(u) => {
                let e = TransactionValidityError::Unknown(u);
                proof {
                    assert(validity_error_bytes(e) =~= bytes@.subrange(pos as int, pos + 2));
                }
                Some((e, pos + 2))
            },
            Option::None => {
                if b1 == 2 && bytes.len() - pos >= 3 {
                    let e = TransactionValidityError::Unknown(
                        UnknownTransaction::Custom(bytes[pos + 2]),
                    );
                    proof {
                        assert(validity_error_bytes(e) =~= bytes@.subrange(pos as int, pos + 3));
                    }
                    Some((e, pos + 3))
                } else {
                    proof {
                        assert forall|e: TransactionValidityError|
                            !crate::scale::occurs_at(
                            bytes@,
                            pos as int,
                            validity_error_bytes(e),
                        ) by {
                            if crate::scale::occurs_at(bytes@, pos as int, validity_error_bytes(e)) {
                                let eb = validity_error_bytes(e);
                                assert(eb[0] == bytes@[pos as int]);
                                assert(eb[1] == bytes@[pos + 1]);
                            }
                        }
                    }
                    None
                }
            },
        }
    } else {
        proof {
            assert forall|e: TransactionValidityError|
                !crate::scale::occurs_at(bytes@, pos as int, validity_error_bytes(e)) by {
                if crate::scale::occurs_at(bytes@, pos as int, validity_error_bytes(e)) {
                    assert(validity_error_bytes(e)[0] == bytes@[pos as int]);
                }
            }
        }
        None
    }
}

/// Reads a whole transaction-validity verdict.  Fails exactly when no
/// encodable verdict occurs at the position, and otherwise returns the
/// verdict whose wire form stands there, together with the position just
/// past it.
pub fn decode_transaction_validity(bytes: &Vec<u8>, pos: usize) -> (r: Option<
    (TransactionValidity, usize),
>)
    requires
        pos <= bytes@.len(),
    ensures
        match r {
            Some(p) => {
                &&& (p.0 matches Ok(v) ==> valid_transaction_encodable(v))
                &&& crate::scale::occurs_at(bytes@, pos as int, transaction_validity_bytes(p.0))
                &&& p.1 == pos + transaction_validity_bytes(p.0).len()
            },
            None => forall|t: TransactionValidity|
                (t matches Ok(v) ==> valid_transaction_encodable(v)) ==> !crate::scale::occurs_at(
                    bytes@,
                    pos as int,
                    transaction_validity_bytes(t),
                ),
        },
{
    if pos >= bytes.len() {
        proof {
            assert forall|t: TransactionValidity|
                !crate::scale::occurs_at(bytes@, pos as int, transaction_validity_bytes(t)) by {
                assert(transaction_validity_bytes(t).len() >= 1);
            }
        }
        return None;
    }
    let b0 = bytes[pos];
    if b0 == 0 {
        match decode_valid_transaction(bytes, pos + 1) {
            Option::Some((v, n)) => {
                let t: TransactionValidity = Ok(v);
                proof {
                    assert(bytes@.subrange(pos as int, pos + 1) =~= seq![0u8]);
                    lemma_occurs_join(
                        bytes@,
                        pos as int,
                        seq![0u8],
                        valid_transaction_bytes(v),
                    );
                }
                Some((t, n))
            },
            Option::None => {
                proof {
                    assert forall|t: TransactionValidity|
                        (t matches Ok(v) ==> valid_transaction_encodable(
                            v,
                        )) implies !crate::scale::occurs_at(
                        bytes@,
                        pos as int,
                        transaction_validity_bytes(t),
                    ) by {
                        if crate::scale::occurs_at(
                            bytes@,
                            pos as int,
                            transaction_validity_bytes(t),
                        ) {
                            assert(transaction_validity_bytes(t)[0] == bytes@[pos as int]);
                            match t {
                                Ok(v) => {
                                    lemma_occurs_split(
                                        bytes@,
                                        pos as int,
                                        seq![0u8],
                                        valid_transaction_bytes(v),
                                    );
                                    assert(false);
                                },
                                Err(e) => {
                                    assert((seq![1u8] + validity_error_bytes(e))[0] == 1u8);
                                    assert(false);
                                },
                            }
                        }
                    }
                }
                None
            },
        }
    } else if b0 == 1 {
        match decode_validity_error(bytes, pos + 1) {
            Option::Some((e, n)) => {
                let t: TransactionValidity = Err(e);
                proof {
                    assert(bytes@.subrange(pos as int, pos + 1) =~= seq![1u8]);
                    lemma_occurs_join(bytes@, pos as int, seq![1u8], validity_error_bytes(e));
                }
                Some((t, n))
            },
            Option::None => {
                proof {
                    assert forall|t: TransactionValidity|
                        (t matches Ok(v) ==> valid_transaction_encodable(
                            v,
                        )) implies !crate::scale::occurs_at(
                        bytes@,
                        pos as int,
                        transaction_validity_bytes(t),
                    ) by {
                        if crate::scale::occurs_at(
                            bytes@,
                            pos as int,
                            transaction_validity_bytes(t),
                        ) {
                            assert(transaction_validity_bytes(t)[0] == bytes@[pos as int]);
                            match t {
                                Ok(v) => {
                                    assert((seq![0u8] + valid_transaction_bytes(v))[0] == 0u8);
                                    assert(false);
                                },
                                Err(e) => {
                                    lemma_occurs_split(
                                        bytes@,
                                        pos as int,
                                        seq![1u8],
                                        validity_error_bytes(e),
                                    );
                                    assert(false);
                                },
                            }
                        }
                    }
                }
                None
            },
        }
    } else {
        proof {
            assert forall|t: TransactionValidity|
                !crate::scale::occurs_at(bytes@, pos as int, transaction_validity_bytes(t)) by {
                if crate::scale::occurs_at(bytes@, pos as int, transaction_validity_bytes(t)) {
                    assert(transaction_validity_bytes(t)[0] == bytes@[pos as int]);
                }
            }
        }
        None
    }
}

} // verus!

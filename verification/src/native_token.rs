//! Native tokens of an output: amounts of tokens, each under its identifier, held
//! in ascending order of the identifiers, with no identifier twice.

use packable::bounded::{BoundedU16, TryIntoBoundedU16Error};
use packable::prefix::BoxedSlicePrefix;
use primitive_types::U256;
use std::cmp::Ordering;
use vstd::prelude::*;

verus! {

/// `primitive_types::U256`, a 256-bit unsigned integer. Its value is carried
/// through and never read here.
#[verifier::external_type_specification]
#[verifier::external_body]
pub struct ExU256(primitive_types::U256);

/// `packable::bounded::TryIntoBoundedU16Error`, the error of converting a `usize`
/// that is out of the bounds.
#[verifier::external_type_specification]
#[verifier::external_body]
pub struct ExTryIntoBoundedU16Error<const MIN: u16, const MAX: u16>(
    packable::bounded::TryIntoBoundedU16Error<MIN, MAX>,
);

/// Number of bytes of a token identifier.
pub const TOKEN_ID_LENGTH: usize = 38;

/// The identifier of a native token.
#[derive(Clone, Copy, Debug, PartialEq, Eq, PartialOrd, Ord, Hash)]
pub struct TokenId {
    bytes: [u8; 38],
}

impl View for TokenId {
    type V = Seq<u8>;

    closed spec fn view(&self) -> Seq<u8> {
        self.bytes@
    }
}

/// Whether `a` comes before `b` in the order of the dictionary: at the first
/// place where they differ, `a` has the smaller byte.
pub open spec fn precedes(a: Seq<u8>, b: Seq<u8>) -> bool {
    exists|k: int|
        0 <= k < a.len() && k < b.len() && #[trigger] a[k] < b[k] && a.take(k) == b.take(k)
}

impl TokenId {
    /// Wraps the bytes of an identifier.
    pub fn new(bytes: [u8; 38]) -> (id: Self)
        ensures
            id@ == bytes@,
    {
        TokenId { bytes }
    }

    /// The bytes of the identifier.
    pub fn as_bytes(&self) -> (bytes: &[u8; 38])
        ensures
            bytes@ == self@,
    {
        &self.bytes
    }

    /// An identifier has [`TOKEN_ID_LENGTH`] bytes, and is known by them.
    pub proof fn lemma_view(a: TokenId, b: TokenId)
        ensures
            a@.len() == 38,
            a@ == b@ ==> a == b,
    {
        if a@ == b@ {
            assert(a.bytes =~= b.bytes);
        }
    }

    /// The first place at which this identifier and `other` differ.
    pub fn first_difference(&self, other: &TokenId) -> (r: Option<usize>)
        ensures
            match r {
                Some(k) => k < 38 && self@[k as int] != other@[k as int] && self@.take(k as int)
                    == other@.take(k as int),
                None => self@ == other@,
            },
    {
        let mut i: usize = 0;
        while i < 38
            invariant
                i <= 38,
                self@.len() == 38,
                other@.len() == 38,
                forall|j: int| 0 <= j < i ==> self@[j] == other@[j],
            decreases 38 - i,
        {
            if self.bytes[i] != other.bytes[i] {
                assert(self@.take(i as int) =~= other@.take(i as int));
                return Some(i);
            }
            i += 1;
        }
        assert(self@ =~= other@);
        None
    }

    /// Compares this identifier with `other` in the order of the dictionary.
    pub fn order(&self, other: &TokenId) -> (o: Ordering)
        ensures
            o == Ordering::Less <==> precedes(self@, other@),
            o == Ordering::Greater <==> precedes(other@, self@),
            o == Ordering::Equal <==> self@ == other@,
    {
        proof {
            lemma_precedes_is_strict(self@, other@);
        }
        match self.first_difference(other) {
            None => Ordering::Equal,
            Some(k) => {
                if self.bytes[k] < other.bytes[k] {
                    Ordering::Less
                } else {
                    Ordering::Greater
                }
            },
        }
    }
}

/// Of two sequences of bytes at most one comes before the other, and then they
/// differ.
pub proof fn lemma_precedes_is_strict(a: Seq<u8>, b: Seq<u8>)
    ensures
        !(precedes(a, b) && precedes(b, a)),
        precedes(a, b) ==> a != b,
        precedes(b, a) ==> a != b,
{
    if precedes(a, b) {
        let k = choose|k: int|
            0 <= k < a.len() && k < b.len() && #[trigger] a[k] < b[k] && a.take(k) == b.take(k);
        if precedes(b, a) {
            let m = choose|m: int|
                0 <= m < b.len() && m < a.len() && #[trigger] b[m] < a[m] && b.take(m) == a.take(m);
            if k < m {
                assert(b.take(m)[k] == a.take(m)[k]);
            } else if m < k {
                assert(a.take(k)[m] == b.take(k)[m]);
            }
        }
    }
    if precedes(b, a) {
        let m = choose|m: int|
            0 <= m < b.len() && m < a.len() && #[trigger] b[m] < a[m] && b.take(m) == a.take(m);
    }
}

/// The order of the dictionary carries over: if `a` comes before `b` and `b`
/// before `c`, then `a` comes before `c`.
pub proof fn lemma_precedes_transitive(a: Seq<u8>, b: Seq<u8>, c: Seq<u8>)
    requires
        precedes(a, b),
        precedes(b, c),
    ensures
        precedes(a, c),
{
    let k = choose|k: int|
        0 <= k < a.len() && k < b.len() && #[trigger] a[k] < b[k] && a.take(k) == b.take(k);
    let m = choose|m: int|
        0 <= m < b.len() && m < c.len() && #[trigger] b[m] < c[m] && b.take(m) == c.take(m);
    let n = if k <= m {
        k
    } else {
        m
    };
    assert(a.take(n) =~= c.take(n)) by {
        assert forall|j: int| 0 <= j < n implies a[j] == c[j] by {
            assert(a.take(k)[j] == b.take(k)[j]);
            assert(b.take(m)[j] == c.take(m)[j]);
        }
    }
    if k < m {
        assert(b.take(m)[k] == c.take(m)[k]);
    } else if m < k {
        assert(a.take(k)[m] == b.take(k)[m]);
    }
    assert(a[n] < c[n]);
}

/// Why native tokens could not be put together.
#[derive(Clone, Copy, Debug, PartialEq, Eq, Structural)]
pub enum Error {
    /// There are more native tokens than [`NativeTokens::COUNT_MAX`]; holds their
    /// number.
    InvalidNativeTokenCount(usize),
    /// Two native tokens have the same identifier.
    NativeTokensNotUniqueSorted,
}

/// An amount of a native token.
#[derive(Debug, PartialEq, Eq, PartialOrd, Ord)]
pub struct NativeToken {
    token_id: TokenId,
    amount: U256,
}

/// What a [`NativeToken`] holds.
pub struct NativeTokenView {
    /// The bytes of the identifier of the token.
    pub token_id: Seq<u8>,
    /// The amount of the token.
    pub amount: U256,
}

impl View for NativeToken {
    type V = NativeTokenView;

    closed spec fn view(&self) -> NativeTokenView {
        NativeTokenView { token_id: self.token_id@, amount: self.amount }
    }
}

impl Clone for NativeToken {
    fn clone(&self) -> (copy: Self)
        ensures
            copy@ == self@,
    {
        NativeToken { token_id: self.token_id, amount: self.amount }
    }
}

impl NativeToken {
    /// Creates a new [`NativeToken`].
    pub fn new(token_id: TokenId, amount: U256) -> (token: Self)
        ensures
            token@ == (NativeTokenView { token_id: token_id@, amount }),
    {
        NativeToken { token_id, amount }
    }

    /// Returns the token ID of the [`NativeToken`].
    pub fn token_id(&self) -> (id: &TokenId)
        ensures
            id@ == self@.token_id,
    {
        &self.token_id
    }

    /// Returns the amount of the [`NativeToken`].
    pub fn amount(&self) -> (amount: &U256)
        ensures
            *amount == self@.amount,
    {
        &self.amount
    }
}

/// Whether the identifiers of `tokens` ascend strictly, so that none occurs
/// twice.
pub open spec fn unique_sorted(tokens: Seq<NativeToken>) -> bool {
    forall|i: int, j: int|
        0 <= i < j < tokens.len() ==> precedes(
            (#[trigger] tokens[i])@.token_id,
            (#[trigger] tokens[j])@.token_id,
        )
}

/// Whether no identifier of `tokens` comes before that of a token further to the
/// front.
pub open spec fn ascending(tokens: Seq<NativeToken>) -> bool {
    forall|i: int, j: int|
        0 <= i < j < tokens.len() ==> !precedes(
            (#[trigger] tokens[j])@.token_id,
            (#[trigger] tokens[i])@.token_id,
        )
}

/// Whether no two of `tokens` have the same identifier.
pub open spec fn unique_ids(tokens: Seq<NativeToken>) -> bool {
    forall|i: int, j: int|
        0 <= i < j < tokens.len() ==> (#[trigger] tokens[i])@.token_id
            != (#[trigger] tokens[j])@.token_id
}

/// Whether `to` and `back` pair the places of `before` with those of `after`,
/// one to one, so that paired places hold the same token.
pub open spec fn pairs_places(
    before: Seq<NativeToken>,
    after: Seq<NativeToken>,
    to: Seq<int>,
    back: Seq<int>,
) -> bool {
    &&& after.len() == before.len()
    &&& to.len() == before.len()
    &&& back.len() == before.len()
    &&& forall|i: int|
        0 <= i < after.len() ==> 0 <= #[trigger] to[i] < before.len() && back[to[i]] == i
            && after[i] == before[to[i]]
    &&& forall|i: int|
        0 <= i < before.len() ==> 0 <= #[trigger] back[i] < after.len() && to[back[i]] == i
}

/// Whether `after` holds the tokens of `before` in another order: each as often
/// as `before` holds it.
pub open spec fn reordered(before: Seq<NativeToken>, after: Seq<NativeToken>) -> bool {
    exists|to: Seq<int>, back: Seq<int>| pairs_places(before, after, to, back)
}

/// Another order of tokens has an identifier twice exactly if the first has.
pub proof fn lemma_reordered_keeps_unique(before: Seq<NativeToken>, after: Seq<NativeToken>)
    requires
        reordered(before, after),
    ensures
        unique_ids(before) <==> unique_ids(after),
{
    let (to, back) = choose|to: Seq<int>, back: Seq<int>| pairs_places(before, after, to, back);
    if unique_ids(before) {
        assert forall|i: int, j: int| 0 <= i < j < after.len() implies (#[trigger] after[i])@.token_id
            != (#[trigger] after[j])@.token_id by {
            let a = to[i];
            let b = to[j];
            assert(back[a] == i && back[b] == j);
            if a < b {
                assert(before[a]@.token_id != before[b]@.token_id);
            } else {
                assert(before[b]@.token_id != before[a]@.token_id);
            }
        }
    }
    if unique_ids(after) {
        assert forall|i: int, j: int| 0 <= i < j < before.len() implies (
        #[trigger] before[i])@.token_id != (#[trigger] before[j])@.token_id by {
            let a = back[i];
            let b = back[j];
            assert(to[a] == i && to[b] == j);
            assert(after[a] == before[i] && after[b] == before[j]);
            if a < b {
                assert(after[a]@.token_id != after[b]@.token_id);
            } else {
                assert(after[b]@.token_id != after[a]@.token_id);
            }
        }
    }
}

/// Tokens in ascending order have no identifier twice exactly if their
/// identifiers ascend strictly.
pub proof fn lemma_ascending_unique(tokens: Seq<NativeToken>)
    requires
        ascending(tokens),
    ensures
        unique_ids(tokens) <==> unique_sorted(tokens),
{
    if unique_ids(tokens) {
        assert forall|i: int, j: int| 0 <= i < j < tokens.len() implies precedes(
            (#[trigger] tokens[i])@.token_id,
            (#[trigger] tokens[j])@.token_id,
        ) by {
            lemma_total(tokens[i].token_id, tokens[j].token_id);
        }
    }
    if unique_sorted(tokens) {
        assert forall|i: int, j: int| 0 <= i < j < tokens.len() implies (#[trigger] tokens[i])@.token_id
            != (#[trigger] tokens[j])@.token_id by {
            lemma_precedes_is_strict(tokens[i]@.token_id, tokens[j]@.token_id);
        }
    }
}

/// Of two identifiers that differ, one comes before the other.
pub proof fn lemma_total(a: TokenId, b: TokenId)
    ensures
        a@ == b@ || precedes(a@, b@) || precedes(b@, a@),
{
    TokenId::lemma_view(a, b);
    TokenId::lemma_view(b, a);
    if a@ != b@ {
        assert(a@.take(38) =~= a@);
        assert(b@.take(38) =~= b@);
        lemma_first_difference(a@, b@, 38);
    }
}

/// Two sequences of bytes that differ within their first `n` places differ at a
/// first place.
proof fn lemma_first_difference(a: Seq<u8>, b: Seq<u8>, n: int)
    requires
        0 <= n <= a.len(),
        n <= b.len(),
        a.take(n) != b.take(n),
    ensures
        precedes(a, b) || precedes(b, a),
    decreases n,
{
    if n == 0 {
        assert(a.take(0) =~= b.take(0));
    } else if a.take(n - 1) != b.take(n - 1) {
        lemma_first_difference(a, b, n - 1);
    } else {
        let k = n - 1;
        if a[k] == b[k] {
            assert(a.take(n) =~= a.take(k).push(a[k]));
            assert(b.take(n) =~= b.take(k).push(b[k]));
        } else if a[k] < b[k] {
            assert(precedes(a, b));
        } else {
            assert(b[k] < a[k]);
            assert(b.take(k) == a.take(k));
            assert(precedes(b, a));
        }
    }
}

/// The number of native tokens of an output, within its bounds.
pub type NativeTokenCount = BoundedU16<0, 256>;

/// Native tokens in ascending order of their identifiers, none of which occurs
/// twice; at most [`NativeTokens::COUNT_MAX`] of them.
///
/// They are held in a `packable::prefix::BoxedSlicePrefix`, which is not read
/// here but through the functions below.
#[verifier::external_body]
#[derive(Debug, PartialEq, Eq, PartialOrd, Ord)]
pub struct NativeTokens(BoxedSlicePrefix<NativeToken, NativeTokenCount>);

/// The tokens that `tokens` holds, in their order.
pub uninterp spec fn held_tokens(tokens: NativeTokens) -> Seq<NativeToken>;

impl View for NativeTokens {
    type V = Seq<NativeToken>;

    open spec fn view(&self) -> Seq<NativeToken> {
        held_tokens(*self)
    }
}

/// Puts `tokens` into a `BoxedSlicePrefix` by its `TryFrom<Box<[T]>>`, which
/// takes the slice as it is if the bounds of its length allow that many items,
/// and fails if not. The bounds here are 0 and 256.
#[verifier::external_body]
fn bounded(tokens: Vec<NativeToken>) -> (r: Result<NativeTokens, TryIntoBoundedU16Error<0, 256>>)
    ensures
        r is Ok <==> tokens@.len() <= 256,
        r matches Ok(held) ==> held_tokens(held) == tokens@,
{
    match BoxedSlicePrefix::try_from(tokens.into_boxed_slice()) {
        Ok(prefix) => Ok(NativeTokens(prefix)),
        Err(e) => Err(e),
    }
}

/// Sorts the tokens by `<[T]>::sort_by` with [`TokenId::order`] on their
/// identifiers: afterwards they are in ascending order, and are the same tokens
/// as before.
#[verifier::external_body]
fn sort_by_token_id(tokens: &mut NativeTokens)
    ensures
        ascending(held_tokens(*final(tokens))),
        reordered(held_tokens(*old(tokens)), held_tokens(*final(tokens))),
{
    tokens.0.sort_by(|a, b| a.token_id.order(&b.token_id));
}

/// The tokens as a slice, by the `Deref` of `BoxedSlicePrefix`.
#[verifier::external_body]
fn as_slice(tokens: &NativeTokens) -> (slice: &[NativeToken])
    ensures
        slice@ == held_tokens(*tokens),
{
    &tokens.0
}

impl Clone for NativeTokens {
    /// Copies the tokens by the `Clone` of `BoxedSlicePrefix`, which copies the
    /// boxed slice item by item.
    #[verifier::external_body]
    fn clone(&self) -> (copy: Self)
        ensures
            held_tokens(copy) == held_tokens(*self),
    {
        NativeTokens(self.0.clone())
    }
}

impl std::ops::Deref for NativeTokens {
    type Target = [NativeToken];

    fn deref(&self) -> (slice: &[NativeToken])
        ensures
            slice@ == self@,
    {
        as_slice(self)
    }
}

impl TryFrom<Vec<NativeToken>> for NativeTokens {
    type Error = Error;

    /// Creates a new `NativeTokens`, as [`NativeTokens::new`] does.
    fn try_from(native_tokens: Vec<NativeToken>) -> (r: Result<Self, Self::Error>)
        ensures
            native_tokens@.len() > 256 ==> r == Err::<Self, Error>(
                Error::InvalidNativeTokenCount(native_tokens@.len() as usize),
            ),
            native_tokens@.len() <= 256 && !unique_ids(native_tokens@) ==> r == Err::<Self, Error>(
                Error::NativeTokensNotUniqueSorted,
            ),
            native_tokens@.len() <= 256 && unique_ids(native_tokens@) ==> (r matches Ok(tokens)
                && unique_sorted(tokens@) && reordered(native_tokens@, tokens@)),
    {
        Self::new(native_tokens)
    }
}

impl vstd::std_specs::convert::TryFromSpecImpl<Vec<NativeToken>> for NativeTokens {
    /// The result is stated by the clauses of `try_from` itself: it is not a
    /// function of the argument that could be written down here.
    open spec fn obeys_try_from_spec() -> bool {
        false
    }

    open spec fn try_from_spec(native_tokens: Vec<NativeToken>) -> Result<Self, Error> {
        Err(Error::NativeTokensNotUniqueSorted)
    }
}

impl NativeTokens {
    /// Maximum possible number of different native tokens that can reside in one output.
    pub const COUNT_MAX: u16 = 256;

    /// Creates a new `NativeTokens`: sorts `native_tokens` by their identifiers.
    /// Fails if there are more than [`Self::COUNT_MAX`], or if two of them have
    /// the same identifier.
    pub fn new(native_tokens: Vec<NativeToken>) -> (r: Result<Self, Error>)
        ensures
            native_tokens@.len() > 256 ==> r == Err::<Self, Error>(
                Error::InvalidNativeTokenCount(native_tokens@.len() as usize),
            ),
            native_tokens@.len() <= 256 && !unique_ids(native_tokens@) ==> r == Err::<Self, Error>(
                Error::NativeTokensNotUniqueSorted,
            ),
            native_tokens@.len() <= 256 && unique_ids(native_tokens@) ==> (r matches Ok(tokens)
                && unique_sorted(tokens@) && reordered(native_tokens@, tokens@)),
    {
        let count = native_tokens.len();
        let mut tokens = match bounded(native_tokens) {
            Ok(tokens) => tokens,
            Err(_) => {
                return Err(Error::InvalidNativeTokenCount(count));
            },
        };
        sort_by_token_id(&mut tokens);
        proof {
            lemma_reordered_keeps_unique(native_tokens@, tokens@);
            lemma_ascending_unique(tokens@);
        }
        // Sort is obviously fine now but uniqueness still needs to be checked.
        match validate_unique_sorted::<true>(as_slice(&tokens)) {
            Ok(()) => Ok(tokens),
            Err(e) => Err(e),
        }
    }

    /// The number of native tokens.
    pub fn len(&self) -> (n: usize)
        ensures
            n == self@.len(),
    {
        as_slice(self).len()
    }

    /// The native tokens, in ascending order of their identifiers.
    pub fn as_slice(&self) -> (slice: &[NativeToken])
        ensures
            slice@ == self@,
    {
        as_slice(self)
    }
}

/// Checks that the identifiers of `native_tokens` ascend strictly, where `VERIFY`
/// asks for the check.
pub fn validate_unique_sorted<const VERIFY: bool>(native_tokens: &[NativeToken]) -> (r: Result<
    (),
    Error,
>)
    ensures
        r is Ok <==> !VERIFY || unique_sorted(native_tokens@),
        r is Err ==> r == Err::<(), Error>(Error::NativeTokensNotUniqueSorted),
{
    if VERIFY && !is_unique_sorted(native_tokens) {
        return Err(Error::NativeTokensNotUniqueSorted);
    }
    Ok(())
}

/// Whether the identifiers of `native_tokens` ascend strictly.
pub fn is_unique_sorted(native_tokens: &[NativeToken]) -> (b: bool)
    ensures
        b == unique_sorted(native_tokens@),
{
    let n = native_tokens.len();
    if n < 2 {
        return true;
    }
    let mut i: usize = 1;
    while i < n
        invariant
            1 <= i <= n,
            n == native_tokens@.len(),
            forall|a: int, b: int|
                0 <= a < b < i ==> precedes(
                    (#[trigger] native_tokens@[a])@.token_id,
                    (#[trigger] native_tokens@[b])@.token_id,
                ),
        decreases n - i,
    {
        let rising = first_precedes(&native_tokens[i - 1], &native_tokens[i]);
        if !rising {
            return false;
        }
        proof {
            assert forall|a: int, b: int| 0 <= a < b < i + 1 implies precedes(
                (#[trigger] native_tokens@[a])@.token_id,
                (#[trigger] native_tokens@[b])@.token_id,
            ) by {
                if b == i && a < i - 1 {
                    lemma_precedes_transitive(
                        native_tokens@[a]@.token_id,
                        native_tokens@[i - 1]@.token_id,
                        native_tokens@[i as int]@.token_id,
                    );
                }
            }
        }
        i += 1;
    }
    true
}

/// Whether the identifier of `a` comes before that of `b`.
fn first_precedes(a: &NativeToken, b: &NativeToken) -> (r: bool)
    ensures
        r == precedes(a@.token_id, b@.token_id),
{
    match a.token_id.first_difference(&b.token_id) {
        None => {
            proof {
                lemma_precedes_is_strict(a@.token_id, b@.token_id);
            }
            false
        },
        Some(k) => {
            proof {
                lemma_precedes_is_strict(a@.token_id, b@.token_id);
            }
            a.token_id.bytes[k] < b.token_id.bytes[k]
        },
    }
}

} // verus!

use crate::config::Endpoint;
use crate::config::Intensity;
use crate::error::ExposurelibError;
use crate::time::le_bytes_of;
use crate::time::Duration;
use crate::time::ExposureTime;
use crate::time::NANOS_PER_INTERVAL;
use aes::cipher::BlockCipherEncrypt;
use aes::cipher::KeyInit;
use vstd::prelude::*;
use vstd::std_specs::cmp::PartialEqSpecImpl;
use vstd::std_specs::convert::FromSpecImpl;
use vstd::std_specs::convert::TryFromSpecImpl;

verus! {

/// The TEK rolling period: how long one temporary exposure key stays in use, as a
/// positive number of ten-minute intervals.
#[derive(Copy, Clone, Debug)]
pub struct TekRollingPeriod(pub(crate) u16);

impl View for TekRollingPeriod {
    type V = int;

    open(crate) spec fn view(&self) -> int {
        self.0 as int
    }
}

impl TekRollingPeriod {
    #[verifier::type_invariant]
    spec fn positive(self) -> bool {
        self.0 > 0
    }

    /// A rolling period of `intervals` ten-minute intervals; none for a period of no length.
    pub fn new(intervals: u16) -> (r: Option<Self>)
        ensures
            r is Some <==> intervals > 0,
            r is Some ==> r->0@ == intervals,
    {
        if intervals > 0 {
            Some(TekRollingPeriod(intervals))
        } else {
            None
        }
    }

    /// The number of ten-minute intervals in the period.
    pub fn intervals(&self) -> (n: u16)
        ensures
            n == self@,
            n > 0,
    {
        proof {
            use_type_invariant(self);
        }
        self.0
    }
}

impl Default for TekRollingPeriod {
    /// One day.
    fn default() -> (r: Self)
        ensures
            r@ == 144,
    {
        TekRollingPeriod(144)
    }
}

impl From<TekRollingPeriod> for u32 {
    fn from(tekrp: TekRollingPeriod) -> (n: u32)
        ensures
            n == tekrp@,
    {
        tekrp.0 as u32
    }
}

impl FromSpecImpl<TekRollingPeriod> for u32 {
    open spec fn obeys_from_spec() -> bool {
        true
    }

    open(crate) spec fn from_spec(tekrp: TekRollingPeriod) -> u32 {
        tekrp@ as u32
    }
}

impl From<TekRollingPeriod> for Duration {
    fn from(tekrp: TekRollingPeriod) -> (d: Duration)
        ensures
            d@ == tekrp@ * NANOS_PER_INTERVAL,
    {
        let intervals: i128 = tekrp.0 as i128;
        Duration::nanoseconds(intervals * NANOS_PER_INTERVAL)
    }
}

impl FromSpecImpl<TekRollingPeriod> for Duration {
    open spec fn obeys_from_spec() -> bool {
        true
    }

    open(crate) spec fn from_spec(tekrp: TekRollingPeriod) -> Duration {
        Duration { nanos: (tekrp@ * NANOS_PER_INTERVAL) as i128 }
    }
}

/// The infection period: for how many TEK rolling periods keys are kept and published, a
/// positive number.
#[derive(Copy, Clone, Debug)]
pub struct InfectionPeriod(pub(crate) u16);

impl View for InfectionPeriod {
    type V = int;

    open(crate) spec fn view(&self) -> int {
        self.0 as int
    }
}

impl InfectionPeriod {
    #[verifier::type_invariant]
    spec fn positive(self) -> bool {
        self.0 > 0
    }

    /// An infection period of `periods` rolling periods; none for a period of no length.
    pub fn new(periods: u16) -> (r: Option<Self>)
        ensures
            r is Some <==> periods > 0,
            r is Some ==> r->0@ == periods,
    {
        if periods > 0 {
            Some(InfectionPeriod(periods))
        } else {
            None
        }
    }

    /// The number of rolling periods in the infection period.
    pub fn periods(&self) -> (n: u16)
        ensures
            n == self@,
            n > 0,
    {
        proof {
            use_type_invariant(self);
        }
        self.0
    }

    /// The length of the infection period in time, for rolling periods of length `tekrp`.
    pub fn as_duration(&self, tekrp: TekRollingPeriod) -> (d: Duration)
        ensures
            d@ == self@ * tekrp@ * NANOS_PER_INTERVAL,
    {
        let periods: i128 = self.0 as i128;
        let intervals: i128 = tekrp.0 as i128;
        assert(periods * intervals <= 65535 * 65535) by (nonlinear_arith)
            requires
                0 <= periods <= 65535,
                0 <= intervals <= 65535,
        ;
        assert(0 <= periods * intervals) by (nonlinear_arith)
            requires
                0 <= periods,
                0 <= intervals,
        ;
        Duration::nanoseconds(periods * intervals * NANOS_PER_INTERVAL)
    }
}

impl Default for InfectionPeriod {
    /// Fourteen rolling periods.
    fn default() -> (r: Self)
        ensures
            r@ == 14,
    {
        InfectionPeriod(14)
    }
}

impl From<InfectionPeriod> for i32 {
    fn from(infection_period: InfectionPeriod) -> (n: i32)
        ensures
            n == infection_period@,
    {
        infection_period.0 as i32
    }
}

impl FromSpecImpl<InfectionPeriod> for i32 {
    open spec fn obeys_from_spec() -> bool {
        true
    }

    open(crate) spec fn from_spec(infection_period: InfectionPeriod) -> i32 {
        infection_period@ as i32
    }
}

impl From<InfectionPeriod> for usize {
    fn from(infection_period: InfectionPeriod) -> (n: usize)
        ensures
            n == infection_period@,
    {
        infection_period.0 as usize
    }
}

impl FromSpecImpl<InfectionPeriod> for usize {
    open spec fn obeys_from_spec() -> bool {
        true
    }

    open(crate) spec fn from_spec(infection_period: InfectionPeriod) -> usize {
        infection_period@ as usize
    }
}

/// The number that the diagnosis server gives to a computation.
#[derive(Copy, Clone, Debug, PartialEq, Eq, Structural, Hash)]
pub struct ComputationId {
    pub(crate) id: u32,
}

impl View for ComputationId {
    type V = int;

    open(crate) spec fn view(&self) -> int {
        self.id as int
    }
}

impl ComputationId {
    /// The number itself.
    pub fn id(&self) -> (n: u32)
        ensures
            n == self@,
    {
        self.id
    }
}

impl From<u32> for ComputationId {
    fn from(id: u32) -> (r: Self)
        ensures
            r@ == id,
    {
        ComputationId { id }
    }
}

impl FromSpecImpl<u32> for ComputationId {
    open spec fn obeys_from_spec() -> bool {
        true
    }

    open(crate) spec fn from_spec(id: u32) -> Self {
        ComputationId { id }
    }
}

/// The random number generator of the operating system.
#[verifier::external_type_specification]
#[verifier::external_body]
pub struct ExSystemRandom(ring::rand::SystemRandom);

/// The one error that the cryptographic primitives report.
#[verifier::external_type_specification]
#[verifier::external_body]
pub struct ExUnspecified(ring::error::Unspecified);

/// The sixteen bytes that HKDF with SHA-256 and an empty salt derives from
/// `key_material` for the context `info`.
pub uninterp spec fn hkdf_sha256_expand16(key_material: Seq<u8>, info: Seq<u8>) -> Seq<u8>;

/// The block that AES-128 under `key` encrypts `block` to.
pub uninterp spec fn aes128_encrypt_block(key: Seq<u8>, block: Seq<u8>) -> Seq<u8>;

/// Fills a buffer of `N` bytes with `ring::rand::SecureRandom::fill`. The bytes are
/// random, so nothing is said of them; the call may fail.
#[verifier::external_body]
fn random_bytes<const N: usize>(secure_random: &ring::rand::SystemRandom) -> (bytes: Result<
    [u8; N],
    ring::error::Unspecified,
>) {
    let mut key = [0u8; N];
    ring::rand::SecureRandom::fill(secure_random, &mut key)?;
    Ok(key)
}

/// Runs `ring::hkdf`: `Salt::new` with SHA-256 and an empty salt, `Salt::extract` on the
/// key material, `Prk::expand` with the one `info` for an output of sixteen bytes (the
/// length of an AES-128 key) and `Okm::fill`. The output depends on the two inputs
/// alone. Both fallible steps fail only for an output longer than 255 hashes or a buffer
/// of another length than asked for, neither of which is the case here.
#[verifier::external_body]
fn hkdf_sha256(key_material: &[u8], info: &[u8]) -> (okm: Result<
    [u8; 16],
    ring::error::Unspecified,
>)
    ensures
        okm is Ok,
        okm->Ok_0@ == hkdf_sha256_expand16(key_material@, info@),
{
    let mut key = [0u8; 16];
    ring::hkdf::Salt::new(ring::hkdf::HKDF_SHA256, &[])
        .extract(key_material)
        .expand(&[info], &ring::aead::AES_128_GCM)?
        .fill(&mut key)?;
    Ok(key)
}

/// Encrypts one block with `aes::Aes128`: `KeyInit::new` on the key, then
/// `BlockCipherEncrypt::encrypt_block` on a copy of the block. The output depends on the
/// two inputs alone.
#[verifier::external_body]
fn aes128_encrypt(key: &[u8; 16], block: &[u8; 16]) -> (out: [u8; 16])
    ensures
        out@ == aes128_encrypt_block(key@, block@),
{
    let cipher = aes::Aes128::new(&aes::cipher::Array::from(*key));
    let mut data = aes::cipher::Array::from(*block);
    cipher.encrypt_block(&mut data);
    data.into()
}

/// Whether two runs of sixteen bytes are the same.
fn bytes16_eq(a: &[u8; 16], b: &[u8; 16]) -> (r: bool)
    ensures
        r == (a@ == b@),
        r == (*a == *b),
{
    let mut i: usize = 0;
    while i < 16
        invariant
            i <= 16,
            forall|j: int| 0 <= j < i ==> a@[j] == b@[j],
        decreases 16 - i,
    {
        if a[i] != b[i] {
            return false;
        }
        i += 1;
    }
    assert(a@ =~= b@);
    assert(*a =~= *b);
    true
}

/// Whether two runs of ten bytes are the same.
fn bytes10_eq(a: &[u8; 10], b: &[u8; 10]) -> (r: bool)
    ensures
        r == (a@ == b@),
        r == (*a == *b),
{
    let mut i: usize = 0;
    while i < 10
        invariant
            i <= 10,
            forall|j: int| 0 <= j < i ==> a@[j] == b@[j],
        decreases 10 - i,
    {
        if a[i] != b[i] {
            return false;
        }
        i += 1;
    }
    assert(a@ =~= b@);
    assert(*a =~= *b);
    true
}

/// A key: a fixed number of bytes.
pub trait Key {
    /// The bytes of the key.
    spec fn bytes(&self) -> Seq<u8>;

    /// How many bytes a key of this kind has.
    spec fn key_len() -> nat;

    /// The bytes of the key.
    fn get(&self) -> (bytes: &[u8])
        ensures
            bytes@ == self.bytes(),
            bytes@.len() == Self::key_len(),
    ;
}

/// A temporary exposure key: sixteen random bytes, in use for one TEK rolling period.
#[derive(Copy, Clone, Debug, Eq, Hash)]
pub struct TemporaryExposureKey {
    pub(crate) key: [u8; 16],
}

impl View for TemporaryExposureKey {
    type V = Seq<u8>;

    open(crate) spec fn view(&self) -> Seq<u8> {
        self.key@
    }
}

impl PartialEq for TemporaryExposureKey {
    fn eq(&self, other: &Self) -> (r: bool) {
        bytes16_eq(&self.key, &other.key)
    }
}

impl PartialEqSpecImpl for TemporaryExposureKey {
    open spec fn obeys_eq_spec() -> bool {
        true
    }

    open spec fn eq_spec(&self, other: &Self) -> bool {
        self@ == other@
    }
}

impl TemporaryExposureKey {
    pub const KEY_LEN: usize = 16;

    /// A fresh random key.
    pub fn new(secure_random: &ring::rand::SystemRandom) -> (r: Result<Self, ExposurelibError>)
        ensures
            r is Err ==> r->Err_0 == ExposurelibError::RandomKeyGenerationError,
    {
        Self::from_generated(random_bytes::<16>(secure_random))
    }

    /// The key that the outcome of a random draw gives: the drawn bytes, or the error
    /// that the generator failed.
    pub fn from_generated(drawn: Result<[u8; 16], ring::error::Unspecified>) -> (r: Result<
        Self,
        ExposurelibError,
    >)
        ensures
            drawn is Ok ==> r is Ok && r->Ok_0@ == drawn->Ok_0@,
            drawn is Err ==> r == Err::<Self, ExposurelibError>(
                ExposurelibError::RandomKeyGenerationError,
            ),
    {
        match drawn {
            Ok(key) => Ok(TemporaryExposureKey { key }),
            Err(_) => Err(ExposurelibError::RandomKeyGenerationError),
        }
    }

    /// The key with the given bytes.
    pub fn from_bytes(key: [u8; 16]) -> (r: Self)
        ensures
            r@ == key@,
    {
        TemporaryExposureKey { key }
    }

    /// The bytes of the key.
    pub fn to_bytes(&self) -> (key: [u8; 16])
        ensures
            key@ == self@,
    {
        self.key
    }
}

impl Key for TemporaryExposureKey {
    open(crate) spec fn bytes(&self) -> Seq<u8> {
        self.key@
    }

    open spec fn key_len() -> nat {
        16
    }

    fn get(&self) -> (bytes: &[u8]) {
        self.key.as_slice()
    }
}

/// A seed: ten random bytes that go with a temporary exposure key.
#[derive(Copy, Clone, Debug, Eq, Hash)]
pub struct Seed {
    pub(crate) key: [u8; 10],
}

impl View for Seed {
    type V = Seq<u8>;

    open(crate) spec fn view(&self) -> Seq<u8> {
        self.key@
    }
}

impl PartialEq for Seed {
    fn eq(&self, other: &Self) -> (r: bool) {
        bytes10_eq(&self.key, &other.key)
    }
}

impl PartialEqSpecImpl for Seed {
    open spec fn obeys_eq_spec() -> bool {
        true
    }

    open spec fn eq_spec(&self, other: &Self) -> bool {
        self@ == other@
    }
}

impl Key for Seed {
    open(crate) spec fn bytes(&self) -> Seq<u8> {
        self.key@
    }

    open spec fn key_len() -> nat {
        10
    }

    fn get(&self) -> (bytes: &[u8]) {
        self.key.as_slice()
    }
}

impl Seed {
    pub const KEY_LEN: usize = 10;

    /// A fresh random seed.
    pub fn new(secure_random: &ring::rand::SystemRandom) -> (r: Result<Self, ExposurelibError>)
        ensures
            r is Err ==> r->Err_0 == ExposurelibError::RandomKeyGenerationError,
    {
        Self::from_generated(random_bytes::<10>(secure_random))
    }

    /// The seed that the outcome of a random draw gives: the drawn bytes, or the error
    /// that the generator failed.
    pub fn from_generated(drawn: Result<[u8; 10], ring::error::Unspecified>) -> (r: Result<
        Self,
        ExposurelibError,
    >)
        ensures
            drawn is Ok ==> r is Ok && r->Ok_0@ == drawn->Ok_0@,
            drawn is Err ==> r == Err::<Self, ExposurelibError>(
                ExposurelibError::RandomKeyGenerationError,
            ),
    {
        match drawn {
            Ok(key) => Ok(Seed { key }),
            Err(_) => Err(ExposurelibError::RandomKeyGenerationError),
        }
    }

    /// The seed with the given bytes.
    pub fn from_bytes(key: [u8; 10]) -> (r: Self)
        ensures
            r@ == key@,
    {
        Seed { key }
    }

    /// The bytes of the seed.
    pub fn to_bytes(&self) -> (key: [u8; 10])
        ensures
            key@ == self@,
    {
        self.key
    }
}

/// The key from which the rolling proximity identifiers of one temporary exposure key
/// are made.
#[derive(Copy, Clone, Debug, Eq, Hash)]
pub struct RollingProximityIdentifierKey {
    pub(crate) key: [u8; 16],
}

impl View for RollingProximityIdentifierKey {
    type V = Seq<u8>;

    open(crate) spec fn view(&self) -> Seq<u8> {
        self.key@
    }
}

impl PartialEq for RollingProximityIdentifierKey {
    fn eq(&self, other: &Self) -> (r: bool) {
        bytes16_eq(&self.key, &other.key)
    }
}

impl PartialEqSpecImpl for RollingProximityIdentifierKey {
    open spec fn obeys_eq_spec() -> bool {
        true
    }

    open spec fn eq_spec(&self, other: &Self) -> bool {
        self@ == other@
    }
}

impl Key for RollingProximityIdentifierKey {
    open(crate) spec fn bytes(&self) -> Seq<u8> {
        self.key@
    }

    open spec fn key_len() -> nat {
        16
    }

    fn get(&self) -> (bytes: &[u8]) {
        self.key.as_slice()
    }
}

impl RollingProximityIdentifierKey {
    pub const KEY_LEN: usize = 16;

    /// The context that tells this derivation from the others.
    pub open spec fn info() -> Seq<u8> {
        seq![0x45u8, 0x4e, 0x2d, 0x52, 0x50, 0x49, 0x4b]
    }

    /// The key that belongs to the temporary exposure key `key_material`.
    pub fn new(key_material: &TemporaryExposureKey) -> (r: Result<Self, ExposurelibError>)
        ensures
            r is Ok,
            r->Ok_0@ == hkdf_sha256_expand16(key_material@, Self::info()),
    {
        let info: [u8; 7] = [0x45, 0x4e, 0x2d, 0x52, 0x50, 0x49, 0x4b];
        assert(info@ =~= Self::info());
        match hkdf_sha256(key_material.get(), info.as_slice()) {
            Ok(key) => Ok(RollingProximityIdentifierKey { key }),
            Err(_) => Err(ExposurelibError::KeyDerivationError),
        }
    }

    /// The key with the given bytes.
    pub fn from_bytes(key: [u8; 16]) -> (r: Self)
        ensures
            r@ == key@,
    {
        RollingProximityIdentifierKey { key }
    }

    /// The bytes of the key.
    pub fn to_bytes(&self) -> (key: [u8; 16])
        ensures
            key@ == self@,
    {
        self.key
    }
}

/// The key under which the metadata that goes with a rolling proximity identifier is
/// encrypted.
#[derive(Copy, Clone, Debug, Eq, Hash)]
pub struct AssociatedEncryptedMetadataKey {
    pub(crate) key: [u8; 16],
}

impl View for AssociatedEncryptedMetadataKey {
    type V = Seq<u8>;

    open(crate) spec fn view(&self) -> Seq<u8> {
        self.key@
    }
}

impl PartialEq for AssociatedEncryptedMetadataKey {
    fn eq(&self, other: &Self) -> (r: bool) {
        bytes16_eq(&self.key, &other.key)
    }
}

impl PartialEqSpecImpl for AssociatedEncryptedMetadataKey {
    open spec fn obeys_eq_spec() -> bool {
        true
    }

    open spec fn eq_spec(&self, other: &Self) -> bool {
        self@ == other@
    }
}

impl Key for AssociatedEncryptedMetadataKey {
    open(crate) spec fn bytes(&self) -> Seq<u8> {
        self.key@
    }

    open spec fn key_len() -> nat {
        16
    }

    fn get(&self) -> (bytes: &[u8]) {
        self.key.as_slice()
    }
}

impl AssociatedEncryptedMetadataKey {
    pub const KEY_LEN: usize = 16;

    /// The context that tells this derivation from the others.
    pub open spec fn info() -> Seq<u8> {
        seq![0x45u8, 0x4e, 0x2d, 0x41, 0x45, 0x4d, 0x4b]
    }

    /// The key that belongs to the temporary exposure key `key_material`.
    pub fn new(key_material: &TemporaryExposureKey) -> (r: Result<Self, ExposurelibError>)
        ensures
            r is Ok,
            r->Ok_0@ == hkdf_sha256_expand16(key_material@, Self::info()),
    {
        let info: [u8; 7] = [0x45, 0x4e, 0x2d, 0x41, 0x45, 0x4d, 0x4b];
        assert(info@ =~= Self::info());
        match hkdf_sha256(key_material.get(), info.as_slice()) {
            Ok(key) => Ok(AssociatedEncryptedMetadataKey { key }),
            Err(_) => Err(ExposurelibError::KeyDerivationError),
        }
    }

    /// The key with the given bytes.
    pub fn from_bytes(key: [u8; 16]) -> (r: Self)
        ensures
            r@ == key@,
    {
        AssociatedEncryptedMetadataKey { key }
    }

    /// The bytes of the key.
    pub fn to_bytes(&self) -> (key: [u8; 16])
        ensures
            key@ == self@,
    {
        self.key
    }
}

/// The symmetric key that belongs to a seed.
#[derive(Copy, Clone, Debug, Eq, Hash)]
pub struct PublicKeySymmetricKey {
    pub(crate) key: [u8; 16],
}

impl View for PublicKeySymmetricKey {
    type V = Seq<u8>;

    open(crate) spec fn view(&self) -> Seq<u8> {
        self.key@
    }
}

impl PartialEq for PublicKeySymmetricKey {
    fn eq(&self, other: &Self) -> (r: bool) {
        bytes16_eq(&self.key, &other.key)
    }
}

impl PartialEqSpecImpl for PublicKeySymmetricKey {
    open spec fn obeys_eq_spec() -> bool {
        true
    }

    open spec fn eq_spec(&self, other: &Self) -> bool {
        self@ == other@
    }
}

impl Key for PublicKeySymmetricKey {
    open(crate) spec fn bytes(&self) -> Seq<u8> {
        self.key@
    }

    open spec fn key_len() -> nat {
        16
    }

    fn get(&self) -> (bytes: &[u8]) {
        self.key.as_slice()
    }
}

impl PublicKeySymmetricKey {
    pub const KEY_LEN: usize = 16;

    /// The context that tells this derivation from the others.
    pub open spec fn info() -> Seq<u8> {
        seq![0x45u8, 0x4e, 0x2d, 0x50, 0x4b, 0x53, 0x4b]
    }

    /// The key that belongs to the seed `key_material`.
    pub fn new(key_material: &Seed) -> (r: Result<Self, ExposurelibError>)
        ensures
            r is Ok,
            r->Ok_0@ == hkdf_sha256_expand16(key_material@, Self::info()),
    {
        let info: [u8; 7] = [0x45, 0x4e, 0x2d, 0x50, 0x4b, 0x53, 0x4b];
        assert(info@ =~= Self::info());
        match hkdf_sha256(key_material.get(), info.as_slice()) {
            Ok(key) => Ok(PublicKeySymmetricKey { key }),
            Err(_) => Err(ExposurelibError::KeyDerivationError),
        }
    }

    /// The key with the given bytes.
    pub fn from_bytes(key: [u8; 16]) -> (r: Self)
        ensures
            r@ == key@,
    {
        PublicKeySymmetricKey { key }
    }

    /// The bytes of the key.
    pub fn to_bytes(&self) -> (key: [u8; 16])
        ensures
            key@ == self@,
    {
        self.key
    }
}

/// A rolling proximity identifier: what a participant broadcasts during one ten-minute
/// interval.
#[derive(Copy, Clone, Debug, Eq, Hash)]
pub struct RollingProximityIdentifier {
    pub(crate) key: [u8; 16],
}

impl View for RollingProximityIdentifier {
    type V = Seq<u8>;

    open(crate) spec fn view(&self) -> Seq<u8> {
        self.key@
    }
}

impl PartialEq for RollingProximityIdentifier {
    fn eq(&self, other: &Self) -> (r: bool) {
        bytes16_eq(&self.key, &other.key)
    }
}

impl PartialEqSpecImpl for RollingProximityIdentifier {
    open spec fn obeys_eq_spec() -> bool {
        true
    }

    open spec fn eq_spec(&self, other: &Self) -> bool {
        self@ == other@
    }
}

impl Key for RollingProximityIdentifier {
    open(crate) spec fn bytes(&self) -> Seq<u8> {
        self.key@
    }

    open spec fn key_len() -> nat {
        16
    }

    fn get(&self) -> (bytes: &[u8]) {
        self.key.as_slice()
    }
}

impl RollingProximityIdentifier {
    pub const KEY_LEN: usize = 16;

    /// The block that is encrypted for the interval `number`: the letters `EN-RPI`, six
    /// zero bytes, and the number in four bytes, least significant first.
    pub open spec fn padded(number: int) -> Seq<u8> {
        seq![0x45u8, 0x4e, 0x2d, 0x52, 0x50, 0x49, 0, 0, 0, 0, 0, 0] + le_bytes_of(number)
    }

    /// The identifier for the interval `number` under the key `rpik`.
    pub open spec fn derived(rpik: Seq<u8>, number: int) -> Seq<u8> {
        aes128_encrypt_block(rpik, Self::padded(number))
    }

    /// The identifier that belongs to the key `rpik` during the interval `j`.
    pub fn new(rpik: &RollingProximityIdentifierKey, j: ExposureTime) -> (r: Self)
        ensures
            r@ == Self::derived(rpik@, j@),
            r@.len() == 16,
    {
        let data: [u8; 16] = Self::padded_data(j);
        RollingProximityIdentifier { key: aes128_encrypt(&rpik.key, &data) }
    }

    /// The block that is encrypted for the interval `j`.
    pub fn padded_data(j: ExposureTime) -> (block: [u8; 16])
        ensures
            block@ == Self::padded(j@),
    {
        let number: [u8; 4] = j.to_le_bytes();
        let block: [u8; 16] = [
            0x45,
            0x4e,
            0x2d,
            0x52,
            0x50,
            0x49,
            0,
            0,
            0,
            0,
            0,
            0,
            number[0],
            number[1],
            number[2],
            number[3],
        ];
        assert(block@ =~= Self::padded(j@));
        block
    }

    /// The identifier with the given bytes.
    pub fn from_bytes(key: [u8; 16]) -> (r: Self)
        ensures
            r@ == key@,
    {
        RollingProximityIdentifier { key }
    }

    /// The bytes of the identifier.
    pub fn to_bytes(&self) -> (key: [u8; 16])
        ensures
            key@ == self@,
    {
        self.key
    }
}

/// The identifier of an interval depends on the temporary exposure key and the interval
/// alone: equal keys give equal identifiers.
pub proof fn law_rpi_deterministic(tek_a: Seq<u8>, tek_b: Seq<u8>, number: int)
    requires
        tek_a == tek_b,
    ensures
        RollingProximityIdentifier::derived(
            hkdf_sha256_expand16(tek_a, RollingProximityIdentifierKey::info()),
            number,
        ) == RollingProximityIdentifier::derived(
            hkdf_sha256_expand16(tek_b, RollingProximityIdentifierKey::info()),
            number,
        ),
{
}

/// What a participant tells about itself and an encounter along with an identifier.
#[derive(Clone, Debug, Copy, PartialEq, Eq, Structural)]
pub struct Metadata {
    pub(crate) intensity: Intensity,
    pub(crate) connection_identifier: Endpoint,
}

impl Metadata {
    /// How intense the encounter was.
    pub open(crate) spec fn risk(self) -> Intensity {
        self.intensity
    }

    /// Where the broadcaster can be reached.
    pub open(crate) spec fn endpoint(self) -> Endpoint {
        self.connection_identifier
    }

    pub fn new(intensity: Intensity, connection_identifier: Endpoint) -> (r: Self)
        ensures
            r.risk() == intensity,
            r.endpoint() == connection_identifier,
    {
        Metadata { intensity, connection_identifier }
    }

    pub fn intensity(&self) -> (r: Intensity)
        ensures
            r == self.risk(),
    {
        self.intensity
    }

    pub fn connection_identifier(&self) -> (r: Endpoint)
        ensures
            r == self.endpoint(),
    {
        self.connection_identifier
    }
}

/// Metadata as it is broadcast. The metadata is carried as it is: nothing is hidden
/// from a receiver without the key.
#[derive(Debug, Clone, Copy, PartialEq, Eq, Structural)]
pub struct AssociatedEncryptedMetadata {
    pub(crate) ciphertext: Metadata,
}

impl AssociatedEncryptedMetadata {
    /// What is broadcast for `metadata` under the key `aemk` beside the identifier `rpi`.
    pub open(crate) spec fn sealed(aemk: Seq<u8>, rpi: Seq<u8>, metadata: Metadata) -> Self {
        AssociatedEncryptedMetadata { ciphertext: metadata }
    }

    /// The metadata that a holder of the key `aemk` reads beside the identifier `rpi`.
    pub open(crate) spec fn opened(self, aemk: Seq<u8>, rpi: Seq<u8>) -> Metadata {
        self.ciphertext
    }

    pub fn encrypt(
        aemk: &AssociatedEncryptedMetadataKey,
        rpi: &RollingProximityIdentifier,
        metadata: Metadata,
    ) -> (r: Self)
        ensures
            r == Self::sealed(aemk@, rpi@, metadata),
            r.opened(aemk@, rpi@) == metadata,
    {
        AssociatedEncryptedMetadata { ciphertext: metadata }
    }

    pub fn decrypt(
        &self,
        aemk: &AssociatedEncryptedMetadataKey,
        rpi: &RollingProximityIdentifier,
    ) -> (r: Metadata)
        ensures
            r == self.opened(aemk@, rpi@),
    {
        self.ciphertext
    }
}

/// Decrypting what was encrypted, with the same key and identifier, gives the metadata
/// back.
pub proof fn law_aem_round_trip(aemk: Seq<u8>, rpi: Seq<u8>, metadata: Metadata)
    ensures
        AssociatedEncryptedMetadata::sealed(aemk, rpi, metadata).opened(aemk, rpi) == metadata,
{
}

/// Something that is valid for one TEK rolling period, from `valid_from` on.
#[derive(Clone, Copy, Debug)]
pub struct Validity<Keyring> {
    pub(crate) valid_from: ExposureTime,
    pub(crate) keyring: Keyring,
}

impl<Keyring> Validity<Keyring> {
    /// The interval number at which the rolling period starts.
    pub open(crate) spec fn start(self) -> int {
        self.valid_from@
    }

    /// What is valid during the rolling period.
    pub open(crate) spec fn content(self) -> Keyring {
        self.keyring
    }

    /// `keyring`, valid during the rolling period of `tekrp` intervals that holds
    /// `exposure_time`.
    pub fn new(exposure_time: ExposureTime, tekrp: TekRollingPeriod, keyring: Keyring) -> (r: Self)
        ensures
            r.start() == ExposureTime::floor_of(exposure_time@, tekrp@),
            ExposureTime::floor_of(r.start(), tekrp@) == r.start(),
            r.content() == keyring,
    {
        proof {
            use_type_invariant(&tekrp);
            crate::time::law_floor_tekrp_multiple_idempotent(exposure_time@, tekrp@);
        }
        Validity { valid_from: exposure_time.floor_tekrp_multiple(tekrp), keyring }
    }

    pub fn keyring(&self) -> (r: &Keyring)
        ensures
            *r == self.content(),
    {
        &self.keyring
    }

    pub fn to_keyring(self) -> (r: Keyring)
        ensures
            r == self.content(),
    {
        self.keyring
    }

    pub fn valid_from(&self) -> (r: ExposureTime)
        ensures
            r@ == self.start(),
    {
        self.valid_from
    }

    /// The keyring, if `exposure_time` falls into the rolling period that it is valid
    /// for.
    pub fn query(&self, exposure_time: ExposureTime, tekrp: TekRollingPeriod) -> (r: Option<
        &Keyring,
    >)
        ensures
            ExposureTime::floor_of(exposure_time@, tekrp@) == self.start() ==> r == Some(
                &self.content(),
            ),
            ExposureTime::floor_of(exposure_time@, tekrp@) != self.start() ==> r is None,
    {
        if exposure_time.floor_tekrp_multiple(tekrp).en_interval_number
            == self.valid_from.en_interval_number {
            Some(self.keyring())
        } else {
            None
        }
    }
}

impl View for Validity<TemporaryExposureKey> {
    type V = (int, Seq<u8>);

    /// The start of the rolling period and the bytes of the key.
    open(crate) spec fn view(&self) -> (int, Seq<u8>) {
        (self.valid_from@, self.keyring@)
    }
}

impl PartialEq for Validity<TemporaryExposureKey> {
    fn eq(&self, other: &Self) -> (r: bool) {
        self.valid_from.en_interval_number == other.valid_from.en_interval_number
            && bytes16_eq(&self.keyring.key, &other.keyring.key)
    }
}

impl PartialEqSpecImpl for Validity<TemporaryExposureKey> {
    open spec fn obeys_eq_spec() -> bool {
        true
    }

    open spec fn eq_spec(&self, other: &Self) -> bool {
        self@ == other@
    }
}

/// A temporary exposure key with the two keys derived from it.
#[derive(Clone, Copy, Debug)]
pub struct TekKeyring {
    pub(crate) tek: TemporaryExposureKey,
    pub(crate) rpik: RollingProximityIdentifierKey,
    pub(crate) aemk: AssociatedEncryptedMetadataKey,
}

impl TekKeyring {
    /// The bytes of the temporary exposure key.
    pub open(crate) spec fn tek_bytes(self) -> Seq<u8> {
        self.tek@
    }

    /// The bytes of the rolling proximity identifier key.
    pub open(crate) spec fn rpik_bytes(self) -> Seq<u8> {
        self.rpik@
    }

    /// The bytes of the associated encrypted metadata key.
    pub open(crate) spec fn aemk_bytes(self) -> Seq<u8> {
        self.aemk@
    }

    /// Both derived keys are those that belong to the temporary exposure key.
    pub open spec fn wf(self) -> bool {
        &&& self.rpik_bytes() == hkdf_sha256_expand16(
            self.tek_bytes(),
            RollingProximityIdentifierKey::info(),
        )
        &&& self.aemk_bytes() == hkdf_sha256_expand16(
            self.tek_bytes(),
            AssociatedEncryptedMetadataKey::info(),
        )
    }

    /// The keyring of the temporary exposure key `tek`.
    pub open(crate) spec fn derived_from(tek: TemporaryExposureKey) -> TekKeyring {
        choose|keyring: TekKeyring| keyring.tek == tek && keyring.wf()
    }

    pub fn tek(&self) -> (r: &TemporaryExposureKey)
        ensures
            r@ == self.tek_bytes(),
    {
        &self.tek
    }

    pub fn rpik(&self) -> (r: &RollingProximityIdentifierKey)
        ensures
            r@ == self.rpik_bytes(),
    {
        &self.rpik
    }

    pub fn aemk(&self) -> (r: &AssociatedEncryptedMetadataKey)
        ensures
            r@ == self.aemk_bytes(),
    {
        &self.aemk
    }

    /// The identifier that the owner of the keyring broadcasts during the interval `at`.
    pub fn rpi(&self, at: ExposureTime) -> (r: RollingProximityIdentifier)
        ensures
            r@ == RollingProximityIdentifier::derived(self.rpik_bytes(), at@),
    {
        RollingProximityIdentifier::new(&self.rpik, at)
    }

    fn aem(&self, rpi: &RollingProximityIdentifier, metadata: Metadata) -> (r:
        AssociatedEncryptedMetadata)
        ensures
            r == AssociatedEncryptedMetadata::sealed(self.aemk_bytes(), rpi@, metadata),
    {
        AssociatedEncryptedMetadata::encrypt(&self.aemk, rpi, metadata)
    }

    /// What the owner of the keyring broadcasts during the interval `at` to tell
    /// `metadata`: the identifier and the encrypted metadata.
    pub fn rpi_and_aem(&self, at: ExposureTime, metadata: Metadata) -> (r: (
        RollingProximityIdentifier,
        AssociatedEncryptedMetadata,
    ))
        ensures
            r.0@ == RollingProximityIdentifier::derived(self.rpik_bytes(), at@),
            r.1 == AssociatedEncryptedMetadata::sealed(self.aemk_bytes(), r.0@, metadata),
            r.1.opened(self.aemk_bytes(), r.0@) == metadata,
    {
        let rpi = self.rpi(at);
        let aem = self.aem(&rpi, metadata);
        (rpi, aem)
    }
}

/// A temporary exposure key has one keyring: two keyrings of the same key whose derived
/// keys are in order are the same.
pub proof fn lemma_tek_keyring_unique(a: TekKeyring, b: TekKeyring)
    requires
        a.tek_bytes() == b.tek_bytes(),
        a.wf(),
        b.wf(),
    ensures
        a == b,
{
    assert(a.tek.key =~= b.tek.key);
    assert(a.rpik.key =~= b.rpik.key);
    assert(a.aemk.key =~= b.aemk.key);
}

impl TryFrom<TemporaryExposureKey> for TekKeyring {
    type Error = ExposurelibError;

    fn try_from(tek: TemporaryExposureKey) -> (r: Result<Self, ExposurelibError>)
        ensures
            r is Ok,
            r->Ok_0.wf(),
            r->Ok_0.tek_bytes() == tek@,
    {
        let rpik = match RollingProximityIdentifierKey::new(&tek) {
            Ok(rpik) => rpik,
            Err(e) => {
                return Err(e);
            },
        };
        let aemk = match AssociatedEncryptedMetadataKey::new(&tek) {
            Ok(aemk) => aemk,
            Err(e) => {
                return Err(e);
            },
        };
        let keyring = TekKeyring { tek, rpik, aemk };
        proof {
            assert(keyring.tek == tek && keyring.wf());
            lemma_tek_keyring_unique(keyring, TekKeyring::derived_from(tek));
        }
        Ok(keyring)
    }
}

impl TryFromSpecImpl<TemporaryExposureKey> for TekKeyring {
    open spec fn obeys_try_from_spec() -> bool {
        true
    }

    open(crate) spec fn try_from_spec(tek: TemporaryExposureKey) -> Result<Self, ExposurelibError> {
        Ok(TekKeyring::derived_from(tek))
    }
}

impl TryFrom<Validity<TemporaryExposureKey>> for Validity<TekKeyring> {
    type Error = ExposurelibError;

    fn try_from(tek_validity: Validity<TemporaryExposureKey>) -> (r: Result<
        Self,
        ExposurelibError,
    >)
        ensures
            r is Ok,
            r->Ok_0.start() == tek_validity.start(),
            r->Ok_0.content().wf(),
            r->Ok_0.content().tek_bytes() == tek_validity.content()@,
    {
        match TekKeyring::try_from(tek_validity.keyring) {
            Ok(keyring) => Ok(Validity { valid_from: tek_validity.valid_from, keyring }),
            Err(e) => Err(e),
        }
    }
}

impl TryFromSpecImpl<Validity<TemporaryExposureKey>> for Validity<TekKeyring> {
    open spec fn obeys_try_from_spec() -> bool {
        true
    }

    open(crate) spec fn try_from_spec(tek_validity: Validity<TemporaryExposureKey>) -> Result<
        Self,
        ExposurelibError,
    > {
        Ok(
            Validity {
                valid_from: tek_validity.valid_from,
                keyring: TekKeyring::derived_from(tek_validity.keyring),
            },
        )
    }
}

/// A seed with the key derived from it.
#[derive(Clone, Copy, Debug)]
pub struct SdKeyring {
    pub(crate) sd: Seed,
    pub(crate) pksk: PublicKeySymmetricKey,
}

impl SdKeyring {
    /// The bytes of the seed.
    pub open(crate) spec fn seed_bytes(self) -> Seq<u8> {
        self.sd@
    }

    /// The bytes of the symmetric key.
    pub open(crate) spec fn pksk_bytes(self) -> Seq<u8> {
        self.pksk@
    }

    /// The symmetric key is the one that belongs to the seed.
    pub open spec fn wf(self) -> bool {
        self.pksk_bytes() == hkdf_sha256_expand16(self.seed_bytes(), PublicKeySymmetricKey::info())
    }

    /// The keyring of the seed `sd`.
    pub open(crate) spec fn derived_from(sd: Seed) -> SdKeyring {
        choose|keyring: SdKeyring| keyring.sd == sd && keyring.wf()
    }

    pub fn sd(&self) -> (r: &Seed)
        ensures
            r@ == self.seed_bytes(),
    {
        &self.sd
    }

    pub fn pksk(&self) -> (r: &PublicKeySymmetricKey)
        ensures
            r@ == self.pksk_bytes(),
    {
        &self.pksk
    }
}

impl TryFrom<Seed> for SdKeyring {
    type Error = ExposurelibError;

    fn try_from(sd: Seed) -> (r: Result<Self, ExposurelibError>)
        ensures
            r is Ok,
            r->Ok_0.wf(),
            r->Ok_0.seed_bytes() == sd@,
    {
        match PublicKeySymmetricKey::new(&sd) {
            Ok(pksk) => {
                let keyring = SdKeyring { sd, pksk };
                proof {
                    let other = SdKeyring::derived_from(sd);
                    assert(keyring.sd == sd && keyring.wf());
                    assert(keyring.pksk.key =~= other.pksk.key);
                }
                Ok(keyring)
            },
            Err(e) => Err(e),
        }
    }
}

impl TryFromSpecImpl<Seed> for SdKeyring {
    open spec fn obeys_try_from_spec() -> bool {
        true
    }

    open(crate) spec fn try_from_spec(sd: Seed) -> Result<Self, ExposurelibError> {
        Ok(SdKeyring::derived_from(sd))
    }
}

/// All the keys of a participant for one TEK rolling period.
#[derive(Clone, Copy, Debug)]
pub struct ExposureKeyring {
    pub(crate) tek_keyring: TekKeyring,
    pub(crate) sd_keyring: SdKeyring,
}

impl ExposureKeyring {
    /// The part that belongs to the temporary exposure key.
    pub open(crate) spec fn tek_part(self) -> TekKeyring {
        self.tek_keyring
    }

    /// The part that belongs to the seed.
    pub open(crate) spec fn sd_part(self) -> SdKeyring {
        self.sd_keyring
    }

    /// All derived keys are those that belong to the temporary exposure key and the seed.
    pub open spec fn wf(self) -> bool {
        self.tek_part().wf() && self.sd_part().wf()
    }

    /// A keyring of a fresh random temporary exposure key and a fresh random seed.
    pub fn new(secure_random: &ring::rand::SystemRandom) -> (r: Result<Self, ExposurelibError>)
        ensures
            r is Ok ==> r->Ok_0.wf(),
            r is Err ==> r->Err_0 == ExposurelibError::RandomKeyGenerationError,
    {
        let tek = match TemporaryExposureKey::new(secure_random) {
            Ok(tek) => tek,
            Err(e) => {
                return Err(e);
            },
        };
        let sd = match Seed::new(secure_random) {
            Ok(sd) => sd,
            Err(e) => {
                return Err(e);
            },
        };
        Self::from_tek_and_sd(tek, sd)
    }

    /// The keyring of the temporary exposure key `tek` and the seed `sd`.
    pub fn from_tek_and_sd(tek: TemporaryExposureKey, sd: Seed) -> (r: Result<
        Self,
        ExposurelibError,
    >)
        ensures
            r is Ok,
            r->Ok_0.wf(),
            r->Ok_0.tek_part().tek_bytes() == tek@,
            r->Ok_0.sd_part().seed_bytes() == sd@,
    {
        let tek_keyring = match TekKeyring::try_from(tek) {
            Ok(tek_keyring) => tek_keyring,
            Err(e) => {
                return Err(e);
            },
        };
        let sd_keyring = match SdKeyring::try_from(sd) {
            Ok(sd_keyring) => sd_keyring,
            Err(e) => {
                return Err(e);
            },
        };
        Ok(ExposureKeyring { tek_keyring, sd_keyring })
    }

    pub fn tek_keyring(&self) -> (r: &TekKeyring)
        ensures
            *r == self.tek_part(),
    {
        &self.tek_keyring
    }

    pub fn sd_keyring(&self) -> (r: &SdKeyring)
        ensures
            *r == self.sd_part(),
    {
        &self.sd_keyring
    }
}

impl From<ExposureKeyring> for TemporaryExposureKey {
    fn from(exposure_keyring: ExposureKeyring) -> (r: Self)
        ensures
            r@ == exposure_keyring.tek_part().tek_bytes(),
    {
        exposure_keyring.tek_keyring.tek
    }
}

impl FromSpecImpl<ExposureKeyring> for TemporaryExposureKey {
    open spec fn obeys_from_spec() -> bool {
        true
    }

    open(crate) spec fn from_spec(exposure_keyring: ExposureKeyring) -> Self {
        exposure_keyring.tek_keyring.tek
    }
}

/// A key on its way along a chain of forwards: the key of the origin and the key of the
/// predecessor, valid from the same interval on.
#[derive(Clone, Copy, Debug)]
pub struct KeyForward {
    pub(crate) valid_from: ExposureTime,
    pub(crate) origin_tek: TemporaryExposureKey,
    pub(crate) predecessor_tek: TemporaryExposureKey,
}

impl KeyForward {
    /// The interval from which the keys are valid.
    pub open(crate) spec fn start(self) -> int {
        self.valid_from@
    }

    /// The bytes of the key of the origin.
    pub open(crate) spec fn origin(self) -> Seq<u8> {
        self.origin_tek@
    }

    /// The bytes of the key of the predecessor.
    pub open(crate) spec fn predecessor(self) -> Seq<u8> {
        self.predecessor_tek@
    }

    pub fn new(
        valid_from: ExposureTime,
        origin_tek: TemporaryExposureKey,
        predecessor_tek: TemporaryExposureKey,
    ) -> (r: Self)
        ensures
            r.start() == valid_from@,
            r.origin() == origin_tek@,
            r.predecessor() == predecessor_tek@,
    {
        KeyForward { valid_from, origin_tek, predecessor_tek }
    }

    pub fn valid_from(&self) -> (r: ExposureTime)
        ensures
            r@ == self.start(),
    {
        self.valid_from
    }

    pub fn origin_tek(&self) -> (r: TemporaryExposureKey)
        ensures
            r@ == self.origin(),
    {
        self.origin_tek
    }

    pub fn predecessor_tek(&self) -> (r: TemporaryExposureKey)
        ensures
            r@ == self.predecessor(),
    {
        self.predecessor_tek
    }
}

/// A key as it is uploaded: the key and the interval from which it is valid.
#[derive(Clone, Copy, Debug)]
pub struct KeyUpload {
    pub(crate) valid_from: ExposureTime,
    pub(crate) tek: TemporaryExposureKey,
}

impl KeyUpload {
    /// The interval from which the key is valid.
    pub open(crate) spec fn start(self) -> int {
        self.valid_from@
    }

    /// The bytes of the key.
    pub open(crate) spec fn key(self) -> Seq<u8> {
        self.tek@
    }

    pub fn new(valid_from: ExposureTime, tek: TemporaryExposureKey) -> (r: Self)
        ensures
            r.start() == valid_from@,
            r.key() == tek@,
    {
        KeyUpload { valid_from, tek }
    }

    pub fn valid_from(&self) -> (r: ExposureTime)
        ensures
            r@ == self.start(),
    {
        self.valid_from
    }

    pub fn tek(&self) -> (r: TemporaryExposureKey)
        ensures
            r@ == self.key(),
    {
        self.tek
    }
}

} // verus!

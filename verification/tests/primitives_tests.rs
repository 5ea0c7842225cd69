use exposurelib::config::{Endpoint, Intensity};
use exposurelib::error::ExposurelibError;
use exposurelib::primitives::{
    AssociatedEncryptedMetadata, AssociatedEncryptedMetadataKey, ComputationId, ExposureKeyring,
    Key, Metadata, PublicKeySymmetricKey, RollingProximityIdentifier,
    RollingProximityIdentifierKey, SdKeyring, Seed, TekKeyring, TekRollingPeriod,
    TemporaryExposureKey, Validity,
};
use exposurelib::time::ExposureTime;

fn tek() -> TemporaryExposureKey {
    TemporaryExposureKey::from_bytes([0, 1, 2, 3, 4, 5, 6, 7, 8, 9, 10, 11, 12, 13, 14, 15])
}

const PUBLISHED_TEK: [u8; 16] = [
    0x75, 0xc7, 0x34, 0xc6, 0xdd, 0x1a, 0x78, 0x2d, 0xe7, 0xa9, 0x65, 0xda, 0x5e, 0xb9, 0x31, 0x25,
];

#[test]
fn rpik_is_derived_with_hkdf() {
    let rpik = RollingProximityIdentifierKey::new(&tek()).unwrap();
    assert_eq!(
        rpik.to_bytes(),
        [76, 54, 21, 37, 0, 117, 224, 148, 228, 46, 27, 114, 229, 56, 222, 210]
    );
    assert_ne!(rpik.to_bytes(), tek().to_bytes());
    let published = RollingProximityIdentifierKey::new(&TemporaryExposureKey::from_bytes(
        PUBLISHED_TEK,
    ))
    .unwrap();
    assert_eq!(
        published.to_bytes(),
        [
            0x18, 0x5a, 0xd9, 0x1d, 0xb6, 0x9e, 0xc7, 0xdd, 0x04, 0x89, 0x60, 0xf1, 0xf3, 0xba,
            0x61, 0x75
        ]
    );
}

#[test]
fn aemk_is_derived_with_hkdf() {
    let aemk = AssociatedEncryptedMetadataKey::new(&tek()).unwrap();
    assert_eq!(
        aemk.to_bytes(),
        [52, 84, 221, 141, 140, 140, 131, 80, 41, 117, 76, 21, 223, 109, 68, 215]
    );
    let published = AssociatedEncryptedMetadataKey::new(&TemporaryExposureKey::from_bytes(
        PUBLISHED_TEK,
    ))
    .unwrap();
    assert_eq!(
        published.to_bytes(),
        [
            0xd5, 0x7c, 0x46, 0xaf, 0x7a, 0x1d, 0x83, 0x96, 0x5b, 0x9b, 0xed, 0x8b, 0xd1, 0x52,
            0x93, 0x6a
        ]
    );
}

#[test]
fn pksk_is_derived_with_hkdf() {
    let seed = Seed::from_bytes([0, 1, 2, 3, 4, 5, 6, 7, 8, 9]);
    let pksk = PublicKeySymmetricKey::new(&seed).unwrap();
    assert_eq!(
        pksk.to_bytes(),
        [105, 164, 47, 127, 49, 252, 64, 163, 67, 245, 5, 107, 101, 165, 142, 104]
    );
}

#[test]
fn padded_data_holds_label_and_interval() {
    assert_eq!(
        RollingProximityIdentifier::padded_data(ExposureTime::from(2_642_976)),
        [69, 78, 45, 82, 80, 73, 0, 0, 0, 0, 0, 0, 32, 84, 40, 0]
    );
    assert_eq!(
        RollingProximityIdentifier::padded_data(ExposureTime::from(0x0403_0201)),
        [b'E', b'N', b'-', b'R', b'P', b'I', 0, 0, 0, 0, 0, 0, 1, 2, 3, 4]
    );
}

#[test]
fn rpi_is_the_encrypted_padded_data() {
    let rpik = RollingProximityIdentifierKey::new(&tek()).unwrap();
    let j = ExposureTime::from(2_642_976);
    let rpi = RollingProximityIdentifier::new(&rpik, j);
    assert_eq!(
        rpi.to_bytes(),
        [38, 238, 84, 134, 168, 14, 80, 104, 250, 26, 114, 221, 57, 7, 169, 133]
    );
    assert_ne!(rpi.to_bytes(), RollingProximityIdentifier::padded_data(j));
    let published = RollingProximityIdentifierKey::new(&TemporaryExposureKey::from_bytes(
        PUBLISHED_TEK,
    ))
    .unwrap();
    assert_eq!(
        RollingProximityIdentifier::new(&published, j).to_bytes(),
        [
            0x8b, 0xe6, 0xcd, 0x37, 0x1c, 0x5c, 0x89, 0x16, 0x04, 0xbf, 0xbe, 0x49, 0xdf, 0x84,
            0x50, 0x96
        ]
    );
}

#[test]
fn rpi_is_deterministic_and_sixteen_bytes() {
    for first in 0..4u8 {
        let mut bytes = [7u8; 16];
        bytes[0] = first;
        let tek = TemporaryExposureKey::from_bytes(bytes);
        for j in [0u32, 1, 144, 2_642_976, u32::MAX] {
            let a = RollingProximityIdentifier::new(
                &RollingProximityIdentifierKey::new(&tek).unwrap(),
                ExposureTime::from(j),
            );
            let b = RollingProximityIdentifier::new(
                &RollingProximityIdentifierKey::new(&tek).unwrap(),
                ExposureTime::from(j),
            );
            assert_eq!(a, b);
            assert_eq!(a.get().len(), 16);
        }
    }
}

#[test]
fn keys_report_their_bytes() {
    assert_eq!(tek().get(), &tek().to_bytes()[..]);
    assert_eq!(TemporaryExposureKey::KEY_LEN, 16);
    assert_eq!(Seed::KEY_LEN, 10);
    assert_eq!(RollingProximityIdentifierKey::KEY_LEN, 16);
    assert_eq!(AssociatedEncryptedMetadataKey::KEY_LEN, 16);
    assert_eq!(PublicKeySymmetricKey::KEY_LEN, 16);
    assert_eq!(RollingProximityIdentifier::KEY_LEN, 16);
    assert_eq!(Seed::from_bytes([3; 10]).get().len(), 10);
    assert_eq!(Seed::from_bytes([3; 10]), Seed::from_bytes([3; 10]));
    assert_ne!(Seed::from_bytes([3; 10]), Seed::from_bytes([4; 10]));
    assert_ne!(tek(), TemporaryExposureKey::from_bytes([0; 16]));
}

#[test]
fn random_keys_come_from_the_generator() {
    let rng = ring::rand::SystemRandom::new();
    let a = TemporaryExposureKey::new(&rng).unwrap();
    let b = TemporaryExposureKey::new(&rng).unwrap();
    assert_ne!(a, b);
    let s = Seed::new(&rng).unwrap();
    let t = Seed::new(&rng).unwrap();
    assert_ne!(s, t);
    let keyring = ExposureKeyring::new(&rng).unwrap();
    let again = ExposureKeyring::from_tek_and_sd(
        *keyring.tek_keyring().tek(),
        *keyring.sd_keyring().sd(),
    )
    .unwrap();
    assert_eq!(keyring.tek_keyring().rpik(), again.tek_keyring().rpik());
    assert_eq!(keyring.tek_keyring().aemk(), again.tek_keyring().aemk());
    assert_eq!(keyring.sd_keyring().pksk(), again.sd_keyring().pksk());
}

#[test]
fn a_failed_draw_is_a_generation_error() {
    assert_eq!(
        TemporaryExposureKey::from_generated(Err(ring::error::Unspecified)),
        Err(ExposurelibError::RandomKeyGenerationError)
    );
    assert_eq!(
        Seed::from_generated(Err(ring::error::Unspecified)),
        Err(ExposurelibError::RandomKeyGenerationError)
    );
    assert_eq!(TemporaryExposureKey::from_generated(Ok([9; 16])), Ok(TemporaryExposureKey::from_bytes([9; 16])));
    assert_eq!(Seed::from_generated(Ok([9; 10])), Ok(Seed::from_bytes([9; 10])));
    assert_eq!(ExposurelibError::RandomKeyGenerationError.message(), "CSRNG error");
    assert_eq!(ExposurelibError::KeyDerivationError.message(), "HKDF error");
}

#[test]
fn keyrings_hold_the_derived_keys() {
    let keyring = TekKeyring::try_from(tek()).unwrap();
    assert_eq!(*keyring.tek(), tek());
    assert_eq!(*keyring.rpik(), RollingProximityIdentifierKey::new(&tek()).unwrap());
    assert_eq!(*keyring.aemk(), AssociatedEncryptedMetadataKey::new(&tek()).unwrap());
    let seed = Seed::from_bytes([1; 10]);
    let sd_keyring = SdKeyring::try_from(seed).unwrap();
    assert_eq!(*sd_keyring.sd(), seed);
    assert_eq!(*sd_keyring.pksk(), PublicKeySymmetricKey::new(&seed).unwrap());
    let exposure_keyring = ExposureKeyring::from_tek_and_sd(tek(), seed).unwrap();
    assert_eq!(*exposure_keyring.tek_keyring().tek(), tek());
    assert_eq!(*exposure_keyring.sd_keyring().sd(), seed);
    assert_eq!(TemporaryExposureKey::from(exposure_keyring), tek());
    let at = ExposureTime::from(2_642_976);
    assert_eq!(
        keyring.rpi(at),
        RollingProximityIdentifier::new(keyring.rpik(), at)
    );
}

#[test]
fn metadata_survives_encryption_and_decryption() {
    let keyring = TekKeyring::try_from(tek()).unwrap();
    let endpoints = [
        Endpoint::V4 { address: 0x7f00_0001, port: 10000 },
        Endpoint::V6 { address: 1, port: 443, flowinfo: 0, scope_id: 0 },
    ];
    for endpoint in endpoints {
        for intensity in [Intensity::LowRisk, Intensity::HighRisk] {
            let metadata = Metadata::new(intensity, endpoint);
            let (rpi, aem) = keyring.rpi_and_aem(ExposureTime::from(77), metadata);
            assert_eq!(aem.decrypt(keyring.aemk(), &rpi), metadata);
            let sealed = AssociatedEncryptedMetadata::encrypt(keyring.aemk(), &rpi, metadata);
            assert_eq!(sealed.decrypt(keyring.aemk(), &rpi).intensity(), intensity);
            assert_eq!(sealed.decrypt(keyring.aemk(), &rpi).connection_identifier(), endpoint);
        }
    }
}

#[test]
fn validity_floors_and_answers_queries() {
    let tekrp = TekRollingPeriod::default();
    let validity = Validity::new(ExposureTime::from(1000), tekrp, tek());
    assert_eq!(validity.valid_from(), ExposureTime::from(864));
    assert_eq!(*validity.keyring(), tek());
    assert_eq!(validity.query(ExposureTime::from(864), tekrp), Some(&tek()));
    assert_eq!(validity.query(ExposureTime::from(1007), tekrp), Some(&tek()));
    assert_eq!(validity.query(ExposureTime::from(863), tekrp), None);
    assert_eq!(validity.query(ExposureTime::from(1008), tekrp), None);
    assert_eq!(validity, Validity::new(ExposureTime::from(900), tekrp, tek()));
    assert_ne!(validity, Validity::new(ExposureTime::from(100), tekrp, tek()));
    assert_eq!(validity.to_keyring(), tek());
    let keyring = Validity::<TekKeyring>::try_from(validity).unwrap();
    assert_eq!(keyring.valid_from(), ExposureTime::from(864));
    assert_eq!(*keyring.keyring().tek(), tek());
    assert_eq!(ComputationId::from(7).id(), 7);
}
